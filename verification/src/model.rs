//! The mathematical model of a pipe transfer.
//!
//! Every executable contract in this crate is stated over these functions:
//! a buffer's unread bytes are a `Seq<u8>`, a write appends a prefix of the
//! source, a read removes a prefix of the contents, and a vectored transfer
//! is the same thing spread over several buffers in order.

use vstd::prelude::*;

verus! {

/// How many bytes a single write of `src` transfers into a buffer that holds
/// `contents` and can store at most `capacity` bytes: the whole source if it
/// fits into the free space, otherwise exactly the free space.
pub open spec fn written_len(contents: Seq<u8>, capacity: nat, src: Seq<u8>) -> int
    recommends
        contents.len() <= capacity,
{
    if src.len() <= capacity - contents.len() {
        src.len() as int
    } else {
        capacity - contents.len()
    }
}

/// The unread bytes after a single write of `src`: the old contents followed
/// by the prefix of `src` that fit.
pub open spec fn write_effect(contents: Seq<u8>, capacity: nat, src: Seq<u8>) -> Seq<u8>
    recommends
        contents.len() <= capacity,
{
    contents + src.take(written_len(contents, capacity, src))
}

/// How many bytes a single read into a destination of length `want`
/// transfers out of a buffer that holds `contents`: everything asked for if
/// it is there, otherwise everything that is there.
pub open spec fn read_len(contents: Seq<u8>, want: nat) -> int {
    if want <= contents.len() {
        want as int
    } else {
        contents.len() as int
    }
}

/// The bytes such a read hands out: the oldest `read_len` bytes, in order.
pub open spec fn read_result(contents: Seq<u8>, want: nat) -> Seq<u8> {
    contents.take(read_len(contents, want))
}

/// The unread bytes after such a read.
pub open spec fn read_effect(contents: Seq<u8>, want: nat) -> Seq<u8> {
    contents.skip(read_len(contents, want))
}

/// The total length of the first `k` buffers of a buffer sequence: where the
/// `k`-th buffer's bytes start inside the flattened whole.
pub open spec fn psum(bufs: Seq<Seq<u8>>, k: int) -> int
    recommends
        0 <= k <= bufs.len(),
{
    bufs.take(k).flatten().len() as int
}

/// One destination buffer after a scatter read that takes its bytes from
/// `data` starting at position `start`: it receives the bytes
/// `data[start .. start + n]`, where `n` is bounded both by the buffer's own
/// length and by how much of `data` remains; the rest of the buffer keeps
/// its old bytes.  A start beyond the data leaves the buffer untouched.
pub open spec fn fill_one(buf: Seq<u8>, data: Seq<u8>, start: int) -> Seq<u8> {
    if start < 0 || start > data.len() {
        buf
    } else {
        let avail = data.len() - start;
        let n = if buf.len() <= avail {
            buf.len() as int
        } else {
            avail
        };
        data.subrange(start, start + n) + buf.skip(n)
    }
}

/// All destination buffers after a scatter read of `data`: buffer `k` starts
/// where the buffers before it ended, so the buffers are filled in order
/// until `data` runs out and the rest stay untouched.
pub open spec fn scatter(data: Seq<u8>, bufs: Seq<Seq<u8>>) -> Seq<Seq<u8>> {
    Seq::new(bufs.len(), |k: int| fill_one(bufs[k], data, psum(bufs, k)))
}

/// Stepping from the length of `k` buffers to the length of `k + 1` adds
/// exactly the length of buffer `k`.
pub proof fn lemma_psum_step(bufs: Seq<Seq<u8>>, k: int)
    requires
        0 <= k < bufs.len(),
    ensures
        psum(bufs, k + 1) == psum(bufs, k) + bufs[k].len(),
{
    assert(bufs.take(k + 1) =~= bufs.take(k).push(bufs[k]));
    bufs.take(k).lemma_flatten_push(bufs[k]);
}

/// Prefix lengths never decrease.
pub proof fn lemma_psum_mono(bufs: Seq<Seq<u8>>, i: int, j: int)
    requires
        0 <= i <= j <= bufs.len(),
    ensures
        psum(bufs, i) <= psum(bufs, j),
    decreases j - i,
{
    if i < j {
        lemma_psum_step(bufs, j - 1);
        lemma_psum_mono(bufs, i, j - 1);
    }
}

/// The length of all buffers together is the last prefix sum.
pub proof fn lemma_psum_total(bufs: Seq<Seq<u8>>)
    ensures
        psum(bufs, bufs.len() as int) == bufs.flatten().len(),
{
    assert(bufs.take(bufs.len() as int) =~= bufs);
}

/// The flattened whole splits at any buffer boundary: the first `k` buffers
/// flattened, then the rest flattened.
pub proof fn lemma_flatten_split(bufs: Seq<Seq<u8>>, k: int)
    requires
        0 <= k <= bufs.len(),
    ensures
        bufs.flatten() == bufs.take(k).flatten() + bufs.skip(k).flatten(),
{
    assert(bufs =~= bufs.take(k) + bufs.skip(k));
    vstd::seq_lib::lemma_flatten_concat(bufs.take(k), bufs.skip(k));
}

/// Taking the flattened whole up to a point inside buffer `i` gives the
/// first `i` buffers flattened, then that much of buffer `i`.
pub proof fn lemma_flat_take_in_buf(bufs: Seq<Seq<u8>>, i: int, t: int)
    requires
        0 <= i < bufs.len(),
        0 <= t <= bufs[i].len(),
    ensures
        bufs.flatten().take(psum(bufs, i) + t) == bufs.take(i).flatten() + bufs[i].take(t),
{
    lemma_flatten_split(bufs, i);
    lemma_flatten_skip_first(bufs, i);
    assert(bufs.flatten().take(psum(bufs, i) + t) =~= bufs.take(i).flatten() + bufs[i].take(t));
}

/// Flattening the buffers from `k` on starts with buffer `k` itself.
pub proof fn lemma_flatten_skip_first(bufs: Seq<Seq<u8>>, k: int)
    requires
        0 <= k < bufs.len(),
    ensures
        bufs.skip(k).flatten() == bufs[k] + bufs.skip(k + 1).flatten(),
{
    assert(bufs.skip(k).len() > 0);
    assert(bufs.skip(k).first() == bufs[k]);
    assert(bufs.skip(k).drop_first() =~= bufs.skip(k + 1));
}

} // verus!
