//! Laws of the pipe's transfer model, stated and proved once and for all.
//!
//! The contracts in [`crate::ring`] and [`crate::pipe`] describe each call
//! through the spec functions of [`crate::model`]; the proof functions here
//! state what those descriptions add up to across calls: FIFO order, exact
//! round trips, and the capacity accounting.

use vstd::prelude::*;
use crate::model::{read_effect, read_len, read_result, write_effect, written_len};

verus! {

/// The contents after a sequence of writes, each performed on the result of
/// the one before, all against the same fixed capacity.
pub open spec fn write_all(contents: Seq<u8>, capacity: nat, ws: Seq<Seq<u8>>) -> Seq<u8>
    decreases ws.len(),
{
    if ws.len() == 0 {
        contents
    } else {
        write_all(write_effect(contents, capacity, ws.first()), capacity, ws.drop_first())
    }
}

/// Writes that fit in the remaining space are accepted whole: a sequence of
/// writes whose total length fits beside the existing contents appends
/// exactly their concatenation.
pub proof fn lemma_write_all_fits(contents: Seq<u8>, capacity: nat, ws: Seq<Seq<u8>>)
    requires
        contents.len() + ws.flatten().len() <= capacity,
    ensures
        write_all(contents, capacity, ws) == contents + ws.flatten(),
    decreases ws.len(),
{
    if ws.len() == 0 {
        assert(contents + ws.flatten() =~= contents);
    } else {
        let w0 = ws.first();
        assert(ws.flatten() == w0 + ws.drop_first().flatten());
        assert(written_len(contents, capacity, w0) == w0.len());
        assert(write_effect(contents, capacity, w0) =~= contents + w0);
        lemma_write_all_fits(contents + w0, capacity, ws.drop_first());
        assert(contents + w0 + ws.drop_first().flatten() =~= contents + ws.flatten());
    }
}

/// FIFO order: for any sequence of writes whose total length is at most the
/// capacity, performed on an empty pipe, a single subsequent read of that
/// total length returns exactly the writes concatenated, in order.
pub proof fn lemma_fifo_order(capacity: nat, ws: Seq<Seq<u8>>)
    requires
        ws.flatten().len() <= capacity,
    ensures
        write_all(Seq::<u8>::empty(), capacity, ws) == ws.flatten(),
        read_result(write_all(Seq::<u8>::empty(), capacity, ws), ws.flatten().len())
            == ws.flatten(),
{
    lemma_write_all_fits(Seq::<u8>::empty(), capacity, ws);
    assert(Seq::<u8>::empty() + ws.flatten() =~= ws.flatten());
    assert(ws.flatten().take(ws.flatten().len() as int) =~= ws.flatten());
}

/// Round trip: writing a buffer into an empty pipe and then reading its
/// length back yields the buffer unchanged, for any buffer that fits the
/// capacity.
pub proof fn lemma_round_trip(capacity: nat, b: Seq<u8>)
    requires
        b.len() <= capacity,
    ensures
        read_result(write_effect(Seq::<u8>::empty(), capacity, b), b.len()) == b,
        read_effect(write_effect(Seq::<u8>::empty(), capacity, b), b.len())
            == Seq::<u8>::empty(),
{
    assert(write_effect(Seq::<u8>::empty(), capacity, b) =~= b);
    assert(b.take(b.len() as int) =~= b);
    assert(b.skip(b.len() as int) =~= Seq::<u8>::empty());
}

/// Capacity invariant and byte accounting: the fill level never leaves
/// `[0, capacity]`; a write raises it by exactly the bytes it accepted, a
/// read lowers it by exactly the bytes it returned.
pub proof fn lemma_capacity_invariant(contents: Seq<u8>, capacity: nat, src: Seq<u8>, want: nat)
    requires
        contents.len() <= capacity,
    ensures
        0 <= written_len(contents, capacity, src) <= src.len(),
        write_effect(contents, capacity, src).len() == contents.len() + written_len(
            contents,
            capacity,
            src,
        ),
        write_effect(contents, capacity, src).len() <= capacity,
        0 <= read_len(contents, want) <= want,
        read_len(contents, want) <= contents.len(),
        read_result(contents, want).len() == read_len(contents, want),
        read_effect(contents, want).len() == contents.len() - read_len(contents, want),
{
}

} // verus!
