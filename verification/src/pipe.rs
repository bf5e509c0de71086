//! The pipe: a bounded FIFO byte channel with two endpoints.
//!
//! A `Pipe` owns one [`RingBuf`](crate::ring::RingBuf) together with a handle
//! counter for each endpoint, so closing can be observed: a write with no
//! read handles left fails with [`PipeError::BrokenChannel`], and a read that
//! finds the buffer empty returns zero bytes — end-of-stream exactly when
//! the write side is closed, which callers tell apart through
//! [`Pipe::state`].
//!
//! All transfers here are non-blocking and complete in a single pass over
//! the bytes or space currently available.  A blocking runtime wraps the
//! pipe in a lock of its own and uses [`Pipe::read_ready`] /
//! [`Pipe::write_ready`] to decide when a suspended caller may proceed.

use vstd::prelude::*;
use crate::model::{
    lemma_flat_take_in_buf, lemma_psum_mono, lemma_psum_step, lemma_psum_total, psum, fill_one,
    read_effect, read_len, read_result, scatter, write_effect, written_len,
};
use crate::ring::RingBuf;

verus! {

/// The default capacity of a pipe, in bytes.
pub const PIPE_BUF_SIZE: usize = 2 * 1024 * 1024;

/// Everything that can go wrong on a pipe operation.
#[derive(Clone, Copy, Debug, PartialEq, Eq, Structural)]
pub enum PipeError {
    /// A pipe has no addressable position, so `seek` always fails with this.
    NotSeekable,
    /// A write found no read handle left alive.
    BrokenChannel,
    /// A surrounding lock was poisoned by a panic while held.  The pipe
    /// itself never produces this; the runtime that owns the locks maps its
    /// poison errors here so that callers see one error type.
    LockPoisoned,
}

/// A position to seek to.  Pipes reject every one of them.
#[derive(Clone, Copy, Debug, PartialEq, Eq, Structural)]
pub enum SeekPos {
    /// An offset from the start of the stream.
    Start(u64),
    /// An offset from the end of the stream.
    End(i64),
    /// An offset from the current position.
    Current(i64),
}

/// The four lifecycle states of a channel, decided by which endpoints still
/// have live handles.
#[derive(Clone, Copy, Debug, PartialEq, Eq, Structural)]
pub enum ChannelState {
    /// Both endpoints have at least one live handle.
    Open,
    /// All read handles are gone; writes fail with `BrokenChannel`.
    ReadClosed,
    /// All write handles are gone; an empty read means end-of-stream.
    WriteClosed,
    /// Both sides are gone.
    Closed,
}

/// The consumer endpoint: a counter of live read handles.
pub struct PipeReader {
    handles: usize,
}

/// The producer endpoint: a counter of live write handles.
pub struct PipeWriter {
    handles: usize,
}

impl View for PipeReader {
    type V = nat;

    /// The number of live read handles.
    closed spec fn view(&self) -> nat {
        self.handles as nat
    }
}

impl View for PipeWriter {
    type V = nat;

    /// The number of live write handles.
    closed spec fn view(&self) -> nat {
        self.handles as nat
    }
}

impl PipeReader {
    /// The number of live read handles.
    pub fn handle_count(&self) -> (n: usize)
        ensures
            n == self@,
    {
        self.handles
    }

    /// Whether the last read handle is gone.
    pub fn is_closed(&self) -> (b: bool)
        ensures
            b == (self@ == 0),
    {
        self.handles == 0
    }
}

impl PipeWriter {
    /// The number of live write handles.
    pub fn handle_count(&self) -> (n: usize)
        ensures
            n == self@,
    {
        self.handles
    }

    /// Whether the last write handle is gone.
    pub fn is_closed(&self) -> (b: bool)
        ensures
            b == (self@ == 0),
    {
        self.handles == 0
    }
}

/// The abstract state of a pipe: what a caller can observe of it.
pub struct PipeView {
    /// The unread bytes, oldest first.
    pub contents: Seq<u8>,
    /// The fixed capacity.
    pub capacity: nat,
    /// Live read handles.
    pub reader_handles: nat,
    /// Live write handles.
    pub writer_handles: nat,
}

impl PipeView {
    /// No read handle is left.
    pub open spec fn read_closed(self) -> bool {
        self.reader_handles == 0
    }

    /// No write handle is left.
    pub open spec fn write_closed(self) -> bool {
        self.writer_handles == 0
    }

    /// Free space left for the writer.
    pub open spec fn free(self) -> int {
        self.capacity - self.contents.len()
    }

    /// The lifecycle state the handle counters decide.
    pub open spec fn state(self) -> ChannelState {
        if self.reader_handles > 0 && self.writer_handles > 0 {
            ChannelState::Open
        } else if self.reader_handles == 0 && self.writer_handles > 0 {
            ChannelState::ReadClosed
        } else if self.reader_handles > 0 {
            ChannelState::WriteClosed
        } else {
            ChannelState::Closed
        }
    }
}

/// A bounded FIFO byte channel: one ring buffer shared by a read endpoint
/// and a write endpoint.
pub struct Pipe {
    buf: RingBuf,
    reader: PipeReader,
    writer: PipeWriter,
}

impl View for Pipe {
    type V = PipeView;

    closed spec fn view(&self) -> PipeView {
        PipeView {
            contents: self.buf@,
            capacity: self.buf.capacity(),
            reader_handles: self.reader@,
            writer_handles: self.writer@,
        }
    }
}

impl Pipe {
    /// Well-formedness: the buffer's cursors are in range, so the fill level
    /// always lies between zero and the capacity.
    pub closed spec fn wf(self) -> bool {
        self.buf.wf()
    }

    /// The capacity invariant, visible to every caller: in a well-formed
    /// pipe the fill level lies between zero and the fixed capacity.
    pub proof fn lemma_wf_bounds(self)
        requires
            self.wf(),
        ensures
            self@.contents.len() <= self@.capacity,
            self@.capacity <= usize::MAX,
    {
        self.buf.lemma_bounds();
    }

    /// A pipe of the default capacity, with one live handle per endpoint.
    /// Allocation aborts rather than failing, so this always succeeds.
    pub fn new() -> (r: Result<Pipe, PipeError>)
        ensures
            r matches Ok(p) && p.wf() && p@ == (PipeView {
                contents: Seq::<u8>::empty(),
                capacity: PIPE_BUF_SIZE as nat,
                reader_handles: 1,
                writer_handles: 1,
            }),
    {
        Pipe::with_capacity(PIPE_BUF_SIZE)
    }

    /// A pipe of the given capacity, with one live handle per endpoint.
    pub fn with_capacity(capacity: usize) -> (r: Result<Pipe, PipeError>)
        requires
            capacity >= 1,
        ensures
            r matches Ok(p) && p.wf() && p@ == (PipeView {
                contents: Seq::<u8>::empty(),
                capacity: capacity as nat,
                reader_handles: 1,
                writer_handles: 1,
            }),
    {
        Ok(
            Pipe {
                buf: RingBuf::new(capacity),
                reader: PipeReader { handles: 1 },
                writer: PipeWriter { handles: 1 },
            },
        )
    }

    /// The fixed capacity.
    pub fn capacity(&self) -> (n: usize)
        requires
            self.wf(),
        ensures
            n == self@.capacity,
    {
        self.buf.cap()
    }

    /// The number of unread bytes currently buffered.
    pub fn available(&self) -> (n: usize)
        requires
            self.wf(),
        ensures
            n == self@.contents.len(),
    {
        self.buf.len()
    }

    /// The space still free for the writer.
    pub fn free_space(&self) -> (n: usize)
        requires
            self.wf(),
        ensures
            n == self@.free(),
    {
        proof {
            self.buf.lemma_bounds();
        }
        self.buf.cap() - self.buf.len()
    }

    /// The number of live read handles.
    pub fn reader_handles(&self) -> (n: usize)
        ensures
            n == self@.reader_handles,
    {
        self.reader.handle_count()
    }

    /// The number of live write handles.
    pub fn writer_handles(&self) -> (n: usize)
        ensures
            n == self@.writer_handles,
    {
        self.writer.handle_count()
    }

    /// The lifecycle state: which sides still have live handles.
    pub fn state(&self) -> (s: ChannelState)
        ensures
            s == self@.state(),
    {
        let r = self.reader.handle_count();
        let w = self.writer.handle_count();
        if r > 0 && w > 0 {
            ChannelState::Open
        } else if r == 0 && w > 0 {
            ChannelState::ReadClosed
        } else if r > 0 {
            ChannelState::WriteClosed
        } else {
            ChannelState::Closed
        }
    }

    /// Records one more live read handle (a duplicated descriptor).
    pub fn clone_reader(&mut self)
        requires
            old(self).wf(),
            old(self)@.reader_handles >= 1,
            old(self)@.reader_handles < usize::MAX,
        ensures
            final(self).wf(),
            final(self)@ == (PipeView {
                reader_handles: old(self)@.reader_handles + 1,
                ..old(self)@
            }),
    {
        self.reader.handles = self.reader.handles + 1;
    }

    /// Records that one read handle was dropped.
    pub fn drop_reader(&mut self)
        requires
            old(self).wf(),
            old(self)@.reader_handles >= 1,
        ensures
            final(self).wf(),
            final(self)@ == (PipeView {
                reader_handles: (old(self)@.reader_handles - 1) as nat,
                ..old(self)@
            }),
    {
        self.reader.handles = self.reader.handles - 1;
    }

    /// Records one more live write handle (a duplicated descriptor).
    pub fn clone_writer(&mut self)
        requires
            old(self).wf(),
            old(self)@.writer_handles >= 1,
            old(self)@.writer_handles < usize::MAX,
        ensures
            final(self).wf(),
            final(self)@ == (PipeView {
                writer_handles: old(self)@.writer_handles + 1,
                ..old(self)@
            }),
    {
        self.writer.handles = self.writer.handles + 1;
    }

    /// Records that one write handle was dropped.
    pub fn drop_writer(&mut self)
        requires
            old(self).wf(),
            old(self)@.writer_handles >= 1,
        ensures
            final(self).wf(),
            final(self)@ == (PipeView {
                writer_handles: (old(self)@.writer_handles - 1) as nat,
                ..old(self)@
            }),
    {
        self.writer.handles = self.writer.handles - 1;
    }

    /// Whether a read that wants `want` bytes may proceed without waiting:
    /// it wants nothing, or data is buffered, or no writer is left (so it
    /// returns end-of-stream instead of waiting forever).
    pub fn read_ready(&self, want: usize) -> (b: bool)
        requires
            self.wf(),
        ensures
            b == (want == 0 || self@.contents.len() > 0 || self@.write_closed()),
    {
        want == 0 || self.buf.len() > 0 || self.writer.is_closed()
    }

    /// Whether a write of `want` bytes may proceed without waiting: it
    /// writes nothing, or space is free, or no reader is left (so it fails
    /// with `BrokenChannel` instead of waiting forever).
    pub fn write_ready(&self, want: usize) -> (b: bool)
        requires
            self.wf(),
        ensures
            b == (want == 0 || self@.contents.len() < self@.capacity || self@.read_closed()),
    {
        want == 0 || self.buf.len() < self.buf.cap() || self.reader.is_closed()
    }

    /// Pipes have no addressable position: every seek fails.
    pub fn seek(&self, pos: SeekPos) -> (r: Result<u64, PipeError>)
        ensures
            r == Err::<u64, PipeError>(PipeError::NotSeekable),
    {
        Err(PipeError::NotSeekable)
    }

    /// Copies up to `dst.len()` of the oldest buffered bytes into the front
    /// of `dst` and returns how many were copied.  Never blocks and never
    /// fails; zero with the write side closed means end-of-stream, zero
    /// with it open means no data right now.
    pub fn read(&mut self, dst: &mut Vec<u8>) -> (r: Result<usize, PipeError>)
        requires
            old(self).wf(),
        ensures
            final(self).wf(),
            final(self)@.capacity == old(self)@.capacity,
            final(self)@.reader_handles == old(self)@.reader_handles,
            final(self)@.writer_handles == old(self)@.writer_handles,
            final(dst)@.len() == old(dst)@.len(),
            r == Ok::<usize, PipeError>(read_len(old(self)@.contents, old(dst)@.len()) as usize),
            final(dst)@ == read_result(old(self)@.contents, old(dst)@.len()) + old(dst)@.skip(
                read_len(old(self)@.contents, old(dst)@.len()),
            ),
            final(self)@.contents == read_effect(old(self)@.contents, old(dst)@.len()),
            old(self)@.contents.len() == 0 ==> r == Ok::<usize, PipeError>(0),
    {
        let n = self.buf.try_read(dst);
        Ok(n)
    }

    /// Copies as much of `src` as fits into the free space and returns how
    /// many bytes were accepted, or fails with `BrokenChannel` when no read
    /// handle is left.  Never blocks; zero with the buffer full means no
    /// space right now.
    pub fn write(&mut self, src: &Vec<u8>) -> (r: Result<usize, PipeError>)
        requires
            old(self).wf(),
        ensures
            final(self).wf(),
            final(self)@.capacity == old(self)@.capacity,
            final(self)@.reader_handles == old(self)@.reader_handles,
            final(self)@.writer_handles == old(self)@.writer_handles,
            old(self)@.read_closed() ==> r == Err::<usize, PipeError>(PipeError::BrokenChannel)
                && final(self)@.contents == old(self)@.contents,
            !old(self)@.read_closed() ==> r == Ok::<usize, PipeError>(
                written_len(old(self)@.contents, old(self)@.capacity, src@) as usize,
            ) && final(self)@.contents == write_effect(
                old(self)@.contents,
                old(self)@.capacity,
                src@,
            ),
    {
        if self.reader.is_closed() {
            return Err(PipeError::BrokenChannel);
        }
        let n = self.buf.try_write(src);
        Ok(n)
    }

    /// Gather-write: writes the buffers in order, stopping after the first
    /// one that could not be written whole.  The outcome is exactly that of
    /// one write of all the buffers concatenated: as many bytes of that
    /// concatenation as fit, in order.  A sub-write that fails with no byte
    /// transferred yet fails the whole call; after progress the partial
    /// count is returned instead.
    pub fn writev(&mut self, srcs: &Vec<Vec<u8>>) -> (r: Result<usize, PipeError>)
        requires
            old(self).wf(),
        ensures
            final(self).wf(),
            final(self)@.capacity == old(self)@.capacity,
            final(self)@.reader_handles == old(self)@.reader_handles,
            final(self)@.writer_handles == old(self)@.writer_handles,
            old(self)@.read_closed() && srcs@.len() > 0 ==> r == Err::<usize, PipeError>(
                PipeError::BrokenChannel,
            ) && final(self)@.contents == old(self)@.contents,
            old(self)@.read_closed() && srcs@.len() == 0 ==> r == Ok::<usize, PipeError>(0)
                && final(self)@.contents == old(self)@.contents,
            !old(self)@.read_closed() ==> r == Ok::<usize, PipeError>(
                written_len(old(self)@.contents, old(self)@.capacity, srcs.deep_view().flatten()) as usize,
            ) && final(self)@.contents == write_effect(
                old(self)@.contents,
                old(self)@.capacity,
                srcs.deep_view().flatten(),
            ),
    {
        let ghost dv = srcs.deep_view();
        let ghost flat = dv.flatten();
        proof {
            lemma_deep_view_is_views(srcs);
            lemma_psum_total(dv);
            old(self).buf.lemma_bounds();
            assert(dv.take(0).flatten() =~= Seq::<u8>::empty());
            assert(old(self)@.contents + flat.take(0) =~= old(self)@.contents);
        }
        let mut total: usize = 0;
        let mut i: usize = 0;
        loop
            invariant_except_break
                self.wf(),
                self@.capacity == old(self)@.capacity,
                self@.reader_handles == old(self)@.reader_handles,
                self@.writer_handles == old(self)@.writer_handles,
                i <= srcs@.len(),
                dv == srcs.deep_view(),
                flat == dv.flatten(),
                dv.len() == srcs@.len(),
                forall|k: int| 0 <= k < dv.len() ==> dv[k] == srcs@[k]@,
                psum(dv, dv.len() as int) == flat.len(),
                old(self)@.contents.len() <= old(self)@.capacity,
                old(self)@.capacity <= usize::MAX,
                old(self)@.read_closed() ==> i == 0 && total == 0 && self@.contents == old(
                    self,
                )@.contents,
                !old(self)@.read_closed() ==> total == psum(dv, i as int) && total
                    <= old(self)@.free() && self@.contents == old(self)@.contents + flat.take(
                    total as int,
                ),
            ensures
                self.wf(),
                self@.capacity == old(self)@.capacity,
                self@.reader_handles == old(self)@.reader_handles,
                self@.writer_handles == old(self)@.writer_handles,
                old(self)@.read_closed() ==> total == 0 && srcs@.len() == 0 && self@.contents
                    == old(self)@.contents,
                !old(self)@.read_closed() ==> total as int == written_len(
                    old(self)@.contents,
                    old(self)@.capacity,
                    flat,
                ) && self@.contents == write_effect(old(self)@.contents, old(self)@.capacity, flat),
            decreases srcs@.len() - i,
        {
            if i == srcs.len() {
                proof {
                    if !old(self)@.read_closed() {
                        assert(flat.take(total as int) =~= flat);
                    }
                }
                break;
            }
            let ghost pre = self@.contents;
            match self.write(&srcs[i]) {
                Ok(this_len) => {
                    proof {
                        lemma_psum_step(dv, i as int);
                        lemma_psum_mono(dv, i as int, dv.len() as int);
                        lemma_psum_mono(dv, i as int + 1, dv.len() as int);
                        assert(flat.take(total as int).len() == total as int);
                        assert(pre.len() == old(self)@.contents.len() + total);
                        lemma_flat_take_in_buf(dv, i as int, this_len as int);
                        assert(flat.take(psum(dv, i as int) + this_len) =~= flat.take(
                            total as int,
                        ) + srcs@[i as int]@.take(this_len as int));
                    }
                    total = total + this_len;
                    if this_len < srcs[i].len() {
                        proof {
                            assert(total as int == written_len(
                                old(self)@.contents,
                                old(self)@.capacity,
                                flat,
                            ));
                        }
                        break;
                    }
                }
                Err(e) => {
                    if total == 0 {
                        return Err(e);
                    } else {
                        break;
                    }
                }
            }
            i = i + 1;
        }
        Ok(total)
    }

    /// Scatter-read: fills the destination buffers in order with the oldest
    /// buffered bytes, stopping after the first buffer that could not be
    /// filled whole.  In total it transfers as many bytes as one read of
    /// the combined length would; buffer `k` receives the bytes that start
    /// where the buffers before it ended, and every untouched byte keeps
    /// its old value.
    pub fn readv(&mut self, dsts: &mut Vec<Vec<u8>>) -> (r: Result<usize, PipeError>)
        requires
            old(self).wf(),
        ensures
            final(self).wf(),
            final(self)@.capacity == old(self)@.capacity,
            final(self)@.reader_handles == old(self)@.reader_handles,
            final(self)@.writer_handles == old(self)@.writer_handles,
            r == Ok::<usize, PipeError>(
                read_len(old(self)@.contents, old(dsts).deep_view().flatten().len()) as usize,
            ),
            final(self)@.contents == read_effect(
                old(self)@.contents,
                old(dsts).deep_view().flatten().len(),
            ),
            final(dsts).deep_view() == scatter(old(self)@.contents, old(dsts).deep_view()),
    {
        let ghost odv = old(dsts).deep_view();
        let ghost want = odv.flatten().len();
        let ghost start = old(self)@.contents;
        proof {
            lemma_deep_view_is_views(dsts);
            lemma_psum_total(odv);
            old(self).buf.lemma_bounds();
            assert(odv.take(0).flatten() =~= Seq::<u8>::empty());
            assert(start.skip(0) =~= start);
        }
        let mut total: usize = 0;
        let mut i: usize = 0;
        loop
            invariant_except_break
                self.wf(),
                self@.capacity == old(self)@.capacity,
                self@.reader_handles == old(self)@.reader_handles,
                self@.writer_handles == old(self)@.writer_handles,
                i <= dsts@.len(),
                dsts@.len() == odv.len(),
                odv == old(dsts).deep_view(),
                want == odv.flatten().len(),
                start == old(self)@.contents,
                psum(odv, odv.len() as int) == want,
                start.len() <= usize::MAX,
                total == psum(odv, i as int),
                total <= start.len(),
                self@.contents == start.skip(total as int),
                forall|k: int| i <= k < dsts@.len() ==> #[trigger] dsts@[k]@ == odv[k],
                forall|k: int| 0 <= k < i ==> #[trigger] dsts@[k]@ == fill_one(
                    odv[k],
                    start,
                    psum(odv, k),
                ),
            ensures
                self.wf(),
                self@.capacity == old(self)@.capacity,
                self@.reader_handles == old(self)@.reader_handles,
                self@.writer_handles == old(self)@.writer_handles,
                dsts@.len() == odv.len(),
                total as int == read_len(start, want),
                self@.contents == start.skip(read_len(start, want)),
                forall|k: int| 0 <= k < dsts@.len() ==> #[trigger] dsts@[k]@ == fill_one(
                    odv[k],
                    start,
                    psum(odv, k),
                ),
            decreases dsts@.len() - i,
        {
            if i == dsts.len() {
                proof {
                    assert(total as int == read_len(start, want));
                }
                break;
            }
            let ghost pre = self@.contents;
            proof {
                lemma_psum_step(odv, i as int);
                lemma_psum_mono(odv, i as int + 1, odv.len() as int);
                assert(dsts@[i as int]@ == odv[i as int]);
            }
            match self.read(&mut dsts[i]) {
                Ok(this_len) => {
                    proof {
                        assert(pre.len() == start.len() - total);
                        assert(this_len as int == read_len(pre, odv[i as int].len()));
                        assert(dsts@[i as int]@ =~= fill_one(odv[i as int], start, psum(odv, i as int)));
                        assert(self@.contents =~= start.skip(total as int + this_len as int));
                    }
                    total = total + this_len;
                    if this_len < dsts[i].len() {
                        proof {
                            assert(dsts@[i as int]@.len() == odv[i as int].len());
                            assert((this_len as int) < odv[i as int].len());
                            assert(total as int == start.len());
                            assert(psum(odv, i as int + 1) > start.len());
                            assert forall|k: int| i as int + 1 <= k < dsts@.len() implies #[trigger] dsts@[k]@
                                == fill_one(odv[k], start, psum(odv, k)) by {
                                lemma_psum_mono(odv, i as int + 1, k);
                                assert(psum(odv, k) >= start.len());
                                assert(fill_one(odv[k], start, psum(odv, k)) =~= odv[k]);
                            }
                            lemma_psum_mono(odv, i as int + 1, odv.len() as int);
                        }
                        break;
                    }
                }
                Err(e) => {
                    if total == 0 {
                        return Err(e);
                    } else {
                        break;
                    }
                }
            }
            i = i + 1;
        }
        proof {
            lemma_deep_view_is_views(dsts);
            assert(dsts.deep_view() =~= scatter(start, odv));
        }
        Ok(total)
    }
}

/// The deep view of a vector of byte buffers is, buffer for buffer, the
/// view of each buffer.
pub proof fn lemma_deep_view_is_views(v: &Vec<Vec<u8>>)
    ensures
        v.deep_view().len() == v@.len(),
        forall|k: int| 0 <= k < v@.len() ==> #[trigger] v.deep_view()[k] == v@[k]@,
{
    assert forall|k: int| 0 <= k < v@.len() implies #[trigger] v.deep_view()[k] == v@[k]@ by {
        assert(v.deep_view()[k] =~= v@[k]@);
    }
}

} // verus!
