//! The fixed-capacity circular byte store.
//!
//! `RingBuf` keeps a read cursor (`head`) and a fill counter (`count`) over a
//! byte array of fixed length; the write cursor is `head + count`, wrapped.
//! Its view is the sequence of unread bytes, oldest first, so wraparound is
//! invisible in every contract: a write appends to the view, a read removes
//! a prefix of it.

use vstd::prelude::*;
use crate::model::{read_effect, read_len, read_result, write_effect, written_len};

verus! {

/// Fixed-capacity circular byte store with a read cursor and a fill counter.
pub struct RingBuf {
    storage: Vec<u8>,
    head: usize,
    count: usize,
}

impl RingBuf {
    /// The fixed number of bytes the buffer can hold at once.
    pub closed spec fn capacity(self) -> nat {
        self.storage@.len()
    }

    /// The index into `storage` that holds the `i`-th unread byte.
    closed spec fn slot(self, i: int) -> int {
        if self.head + i < self.storage@.len() {
            self.head + i
        } else {
            self.head + i - self.storage@.len()
        }
    }

    /// Well-formedness: the cursors lie inside the storage.
    pub closed spec fn wf(self) -> bool {
        &&& self.storage@.len() > 0
        &&& (self.head as int) < self.storage@.len()
        &&& (self.count as int) <= self.storage@.len()
    }

    /// Bounds every well-formed buffer obeys: the fill level never exceeds
    /// the capacity, and the capacity is a machine size.
    pub proof fn lemma_bounds(self)
        requires
            self.wf(),
        ensures
            self@.len() <= self.capacity(),
            self.capacity() <= usize::MAX,
    {
        assert(vstd::std_specs::vec::spec_vec_len(&self.storage) == self.storage@.len());
    }

    /// A fresh, empty buffer of the given capacity.
    pub fn new(capacity: usize) -> (rb: RingBuf)
        requires
            capacity >= 1,
        ensures
            rb.wf(),
            rb.capacity() == capacity,
            rb@ == Seq::<u8>::empty(),
    {
        let mut storage: Vec<u8> = Vec::new();
        while storage.len() < capacity
            invariant
                storage@.len() <= capacity,
            decreases capacity - storage.len(),
        {
            storage.push(0);
        }
        let rb = RingBuf { storage, head: 0, count: 0 };
        proof {
            assert(rb@ =~= Seq::<u8>::empty());
        }
        rb
    }

    /// The number of unread bytes currently stored.
    pub fn len(&self) -> (n: usize)
        requires
            self.wf(),
        ensures
            n == self@.len(),
    {
        self.count
    }

    /// The fixed capacity, as a machine integer.
    pub fn cap(&self) -> (n: usize)
        requires
            self.wf(),
        ensures
            n == self.capacity(),
    {
        self.storage.len()
    }

    /// Copies as much of `src` as fits into the free space, appending it to
    /// the unread bytes, and returns how many bytes were copied.
    pub fn try_write(&mut self, src: &Vec<u8>) -> (n: usize)
        requires
            old(self).wf(),
        ensures
            final(self).wf(),
            final(self).capacity() == old(self).capacity(),
            n == written_len(old(self)@, old(self).capacity(), src@),
            final(self)@ == write_effect(old(self)@, old(self).capacity(), src@),
    {
        let cap = self.storage.len();
        let free = cap - self.count;
        let n = if src.len() <= free {
            src.len()
        } else {
            free
        };
        let mut i: usize = 0;
        while i < n
            invariant
                old(self).wf(),
                self.wf(),
                self.storage@.len() == old(self).storage@.len(),
                self.head == old(self).head,
                i <= n,
                n <= src@.len(),
                n as int == written_len(old(self)@, old(self).capacity(), src@),
                self.count == old(self).count + i,
                self@ == old(self)@ + src@.take(i as int),
            decreases n - i,
        {
            let ghost prev = *self;
            let c = self.storage.len();
            let pos = if self.count >= c - self.head {
                self.count - (c - self.head)
            } else {
                self.head + self.count
            };
            proof {
                assert(pos as int == prev.slot(prev.count as int));
            }
            self.storage.set(pos, src[i]);
            self.count = self.count + 1;
            proof {
                assert forall|j: int| 0 <= j < self.count implies self@[j] == (old(
                    self,
                )@ + src@.take(i as int + 1))[j] by {
                    if j < prev.count {
                        assert(prev.slot(j) != prev.slot(prev.count as int));
                        assert(self@[j] == prev@[j]);
                    } else {
                        assert(self@[j] == src@[i as int]);
                    }
                }
                assert(self@ =~= old(self)@ + src@.take(i as int + 1));
            }
            i = i + 1;
        }
        proof {
            assert(src@.take(n as int) == src@.take(written_len(old(self)@, old(self).capacity(), src@)));
        }
        n
    }

    /// Copies up to `dst.len()` of the oldest unread bytes into the front of
    /// `dst`, removes them from the buffer, and returns how many bytes were
    /// copied; the rest of `dst` keeps its old bytes.
    pub fn try_read(&mut self, dst: &mut Vec<u8>) -> (n: usize)
        requires
            old(self).wf(),
        ensures
            final(self).wf(),
            final(self).capacity() == old(self).capacity(),
            final(dst)@.len() == old(dst)@.len(),
            n == read_len(old(self)@, old(dst)@.len()),
            final(dst)@ == read_result(old(self)@, old(dst)@.len()) + old(dst)@.skip(n as int),
            final(self)@ == read_effect(old(self)@, old(dst)@.len()),
    {
        let n = if dst.len() <= self.count {
            dst.len()
        } else {
            self.count
        };
        let mut i: usize = 0;
        while i < n
            invariant
                old(self).wf(),
                self.wf(),
                self.storage@ == old(self).storage@,
                i <= n,
                n as int == read_len(old(self)@, old(dst)@.len()),
                n <= old(dst)@.len(),
                self.count == old(self).count - i,
                self.head as int == old(self).slot(i as int),
                self@ == old(self)@.skip(i as int),
                dst@.len() == old(dst)@.len(),
                dst@ == old(self)@.take(i as int) + old(dst)@.skip(i as int),
            decreases n - i,
        {
            let ghost prev = *self;
            let b = self.storage[self.head];
            proof {
                assert(b == prev@[0]);
                assert(prev@[0] == old(self)@[i as int]);
            }
            dst.set(i, b);
            let c = self.storage.len();
            self.head = self.head + 1;
            if self.head == c {
                self.head = 0;
            }
            self.count = self.count - 1;
            proof {
                assert forall|j: int| 0 <= j < self.count implies self@[j] == prev@[j + 1] by {
                    assert(self.slot(j) == prev.slot(j + 1));
                }
                assert(self@ =~= old(self)@.skip(i as int + 1));
                assert(dst@ =~= old(self)@.take(i as int + 1) + old(dst)@.skip(i as int + 1));
            }
            i = i + 1;
        }
        proof {
            assert(old(self)@.take(n as int) == read_result(old(self)@, old(dst)@.len()));
        }
        n
    }
}

impl View for RingBuf {
    type V = Seq<u8>;

    /// The unread bytes, oldest first.
    closed spec fn view(&self) -> Seq<u8> {
        Seq::new(self.count as nat, |i: int| self.storage@[self.slot(i)])
    }
}

} // verus!
