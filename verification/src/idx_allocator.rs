//! A recycling allocator for small slot indexes: each consumer gets a slot
//! of its own, freed slots are handed out again, and once the fixed range is
//! exhausted every further consumer shares the last, reserved slot.

use vstd::prelude::*;
use std::collections::VecDeque;

verus! {

/// The largest usable slot index; it doubles as the shared overflow slot
/// that is handed out when the range is exhausted, and is never recycled.
pub const MAX_THREAD_IDX: usize = 192;

/// Hands out slot indexes in `[0, MAX_THREAD_IDX]`: freed ones first, then
/// fresh ones counted up from zero.
pub struct IdxAllocator {
    counter: usize,
    free_list: VecDeque<usize>,
}

impl IdxAllocator {
    /// The next never-used index.
    pub closed spec fn spec_counter(self) -> usize {
        self.counter
    }

    /// The recycled indexes, oldest first.
    pub closed spec fn spec_free_list(self) -> Seq<usize> {
        self.free_list@
    }

    /// An allocator with no slot handed out yet.
    pub fn new() -> (a: IdxAllocator)
        ensures
            a.spec_counter() == 0,
            a.spec_free_list() == Seq::<usize>::empty(),
    {
        IdxAllocator { counter: 0, free_list: VecDeque::new() }
    }

    /// Hand out a slot: the oldest freed one if any, else a fresh one; any
    /// index beyond the range collapses to the shared `MAX_THREAD_IDX`.
    pub fn allocate(&mut self) -> (idx: usize)
        ensures
            idx <= MAX_THREAD_IDX,
            old(self).spec_free_list().len() > 0 ==> {
                &&& idx == if old(self).spec_free_list()[0] < MAX_THREAD_IDX {
                    old(self).spec_free_list()[0]
                } else {
                    MAX_THREAD_IDX
                }
                &&& final(self).spec_free_list() == old(self).spec_free_list().drop_first()
                &&& final(self).spec_counter() == old(self).spec_counter()
            },
            old(self).spec_free_list().len() == 0 ==> {
                &&& idx == if old(self).spec_counter() < MAX_THREAD_IDX {
                    old(self).spec_counter()
                } else {
                    MAX_THREAD_IDX
                }
                &&& final(self).spec_free_list() == old(self).spec_free_list()
                &&& final(self).spec_counter() == vstd::wrapping::usize_specs::wrapping_add(
                    old(self).spec_counter(),
                    1,
                )
            },
    {
        let idx = match self.free_list.pop_front() {
            Some(idx) => idx,
            None => {
                let c = self.counter;
                self.counter = self.counter.wrapping_add(1);
                c
            },
        };
        if idx < MAX_THREAD_IDX {
            idx
        } else {
            MAX_THREAD_IDX
        }
    }

    /// Give a slot back for reuse; the shared overflow slot stays shared and
    /// is never recycled.
    pub fn free(&mut self, idx: usize)
        ensures
            idx != MAX_THREAD_IDX ==> final(self).spec_free_list() == old(
                self,
            ).spec_free_list().push(idx),
            idx == MAX_THREAD_IDX ==> final(self).spec_free_list() == old(self).spec_free_list(),
            final(self).spec_counter() == old(self).spec_counter(),
    {
        if idx != MAX_THREAD_IDX {
            self.free_list.push_back(idx);
        }
    }
}

} // verus!
