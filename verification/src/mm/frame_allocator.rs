//! The allocator of physical frames.
//!
//! Frames are handed out from a range of page numbers. A frame that was given
//! back is handed out again before any frame that was never used.

use vstd::prelude::*;
use crate::config::PPN_LIMIT;
use crate::mm::address::PhysPageNum;

verus! {

/// Allocator over the frames `[base, end)`.
pub struct FrameAllocator {
    base: usize,
    current: usize,
    end: usize,
    recycled: Vec<usize>,
}

impl FrameAllocator {
    /// The frames never handed out lie in `[current, end)`; the frames given
    /// back are listed once each and were handed out before.
    pub closed spec fn wf(&self) -> bool {
        &&& self.base <= self.current <= self.end <= PPN_LIMIT
        &&& self.recycled@.no_duplicates()
        &&& forall|i: int|
            0 <= i < self.recycled@.len() ==> self.base <= #[trigger] self.recycled@[i] < self.current
    }

    /// The frames that are handed out at present.
    pub closed spec fn allocated(&self) -> Set<usize> {
        Set::new(|ppn: usize| self.base <= ppn < self.current && !self.recycled@.contains(ppn))
    }

    /// Number of frames that can still be handed out.
    pub closed spec fn available(&self) -> nat {
        (self.end - self.current + self.recycled@.len()) as nat
    }

    /// First frame of the range.
    pub closed spec fn first(&self) -> usize {
        self.base
    }

    /// End of the range of frames.
    pub closed spec fn limit(&self) -> usize {
        self.end
    }

    /// An allocator over the frames `[base, end)`, none handed out.
    pub fn new(base: usize, end: usize) -> (allocator: Self)
        requires
            base <= end <= PPN_LIMIT,
        ensures
            allocator.wf(),
            allocator.allocated() == Set::<usize>::empty(),
            allocator.available() == end - base,
            allocator.first() == base,
            allocator.limit() == end,
    {
        let allocator = Self { base, current: base, end, recycled: Vec::new() };
        assert(allocator.allocated() =~= Set::<usize>::empty());
        allocator
    }

    /// Number of frames that can still be handed out.
    pub fn free_frames(&self) -> (n: usize)
        requires
            self.wf(),
        ensures
            n == self.available(),
    {
        proof {
            self.lemma_recycled_bound();
        }
        self.end - self.current + self.recycled.len()
    }

    proof fn lemma_recycled_bound(&self)
        requires
            self.wf(),
        ensures
            self.recycled@.len() <= self.current - self.base,
    {
        let s = self.recycled@;
        let range = Set::new(|p: usize| self.base <= p < self.current);
        let whole = Set::new(|p: int| self.base <= p < self.current);
        vstd::set_lib::lemma_int_range(self.base as int, self.current as int);
        assert(vstd::set_lib::set_int_range(self.base as int, self.current as int) =~= whole);
        let as_ints = s.map_values(|p: usize| p as int);
        assert(as_ints.no_duplicates()) by {
            assert forall|i: int, j: int|
                0 <= i < as_ints.len() && 0 <= j < as_ints.len() && i != j implies as_ints[i]
                != as_ints[j] by {
                assert(s[i] != s[j]);
            }
        }
        as_ints.unique_seq_to_set();
        assert(as_ints.to_set().subset_of(whole)) by {
            assert forall|p: int| as_ints.to_set().contains(p) implies whole.contains(p) by {
                let i = choose|i: int| 0 <= i < as_ints.len() && as_ints[i] == p;
                assert(as_ints[i] == s[i] as int);
            }
        }
        vstd::set_lib::lemma_len_subset(as_ints.to_set(), whole);
    }

    /// Hands out a frame that was not handed out, if any is left.
    pub fn frame_alloc(&mut self) -> (frame: Option<PhysPageNum>)
        requires
            old(self).wf(),
        ensures
            final(self).wf(),
            final(self).first() == old(self).first(),
            final(self).limit() == old(self).limit(),
            match frame {
                Some(ppn) => {
                    &&& old(self).available() > 0
                    &&& !old(self).allocated().contains(ppn.0)
                    &&& final(self).allocated() == old(self).allocated().insert(ppn.0)
                    &&& final(self).available() == old(self).available() - 1
                    &&& ppn.0 < PPN_LIMIT
                },
                None => old(self).available() == 0 && *final(self) == *old(self),
            },
    {
        if self.recycled.len() > 0 {
            let ppn = self.recycled.pop().unwrap();
            proof {
                let before = old(self).recycled@;
                let after = self.recycled@;
                assert(before[before.len() - 1] == ppn);
                assert(old(self).base <= before[before.len() - 1] < old(self).current);
                assert forall|i: int| 0 <= i < after.len() implies self.base <= #[trigger] after[i]
                    < self.current by {
                    assert(after[i] == before[i]);
                }
                assert(before.contains(ppn));
                assert(!after.contains(ppn)) by {
                    if after.contains(ppn) {
                        let i = choose|i: int| 0 <= i < after.len() && after[i] == ppn;
                        assert(before[i] == ppn);
                    }
                }
                assert forall|p: usize| after.contains(p) || p == ppn <==> before.contains(p) by {
                    if before.contains(p) {
                        let i = choose|i: int| 0 <= i < before.len() && before[i] == p;
                        if i < after.len() {
                            assert(after[i] == p);
                        }
                    }
                    if after.contains(p) {
                        let i = choose|i: int| 0 <= i < after.len() && after[i] == p;
                        assert(before[i] == p);
                    }
                }
                assert(self.allocated() =~= old(self).allocated().insert(ppn));
                assert(after.no_duplicates());
            }
            Some(PhysPageNum(ppn))
        } else if self.current < self.end {
            let ppn = self.current;
            self.current = self.current + 1;
            proof {
                assert(self.allocated() =~= old(self).allocated().insert(ppn));
            }
            Some(PhysPageNum(ppn))
        } else {
            None
        }
    }

    /// Takes back a frame that is handed out.
    pub fn frame_dealloc(&mut self, ppn: PhysPageNum)
        requires
            old(self).wf(),
            old(self).allocated().contains(ppn.0),
        ensures
            final(self).wf(),
            final(self).first() == old(self).first(),
            final(self).limit() == old(self).limit(),
            final(self).allocated() == old(self).allocated().remove(ppn.0),
            final(self).available() == old(self).available() + 1,
    {
        self.recycled.push(ppn.0);
        proof {
            let before = old(self).recycled@;
            let after = self.recycled@;
            assert(after.no_duplicates()) by {
                assert forall|i: int, j: int|
                    0 <= i < after.len() && 0 <= j < after.len() && i != j implies after[i]
                    != after[j] by {
                    if i < before.len() {
                        assert(before.contains(after[i]));
                    }
                    if j < before.len() {
                        assert(before.contains(after[j]));
                    }
                }
            }
            assert forall|p: usize| after.contains(p) <==> (before.contains(p) || p == ppn.0) by {
                if after.contains(p) {
                    let i = choose|i: int| 0 <= i < after.len() && after[i] == p;
                    if i < before.len() {
                        assert(before[i] == p);
                    }
                }
                if before.contains(p) {
                    let i = choose|i: int| 0 <= i < before.len() && before[i] == p;
                    assert(after[i] == p);
                }
                if p == ppn.0 {
                    assert(after[before.len() as int] == p);
                }
            }
            assert(self.allocated() =~= old(self).allocated().remove(ppn.0));
        }
    }
}

} // verus!
