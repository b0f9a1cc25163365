//! The life of an address space: copied at a fork, emptied at an exit, and
//! resized at its program break.

use vstd::prelude::*;
use crate::config::VPN_COUNT;
use crate::mm::address::VirtPageNum;
use crate::mm::frame_allocator::FrameAllocator;
use crate::mm::memory_set::{zero_page, AreaView, MemorySet};

verus! {

/// Number of pages of the areas of `layout`.
pub open spec fn total_pages(layout: Seq<AreaView>) -> int
    decreases layout.len(),
{
    if layout.len() == 0 {
        0
    } else {
        total_pages(layout.drop_last()) + (layout.last().end - layout.last().start)
    }
}

/// The pages of the first areas are no more than the pages of all.
pub proof fn lemma_total_pages_prefix(layout: Seq<AreaView>, i: int)
    requires
        0 <= i <= layout.len(),
        forall|j: int| 0 <= j < layout.len() ==> (#[trigger] layout[j]).start <= layout[j].end,
    ensures
        0 <= total_pages(layout.subrange(0, i)) <= total_pages(layout),
    decreases layout.len() - i,
{
    if i == layout.len() {
        assert(layout.subrange(0, i) =~= layout);
        lemma_total_pages_nonnegative(layout);
    } else {
        lemma_total_pages_prefix(layout, i + 1);
        let longer = layout.subrange(0, i + 1);
        assert(longer.drop_last() =~= layout.subrange(0, i));
        assert(longer.last() == layout[i]);
        lemma_total_pages_nonnegative(layout.subrange(0, i));
    }
}

/// An area that goes takes its pages with it.
pub proof fn lemma_total_pages_remove(layout: Seq<AreaView>, index: int)
    requires
        0 <= index < layout.len(),
    ensures
        total_pages(layout.remove(index)) == total_pages(layout) - (layout[index].end
            - layout[index].start),
    decreases layout.len(),
{
    let shorter = layout.remove(index);
    if index == layout.len() - 1 {
        assert(shorter =~= layout.drop_last());
    } else {
        assert(shorter.drop_last() =~= layout.drop_last().remove(index));
        assert(shorter.last() == layout.last());
        lemma_total_pages_remove(layout.drop_last(), index);
    }
}

/// An area that changes its range changes the pages by as much.
pub proof fn lemma_total_pages_update(layout: Seq<AreaView>, index: int, area: AreaView)
    requires
        0 <= index < layout.len(),
    ensures
        total_pages(layout.update(index, area)) == total_pages(layout) - (layout[index].end
            - layout[index].start) + (area.end - area.start),
    decreases layout.len(),
{
    let changed = layout.update(index, area);
    if index == layout.len() - 1 {
        assert(changed.drop_last() =~= layout.drop_last());
    } else {
        assert(changed.drop_last() =~= layout.drop_last().update(index, area));
        assert(changed.last() == layout.last());
        lemma_total_pages_update(layout.drop_last(), index, area);
    }
}

/// A new area brings its pages.
pub proof fn lemma_total_pages_push(layout: Seq<AreaView>, area: AreaView)
    ensures
        total_pages(layout.push(area)) == total_pages(layout) + (area.end - area.start),
{
    assert(layout.push(area).drop_last() =~= layout);
}

/// Areas have no negative number of pages.
pub proof fn lemma_total_pages_nonnegative(layout: Seq<AreaView>)
    requires
        forall|j: int| 0 <= j < layout.len() ==> (#[trigger] layout[j]).start <= layout[j].end,
    ensures
        0 <= total_pages(layout),
    decreases layout.len(),
{
    if layout.len() > 0 {
        let shorter = layout.drop_last();
        assert forall|j: int| 0 <= j < shorter.len() implies (#[trigger] shorter[j]).start
            <= shorter[j].end by {
            assert(shorter[j] == layout[j]);
        }
        lemma_total_pages_nonnegative(shorter);
    }
}

/// The area at `index` is the first that starts at the page `start`.
pub open spec fn first_at(layout: Seq<AreaView>, start: usize, index: int) -> bool {
    &&& 0 <= index < layout.len()
    &&& layout[index].start == start
    &&& forall|j: int| 0 <= j < index ==> (#[trigger] layout[j]).start != start
}

/// No area starts at the page `start`.
pub open spec fn none_at(layout: Seq<AreaView>, start: usize) -> bool {
    forall|j: int| 0 <= j < layout.len() ==> (#[trigger] layout[j]).start != start
}

/// Index of the first area that starts at the page `start`, if there is one.
pub open spec fn area_at(layout: Seq<AreaView>, start: usize) -> Option<int> {
    if none_at(layout, start) {
        None
    } else {
        Some(choose|index: int| first_at(layout, start, index))
    }
}

/// The first area that starts at a page is the only first.
pub proof fn lemma_area_at(layout: Seq<AreaView>, start: usize, index: int)
    requires
        first_at(layout, start, index),
    ensures
        area_at(layout, start) == Some(index),
{
    assert(!none_at(layout, start));
    let other = choose|other: int| first_at(layout, start, other);
    assert(first_at(layout, start, other));
    if other < index {
        assert(layout[other].start != start);
    } else if index < other {
        assert(layout[index].start != start);
    }
}

impl MemorySet {
    /// Index of the first area that starts at the page `start`.
    pub fn find_area_at(&self, start: usize) -> (found: Option<usize>)
        ensures
            match found {
                Some(index) => area_at(self.layout(), start) == Some(index as int) && first_at(
                    self.layout(),
                    start,
                    index as int,
                ),
                None => area_at(self.layout(), start) is None,
            },
    {
        let n = self.area_count();
        let mut i: usize = 0;
        while i < n
            invariant
                n == self.layout().len(),
                i <= n,
                forall|j: int| 0 <= j < i ==> (#[trigger] self.layout()[j]).start != start,
            decreases n - i,
        {
            let (a_start, _, _) = self.area(i);
            if a_start == start {
                proof {
                    lemma_area_at(self.layout(), start, i as int);
                }
                return Some(i);
            }
            i += 1;
        }
        None
    }

    /// Tells whether the areas have `available` pages at most.
    pub fn fits(&self, available: usize) -> (yes: bool)
        requires
            self.wf(),
        ensures
            yes == (total_pages(self.layout()) <= available),
    {
        let n = self.area_count();
        let mut sum: usize = 0;
        let mut i: usize = 0;
        proof {
            self.lemma_mapping(0);
            assert(self.layout().subrange(0, 0) =~= Seq::<AreaView>::empty());
        }
        while i < n
            invariant
                self.wf(),
                n == self.layout().len(),
                i <= n,
                sum == total_pages(self.layout().subrange(0, i as int)),
                sum <= available,
                forall|j: int|
                    0 <= j < self.layout().len() ==> (#[trigger] self.layout()[j]).start
                        <= self.layout()[j].end,
            decreases n - i,
        {
            let (start, end, _) = self.area(i);
            proof {
                let longer = self.layout().subrange(0, i + 1);
                assert(longer.drop_last() =~= self.layout().subrange(0, i as int));
                assert(longer.last() == self.layout()[i as int]);
            }
            if end - start > available - sum {
                proof {
                    lemma_total_pages_prefix(self.layout(), i + 1);
                }
                return false;
            }
            sum = sum + (end - start);
            i += 1;
        }
        proof {
            assert(self.layout().subrange(0, n as int) =~= self.layout());
        }
        true
    }

    /// A copy of the address space `parent` in frames of its own: the same
    /// areas, holding the same bytes. `None`, and nothing handed out, where
    /// the allocator has not a frame for each page.
    pub fn from_existed_user(parent: &MemorySet, allocator: &mut FrameAllocator) -> (copy: Option<
        MemorySet,
    >)
        requires
            parent.wf(),
            old(allocator).wf(),
        ensures
            final(allocator).wf(),
            final(allocator).first() == old(allocator).first(),
            final(allocator).limit() == old(allocator).limit(),
            match copy {
                Some(child) => {
                    &&& total_pages(parent.layout()) <= old(allocator).available()
                    &&& child.wf()
                    &&& child.layout() == parent.layout()
                    &&& child.trampoline_frame() == parent.trampoline_frame()
                    &&& forall|vpn: usize| child.page_data(vpn) == parent.page_data(vpn)
                    &&& child.owned_under(final(allocator))
                    &&& final(allocator).allocated().difference(child.frames()) ==
                        old(allocator).allocated()
                    &&& final(allocator).available() == old(allocator).available() - total_pages(
                        parent.layout(),
                    )
                },
                None => total_pages(parent.layout()) > old(allocator).available() && *final(allocator)
                    == *old(allocator),
            },
    {
        if !parent.fits(allocator.free_frames()) {
            return None;
        }
        let mut child = MemorySet::new_bare(parent.trampoline());
        let n = parent.area_count();
        let mut i: usize = 0;
        proof {
            parent.lemma_mapping(0);
            assert(parent.layout().subrange(0, 0) =~= Seq::<AreaView>::empty());
            assert(allocator.allocated().difference(child.frames()) =~= old(allocator).allocated());
        }
        while i < n
            invariant
                parent.wf(),
                child.wf(),
                allocator.wf(),
                n == parent.layout().len(),
                i <= n,
                child.layout() == parent.layout().subrange(0, i as int),
                child.trampoline_frame() == parent.trampoline_frame(),
                forall|vpn: usize| child.covered(vpn) ==> child.page_data(vpn) == parent.page_data(vpn),
                child.owned_under(allocator),
                allocator.allocated().difference(child.frames()) == old(allocator).allocated(),
                allocator.available() == old(allocator).available() - total_pages(
                    parent.layout().subrange(0, i as int),
                ),
                total_pages(parent.layout()) <= old(allocator).available(),
                forall|j: int|
                    0 <= j < parent.layout().len() ==> (#[trigger] parent.layout()[j]).start
                        <= parent.layout()[j].end <= VPN_COUNT,
                allocator.first() == old(allocator).first(),
                allocator.limit() == old(allocator).limit(),
            decreases n - i,
        {
            let (start, end, perm) = parent.area(i);
            let ghost prefix = parent.layout().subrange(0, i as int);
            let ghost longer = parent.layout().subrange(0, i + 1);
            proof {
                assert(longer.drop_last() =~= prefix);
                assert(longer.last() == parent.layout()[i as int]);
                lemma_total_pages_prefix(parent.layout(), i + 1);
                assert forall|vpn: usize| start <= vpn < end implies !child.mapping().contains_key(
                    vpn,
                ) by {
                    child.lemma_mapping(vpn);
                    parent.lemma_mapping(vpn);
                    assert(parent.layout()[i as int].covers(vpn));
                    if child.covered(vpn) {
                        let j = choose|j: int|
                            0 <= j < child.layout().len() && #[trigger] child.layout()[j].covers(vpn);
                        assert(parent.layout()[j].covers(vpn));
                        parent.lemma_one_area(j, i as int, vpn);
                    }
                }
            }
            let ghost before = child;
            let done = child.insert_framed_area(VirtPageNum(start), VirtPageNum(end), perm, allocator);
            assert(done);
            proof {
                assert(child.layout() =~= longer);
                assert forall|vpn: usize| before.covered(vpn) implies !(start <= vpn < end) by {
                    before.lemma_mapping(vpn);
                }
            }
            let mut vpn = start;
            while vpn < end
                invariant
                    parent.wf(),
                    child.wf(),
                    i < n,
                    n == parent.layout().len(),
                    start <= vpn <= end,
                    start == parent.layout()[i as int].start,
                    end == parent.layout()[i as int].end,
                    child.layout() == longer,
                    longer == parent.layout().subrange(0, i + 1),
                    child.trampoline_frame() == parent.trampoline_frame(),
                    forall|v: usize|
                        child.covered(v) && !(vpn <= v < end) ==> child.page_data(v) == parent.page_data(
                            v,
                        ),
                    child.owned_under(allocator),
                    allocator.allocated().difference(child.frames()) == old(allocator).allocated(),
                decreases end - vpn,
            {
                proof {
                    assert(parent.layout()[i as int].covers(vpn));
                    assert(child.layout()[i as int].covers(vpn));
                }
                let data = parent.load_page(VirtPageNum(vpn));
                child.store_page(VirtPageNum(vpn), data);
                vpn += 1;
            }
            i += 1;
        }
        proof {
            assert(parent.layout().subrange(0, n as int) =~= parent.layout());
            assert forall|vpn: usize| child.page_data(vpn) == parent.page_data(vpn) by {
                if !child.covered(vpn) {
                    child.lemma_uncovered(vpn);
                    parent.lemma_uncovered(vpn);
                }
            }
        }
        Some(child)
    }

    /// Unmaps every area and gives every frame back. The trampoline stays
    /// mapped.
    pub fn recycle_data_pages(&mut self, allocator: &mut FrameAllocator)
        requires
            old(self).wf(),
            old(allocator).wf(),
            old(self).owned_under(old(allocator)),
        ensures
            final(self).wf(),
            final(allocator).wf(),
            final(self).layout() == Seq::<AreaView>::empty(),
            final(self).frames() == Set::<usize>::empty(),
            final(self).trampoline_frame() == old(self).trampoline_frame(),
            forall|vpn: usize| final(self).page_data(vpn) == Seq::<u8>::empty(),
            final(allocator).allocated() == old(allocator).allocated().difference(old(self).frames()),
            final(allocator).available() == old(allocator).available() + total_pages(
                old(self).layout(),
            ),
            final(allocator).first() == old(allocator).first(),
            final(allocator).limit() == old(allocator).limit(),
    {
        while self.area_count() > 0
            invariant
                self.wf(),
                allocator.wf(),
                self.trampoline_frame() == old(self).trampoline_frame(),
                self.owned_under(allocator),
                allocator.allocated().difference(self.frames()) == old(allocator).allocated().difference(
                    old(self).frames(),
                ),
                allocator.available() + total_pages(self.layout()) == old(allocator).available()
                    + total_pages(old(self).layout()),
                allocator.first() == old(allocator).first(),
                allocator.limit() == old(allocator).limit(),
            decreases self.layout().len(),
        {
            let last = self.area_count() - 1;
            proof {
                self.lemma_mapping(0);
                lemma_total_pages_remove(self.layout(), last as int);
            }
            self.remove_area(last, allocator);
        }
        proof {
            self.lemma_no_areas();
            assert(self.layout() =~= Seq::<AreaView>::empty());
            assert(allocator.allocated() =~= allocator.allocated().difference(self.frames()));
            assert forall|vpn: usize| self.page_data(vpn) == Seq::<u8>::empty() by {
                self.lemma_uncovered(vpn);
            }
        }
    }

    /// Moves the end of the area at `index` to the page `end`: new pages are
    /// mapped, filled with zero bytes, or the pages from `end` on unmapped.
    /// Nothing is done, and `false` returned, where `end` lies before the
    /// start of the area or outside the address space, a page to map is
    /// mapped already, or the allocator has too few frames.
    pub fn resize_area(&mut self, index: usize, end: VirtPageNum, allocator: &mut FrameAllocator) -> (done:
        bool)
        requires
            old(self).wf(),
            index < old(self).layout().len(),
            old(allocator).wf(),
            old(self).owned_under(old(allocator)),
        ensures
            done == (old(self).layout()[index as int].start <= end.0 <= VPN_COUNT && (end.0 >
                old(self).layout()[index as int].end ==> old(self).range_free(
                old(self).layout()[index as int].end,
                end.0,
            ) && old(allocator).available() >= end.0 - old(self).layout()[index as int].end)),
            !done ==> *final(self) == *old(self) && *final(allocator) == *old(allocator),
            done ==> final(self).layout() == old(self).layout().update(
                index as int,
                AreaView {
                    start: old(self).layout()[index as int].start,
                    end: end.0,
                    perm: old(self).layout()[index as int].perm,
                },
            ),
            final(self).wf(),
            final(allocator).wf(),
            final(self).trampoline_frame() == old(self).trampoline_frame(),
            forall|vpn: usize|
                final(self).page_data(vpn) == if done && old(self).layout()[index as int].end <= vpn
                    < end.0 {
                    zero_page()
                } else if done && end.0 <= vpn < old(self).layout()[index as int].end {
                    Seq::<u8>::empty()
                } else {
                    old(self).page_data(vpn)
                },
            final(self).owned_under(final(allocator)),
            final(allocator).allocated().difference(final(self).frames()) ==
                old(allocator).allocated().difference(old(self).frames()),
            final(allocator).available() + total_pages(final(self).layout()) ==
                old(allocator).available() + total_pages(old(self).layout()),
            final(allocator).first() == old(allocator).first(),
            final(allocator).limit() == old(allocator).limit(),
    {
        let (start, current, perm) = self.area(index);
        if !(start <= end.0 && end.0 <= VPN_COUNT) {
            return false;
        }
        if end.0 > current {
            if !self.is_range_free(current, end.0) {
                return false;
            }
            if allocator.free_frames() < end.0 - current {
                return false;
            }
        }
        let ghost area = old(self).layout()[index as int];
        proof {
            assert(self.layout() =~= old(self).layout().update(index as int, area));
            self.lemma_mapping(0);
        }
        let mut cur = current;
        while cur < end.0
            invariant
                self.wf(),
                allocator.wf(),
                index < old(self).layout().len(),
                area == old(self).layout()[index as int],
                area.start == start,
                area.perm == perm,
                area.end == current,
                current <= cur,
                start <= end.0 <= VPN_COUNT,
                start <= current,
                end.0 > current ==> cur <= end.0,
                end.0 <= current ==> cur == current,
                self.trampoline_frame() == old(self).trampoline_frame(),
                self.layout() == old(self).layout().update(
                    index as int,
                    AreaView { start, end: cur, perm },
                ),
                self.range_free(cur, end.0),
                forall|vpn: usize|
                    self.page_data(vpn) == if current <= vpn < cur {
                        zero_page()
                    } else {
                        old(self).page_data(vpn)
                    },
                self.owned_under(allocator),
                allocator.allocated().difference(self.frames()) == old(allocator).allocated().difference(
                    old(self).frames(),
                ),
                allocator.available() + cur == old(allocator).available() + current,
                end.0 > current ==> old(allocator).available() >= end.0 - current,
                allocator.first() == old(allocator).first(),
                allocator.limit() == old(allocator).limit(),
            decreases end.0 - cur,
        {
            let ghost before = *self;
            self.grow(index, allocator);
            proof {
                assert(self.layout() =~= old(self).layout().update(
                    index as int,
                    AreaView { start, end: (cur + 1) as usize, perm },
                ));
                assert forall|vpn: usize| cur + 1 <= vpn < end.0 implies !self.mapping().contains_key(
                    vpn,
                ) by {
                    assert(self.mapping().dom().contains(vpn) == before.mapping().dom().insert(
                        cur,
                    ).contains(vpn));
                }
            }
            cur += 1;
        }
        while cur > end.0
            invariant
                self.wf(),
                allocator.wf(),
                index < old(self).layout().len(),
                area == old(self).layout()[index as int],
                area.start == start,
                area.perm == perm,
                area.end == current,
                start <= end.0 <= cur <= current || (cur == end.0 && end.0 > current),
                self.trampoline_frame() == old(self).trampoline_frame(),
                self.layout() == old(self).layout().update(
                    index as int,
                    AreaView { start, end: cur, perm },
                ),
                forall|vpn: usize|
                    self.page_data(vpn) == if end.0 > current && current <= vpn < end.0 {
                        zero_page()
                    } else if cur <= vpn < current {
                        Seq::<u8>::empty()
                    } else {
                        old(self).page_data(vpn)
                    },
                self.owned_under(allocator),
                allocator.allocated().difference(self.frames()) == old(allocator).allocated().difference(
                    old(self).frames(),
                ),
                allocator.available() + cur == old(allocator).available() + current,
                allocator.first() == old(allocator).first(),
                allocator.limit() == old(allocator).limit(),
            decreases cur - end.0,
        {
            self.shrink(index, allocator);
            proof {
                assert(self.layout() =~= old(self).layout().update(
                    index as int,
                    AreaView { start, end: (cur - 1) as usize, perm },
                ));
            }
            cur -= 1;
        }
        proof {
            lemma_total_pages_update(
                old(self).layout(),
                index as int,
                AreaView { start, end: end.0, perm },
            );
        }
        true
    }
}

} // verus!
