//! Mapping and unmapping areas at the request of a task.
//!
//! Both calls do all or nothing: a request that is refused leaves the
//! address space and the allocator as they were.

use vstd::prelude::*;
use crate::config::{PAGE_SIZE, VPN_COUNT};
use crate::mm::address::VirtPageNum;
use crate::mm::frame_allocator::FrameAllocator;
use crate::mm::lifecycle::{lemma_total_pages_remove, total_pages};
use crate::mm::memory_set::{zero_page, AreaView, MemorySet};
use crate::mm::page_table::MapPermission;

verus! {

/// The permission that the three low bits of `port` ask for: bit 0 to read,
/// bit 1 to write, bit 2 to execute. The pages are the user's.
pub open spec fn spec_port_permission(port: usize) -> MapPermission {
    MapPermission { r: port % 2 == 1, w: (port / 2) % 2 == 1, x: (port / 4) % 2 == 1, u: true }
}

/// The permission that the three low bits of `port` ask for.
#[verifier::when_used_as_spec(spec_port_permission)]
pub fn port_permission(port: usize) -> (perm: MapPermission)
    ensures
        perm == spec_port_permission(port),
{
    MapPermission { r: port % 2 == 1, w: (port / 2) % 2 == 1, x: (port / 4) % 2 == 1, u: true }
}

/// A range of whole pages, not empty, not at address zero, inside the
/// address space.
pub open spec fn spec_page_range(start: usize, len: usize) -> bool {
    &&& start % PAGE_SIZE == 0
    &&& len % PAGE_SIZE == 0
    &&& start != 0
    &&& len != 0
    &&& start / PAGE_SIZE + len / PAGE_SIZE <= VPN_COUNT
}

/// Tells whether `[start, start + len)` is a range of whole pages, not
/// empty, not at address zero, inside the address space.
#[verifier::when_used_as_spec(spec_page_range)]
pub fn page_range(start: usize, len: usize) -> (yes: bool)
    ensures
        yes == spec_page_range(start, len),
{
    start % PAGE_SIZE == 0 && len % PAGE_SIZE == 0 && start != 0 && len != 0 && len / PAGE_SIZE
        <= VPN_COUNT && start / PAGE_SIZE <= VPN_COUNT - len / PAGE_SIZE
}

/// First page of the range at `start`.
pub open spec fn first_page(start: usize) -> usize {
    start / PAGE_SIZE
}

/// The page behind the range `[start, start + len)`.
pub open spec fn end_page(start: usize, len: usize) -> usize {
    (start / PAGE_SIZE + len / PAGE_SIZE) as usize
}

/// The request asks for reading, writing or executing, and for nothing else.
pub open spec fn port_ok(port: usize) -> bool {
    1 <= port <= 7
}

/// The area has pages and lies within the pages `[start, end)`.
pub open spec fn inside(area: AreaView, start: usize, end: usize) -> bool {
    area.start < area.end && start <= area.start && area.end <= end
}

/// The areas of `layout` but those inside `[start, end)`, in their order.
pub open spec fn drop_inside(layout: Seq<AreaView>, start: usize, end: usize) -> Seq<AreaView>
    decreases layout.len(),
{
    if layout.len() == 0 {
        layout
    } else if inside(layout[0], start, end) {
        drop_inside(layout.drop_first(), start, end)
    } else {
        seq![layout[0]] + drop_inside(layout.drop_first(), start, end)
    }
}

/// The page `vpn` lies in an area of `layout` inside `[start, end)`, at an
/// index from `from` on.
pub open spec fn cleared(layout: Seq<AreaView>, from: int, start: usize, end: usize, vpn: usize) -> bool {
    exists|j: int|
        from <= j < layout.len() && inside(layout[j], start, end) && #[trigger] layout[j].covers(vpn)
}

/// The page `vpn` lies in an area of the user that lies inside `[start, end)`.
pub open spec fn served(layout: Seq<AreaView>, start: usize, end: usize, vpn: usize) -> bool {
    exists|i: int|
        0 <= i < layout.len() && (#[trigger] layout[i].covers(vpn)) && layout[i].perm.u && inside(
            layout[i],
            start,
            end,
        )
}

/// Where no area lies inside the range, none is dropped.
pub proof fn lemma_drop_none(layout: Seq<AreaView>, start: usize, end: usize)
    requires
        forall|i: int| 0 <= i < layout.len() ==> !inside(#[trigger] layout[i], start, end),
    ensures
        drop_inside(layout, start, end) == layout,
    decreases layout.len(),
{
    if layout.len() > 0 {
        let rest = layout.drop_first();
        assert forall|i: int| 0 <= i < rest.len() implies !inside(#[trigger] rest[i], start, end) by {
            assert(rest[i] == layout[i + 1]);
        }
        lemma_drop_none(rest, start, end);
        assert(seq![layout[0]] + rest =~= layout);
    }
}

/// Dropping goes through the areas one by one.
pub proof fn lemma_drop_push(layout: Seq<AreaView>, area: AreaView, start: usize, end: usize)
    ensures
        drop_inside(layout.push(area), start, end) == if inside(area, start, end) {
            drop_inside(layout, start, end)
        } else {
            drop_inside(layout, start, end).push(area)
        },
    decreases layout.len(),
{
    let pushed = layout.push(area);
    if layout.len() == 0 {
        assert(pushed.drop_first() =~= layout);
        assert(pushed[0] == area);
        assert(drop_inside(pushed.drop_first(), start, end) =~= layout);
        assert(seq![area] + layout =~= layout.push(area));
    } else {
        assert(pushed.drop_first() =~= layout.drop_first().push(area));
        lemma_drop_push(layout.drop_first(), area, start, end);
        assert(pushed[0] == layout[0]);
        let tail = drop_inside(layout.drop_first(), start, end);
        assert(seq![layout[0]] + tail.push(area) =~= (seq![layout[0]] + tail).push(area));
    }
}

/// An area that was mapped over free pages and is unmapped again leaves the
/// areas as they were.
pub proof fn lemma_round_trip(layout: Seq<AreaView>, area: AreaView)
    requires
        area.start < area.end,
        forall|i: int, vpn: usize|
            0 <= i < layout.len() && area.start <= vpn < area.end ==> !(#[trigger] layout[i].covers(
                vpn,
            )),
    ensures
        drop_inside(layout.push(area), area.start, area.end) == layout,
{
    assert forall|i: int| 0 <= i < layout.len() implies !inside(
        #[trigger] layout[i],
        area.start,
        area.end,
    ) by {
        if inside(layout[i], area.start, area.end) {
            assert(layout[i].covers(layout[i].start));
        }
    }
    lemma_drop_none(layout, area.start, area.end);
    lemma_drop_push(layout, area, area.start, area.end);
}

impl MemorySet {
    /// Every page of `[start, end)` lies in an area of the user that lies
    /// inside the range: the range is made of whole areas.
    pub open spec fn unmappable(&self, start: usize, end: usize) -> bool {
        forall|vpn: usize| start <= vpn < end ==> #[trigger] served(self.layout(), start, end, vpn)
    }

    /// Tells whether the pages `[start, end)` are made of whole areas of the
    /// user.
    pub fn can_unmap(&self, start: usize, end: usize) -> (yes: bool)
        requires
            self.wf(),
        ensures
            yes == self.unmappable(start, end),
    {
        let mut vpn = start;
        while vpn < end
            invariant
                self.wf(),
                start <= vpn,
                forall|v: usize|
                    start <= v < vpn && v < end ==> #[trigger] served(self.layout(), start, end, v),
            decreases end - vpn,
        {
            match self.find_area(VirtPageNum(vpn)) {
                None => {
                    proof {
                        if self.unmappable(start, end) {
                            assert(served(self.layout(), start, end, vpn));
                        }
                    }
                    return false;
                },
                Some(index) => {
                    let (a_start, a_end, perm) = self.area(index);
                    if !(perm.u && start <= a_start && a_end <= end) {
                        proof {
                            if self.unmappable(start, end) {
                                assert(served(self.layout(), start, end, vpn));
                                let i = choose|i: int|
                                    0 <= i < self.layout().len() && (#[trigger] self.layout()[i].covers(
                                        vpn,
                                    )) && self.layout()[i].perm.u && inside(self.layout()[i], start, end);
                                self.lemma_one_area(i, index as int, vpn);
                            }
                        }
                        return false;
                    }
                    proof {
                        assert forall|v: usize| start <= v < a_end && v < end implies #[trigger] served(
                            self.layout(),
                            start,
                            end,
                            v,
                        ) by {
                            if v >= vpn {
                                assert(self.layout()[index as int].covers(v));
                            }
                        }
                    }
                    vpn = a_end;
                },
            }
        }
        true
    }

    /// Maps `len` bytes of fresh, zeroed memory at `start` with the
    /// permission that `port` asks for, as a new area. Returns 0, or -1
    /// where the range is not one of whole pages, `port` asks for nothing or
    /// for more than reading, writing and executing, a page of the range is
    /// mapped already, or the allocator has too few frames.
    pub fn mmap(&mut self, start: usize, len: usize, port: usize, allocator: &mut FrameAllocator) -> (ret:
        isize)
        requires
            old(self).wf(),
            old(allocator).wf(),
            old(self).owned_under(old(allocator)),
        ensures
            ret == 0 || ret == -1,
            ret == 0 <==> spec_page_range(start, len) && port_ok(port) && old(self).range_free(
                first_page(start),
                end_page(start, len),
            ) && old(allocator).available() >= len / PAGE_SIZE,
            ret == -1 ==> *final(self) == *old(self) && *final(allocator) == *old(allocator),
            ret == 0 ==> final(self).layout() == old(self).layout().push(
                AreaView {
                    start: first_page(start),
                    end: end_page(start, len),
                    perm: spec_port_permission(port),
                },
            ),
            ret == 0 ==> final(allocator).available() == old(allocator).available() - len / PAGE_SIZE,
            final(allocator).available() + total_pages(final(self).layout()) ==
                old(allocator).available() + total_pages(old(self).layout()),
            final(self).wf(),
            final(allocator).wf(),
            final(self).trampoline_frame() == old(self).trampoline_frame(),
            forall|vpn: usize|
                final(self).mapping().contains_key(vpn) <==> old(self).mapping().contains_key(vpn) || (ret
                    == 0 && first_page(start) <= vpn < end_page(start, len)),
            forall|vpn: usize|
                old(self).mapping().contains_key(vpn) ==> final(self).mapping()[vpn] ==
                    old(self).mapping()[vpn],
            forall|vpn: usize|
                final(self).page_data(vpn) == if ret == 0 && first_page(start) <= vpn < end_page(
                    start,
                    len,
                ) {
                    zero_page()
                } else {
                    old(self).page_data(vpn)
                },
            final(self).owned_under(final(allocator)),
            final(allocator).allocated().difference(final(self).frames()) ==
                old(allocator).allocated().difference(old(self).frames()),
            old(allocator).allocated().subset_of(final(allocator).allocated()),
            final(allocator).first() == old(allocator).first(),
            final(allocator).limit() == old(allocator).limit(),
    {
        if !page_range(start, len) || port < 1 || port > 7 {
            return -1;
        }
        let first = start / PAGE_SIZE;
        let end = first + len / PAGE_SIZE;
        proof {
            crate::mm::lifecycle::lemma_total_pages_push(
                self.layout(),
                AreaView { start: first, end, perm: spec_port_permission(port) },
            );
        }
        if self.insert_framed_area(VirtPageNum(first), VirtPageNum(end), port_permission(port), allocator) {
            0
        } else {
            -1
        }
    }

    /// Unmaps the `len` bytes at `start` and gives their frames back.
    /// Returns 0, or -1 where the range is not one of whole pages or is not
    /// made of whole areas of the user.
    pub fn munmap(&mut self, start: usize, len: usize, allocator: &mut FrameAllocator) -> (ret: isize)
        requires
            old(self).wf(),
            old(allocator).wf(),
            old(self).owned_under(old(allocator)),
        ensures
            ret == 0 || ret == -1,
            ret == 0 <==> spec_page_range(start, len) && old(self).unmappable(
                first_page(start),
                end_page(start, len),
            ),
            ret == -1 ==> *final(self) == *old(self) && *final(allocator) == *old(allocator),
            ret == 0 ==> final(self).layout() == drop_inside(
                old(self).layout(),
                first_page(start),
                end_page(start, len),
            ),
            final(self).wf(),
            final(allocator).wf(),
            final(self).trampoline_frame() == old(self).trampoline_frame(),
            forall|vpn: usize|
                final(self).mapping().contains_key(vpn) <==> old(self).mapping().contains_key(vpn) && !(
                ret == 0 && first_page(start) <= vpn < end_page(start, len)),
            forall|vpn: usize|
                final(self).mapping().contains_key(vpn) ==> final(self).mapping()[vpn] ==
                    old(self).mapping()[vpn],
            forall|vpn: usize|
                final(self).page_data(vpn) == if ret == 0 && first_page(start) <= vpn < end_page(
                    start,
                    len,
                ) {
                    Seq::<u8>::empty()
                } else {
                    old(self).page_data(vpn)
                },
            final(self).owned_under(final(allocator)),
            final(allocator).allocated().difference(final(self).frames()) ==
                old(allocator).allocated().difference(old(self).frames()),
            final(allocator).allocated().subset_of(old(allocator).allocated()),
            forall|vpn: usize|
                ret == 0 && first_page(start) <= vpn < end_page(start, len)
                    ==> !final(allocator).allocated().contains(#[trigger] old(self).mapping()[vpn].ppn.0),
            final(allocator).available() + total_pages(final(self).layout()) ==
                old(allocator).available() + total_pages(old(self).layout()),
            final(allocator).available() >= old(allocator).available(),
            final(allocator).first() == old(allocator).first(),
            final(allocator).limit() == old(allocator).limit(),
    {
        if !page_range(start, len) {
            return -1;
        }
        let first = start / PAGE_SIZE;
        let end = first + len / PAGE_SIZE;
        if !self.can_unmap(first, end) {
            return -1;
        }
        let ghost before = old(self).layout();
        let n = self.area_count();
        let mut i = n;
        proof {
            assert(before.subrange(0, n as int) =~= before);
            assert(before.subrange(n as int, n as int) =~= Seq::<AreaView>::empty());
            assert(self.layout() =~= before.subrange(0, i as int) + drop_inside(
                before.subrange(i as int, n as int),
                first,
                end,
            ));
        }
        while i > 0
            invariant
                self.wf(),
                allocator.wf(),
                before == old(self).layout(),
                n == before.len(),
                i <= n,
                self.trampoline_frame() == old(self).trampoline_frame(),
                self.layout() == before.subrange(0, i as int) + drop_inside(
                    before.subrange(i as int, n as int),
                    first,
                    end,
                ),
                forall|vpn: usize|
                    self.mapping().contains_key(vpn) <==> old(self).mapping().contains_key(vpn) && !cleared(
                        before,
                        i as int,
                        first,
                        end,
                        vpn,
                    ),
                forall|vpn: usize|
                    self.mapping().contains_key(vpn) ==> self.mapping()[vpn] == old(self).mapping()[vpn],
                forall|vpn: usize|
                    self.page_data(vpn) == if cleared(before, i as int, first, end, vpn) {
                        Seq::<u8>::empty()
                    } else {
                        old(self).page_data(vpn)
                    },
                self.owned_under(allocator),
                allocator.allocated().difference(self.frames()) == old(allocator).allocated().difference(
                    old(self).frames(),
                ),
                allocator.allocated().subset_of(old(allocator).allocated()),
                forall|vpn: usize|
                    cleared(before, i as int, first, end, vpn) ==> !allocator.allocated().contains(
                        #[trigger] old(self).mapping()[vpn].ppn.0,
                    ),
                allocator.available() >= old(allocator).available(),
                allocator.available() + total_pages(self.layout()) == old(allocator).available()
                    + total_pages(old(self).layout()),
                allocator.first() == old(allocator).first(),
                allocator.limit() == old(allocator).limit(),
            decreases i,
        {
            let k = i - 1;
            let ghost tail = before.subrange(i as int, n as int);
            let ghost kept = drop_inside(tail, first, end);
            proof {
                let longer = before.subrange(k as int, n as int);
                assert(longer[0] == before[k as int]);
                assert(longer.drop_first() =~= tail);
                assert(self.layout()[k as int] == before[k as int]);
                assert forall|vpn: usize|
                    cleared(before, k as int, first, end, vpn) <==> cleared(
                        before,
                        i as int,
                        first,
                        end,
                        vpn,
                    ) || (inside(before[k as int], first, end) && before[k as int].covers(vpn)) by {
                    if cleared(before, k as int, first, end, vpn) {
                        let j = choose|j: int|
                            k <= j < before.len() && inside(before[j], first, end) && #[trigger]
                                before[j].covers(
                                vpn,
                            );
                        if j != k {
                            assert(cleared(before, i as int, first, end, vpn));
                        }
                    }
                    if cleared(before, i as int, first, end, vpn) {
                        let j = choose|j: int|
                            i <= j < before.len() && inside(before[j], first, end) && #[trigger]
                                before[j].covers(
                                vpn,
                            );
                        assert(k <= j);
                    }
                }
            }
            let (a_start, a_end, _) = self.area(k);
            if a_start < a_end && first <= a_start && a_end <= end {
                proof {
                    assert forall|vpn: usize| before[k as int].covers(vpn) implies
                        self.mapping().contains_key(
                        vpn,
                    ) by {
                        assert(self.layout()[k as int].covers(vpn));
                        self.lemma_mapping(vpn);
                    }
                    lemma_total_pages_remove(self.layout(), k as int);
                }
                self.remove_area(k, allocator);
                proof {
                    assert(self.layout() =~= before.subrange(0, k as int) + kept);
                }
            } else {
                proof {
                    assert(self.layout() =~= before.subrange(0, k as int) + (seq![before[k as int]]
                        + kept));
                }
            }
            i = k;
        }
        proof {
            assert(before.subrange(0, n as int) =~= before);
            assert(self.layout() =~= drop_inside(before, first, end));
            assert forall|vpn: usize| cleared(before, 0, first, end, vpn) <==> first <= vpn < end by {
                if first <= vpn < end {
                    assert(served(before, first, end, vpn));
                    let j = choose|j: int|
                        0 <= j < before.len() && (#[trigger] before[j].covers(vpn)) && before[j].perm.u
                            && inside(before[j], first, end);
                    assert(cleared(before, 0, first, end, vpn));
                }
            }
        }
        0
    }
}

} // verus!
