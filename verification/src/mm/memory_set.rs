//! Address spaces: a page table and the areas that are mapped in it.
//!
//! An area is a run of pages with one permission. It owns one frame for
//! each of its pages, and the page table maps each page to its frame. The
//! areas of an address space share no page. The trampoline page belongs to
//! no area: every address space maps it to the same frame.

use vstd::prelude::*;
use crate::config::{PAGE_SIZE, PPN_LIMIT, VPN_COUNT};
use crate::mm::address::{trampoline_vpn, lemma_high_pages, PhysPageNum, VirtAddr, VirtPageNum};
use crate::mm::frame_allocator::FrameAllocator;
use crate::mm::page_table::{MapPermission, PageTable, PageTableEntry};

verus! {

/// A page of zero bytes.
pub open spec fn zero_page() -> Seq<u8> {
    Seq::new(PAGE_SIZE as nat, |i: int| 0u8)
}

/// The permission of the trampoline page: kernel code.
pub open spec fn trampoline_perm() -> MapPermission {
    MapPermission { r: true, w: false, x: true, u: false }
}

/// A frame and what it holds.
pub struct FrameTracker {
    ppn: PhysPageNum,
    data: Vec<u8>,
}

impl FrameTracker {
    spec fn wf(&self) -> bool {
        self.ppn.0 < PPN_LIMIT && self.data@.len() == PAGE_SIZE
    }

    /// The frame `ppn`, filled with zero bytes.
    fn new(ppn: PhysPageNum) -> (frame: Self)
        requires
            ppn.0 < PPN_LIMIT,
        ensures
            frame.wf(),
            frame.ppn == ppn,
            frame.data@ == zero_page(),
    {
        let mut data: Vec<u8> = Vec::new();
        let mut i: usize = 0;
        while i < PAGE_SIZE
            invariant
                i <= PAGE_SIZE,
                data@.len() == i,
                forall|j: int| 0 <= j < i ==> data@[j] == 0u8,
            decreases PAGE_SIZE - i,
        {
            data.push(0u8);
            i += 1;
        }
        assert(data@ =~= zero_page());
        Self { ppn, data }
    }
}

/// Range and permission of an area.
pub struct AreaView {
    /// First page of the area.
    pub start: usize,
    /// The page behind the last page of the area.
    pub end: usize,
    /// What may be done with the pages of the area.
    pub perm: MapPermission,
}

impl AreaView {
    /// The page `vpn` belongs to the area.
    pub open spec fn covers(self, vpn: usize) -> bool {
        self.start <= vpn < self.end
    }
}

/// An area of an address space with its frames.
pub struct MapArea {
    start: usize,
    end: usize,
    perm: MapPermission,
    frames: Vec<FrameTracker>,
}

impl View for MapArea {
    type V = AreaView;

    closed spec fn view(&self) -> AreaView {
        AreaView { start: self.start, end: self.end, perm: self.perm }
    }
}

impl MapArea {
    spec fn wf(&self) -> bool {
        &&& self.start <= self.end <= VPN_COUNT
        &&& self.frames@.len() == self.end - self.start
        &&& forall|j: int| 0 <= j < self.frames@.len() ==> (#[trigger] self.frames@[j]).wf()
    }

    spec fn covers(&self, vpn: usize) -> bool {
        self.start <= vpn < self.end
    }
}

spec fn covered_by(areas: Seq<MapArea>, vpn: usize) -> bool {
    exists|i: int| 0 <= i < areas.len() && #[trigger] areas[i].covers(vpn)
}

spec fn slot_of(areas: Seq<MapArea>, vpn: usize) -> int {
    choose|i: int| 0 <= i < areas.len() && #[trigger] areas[i].covers(vpn)
}

spec fn frame_in(areas: Seq<MapArea>, vpn: usize) -> FrameTracker {
    let area = areas[slot_of(areas, vpn)];
    area.frames@[vpn - area.start]
}

spec fn entry_in(areas: Seq<MapArea>, vpn: usize) -> PageTableEntry {
    PageTableEntry { ppn: frame_in(areas, vpn).ppn, perm: areas[slot_of(areas, vpn)].perm }
}

spec fn disjoint(areas: Seq<MapArea>) -> bool {
    forall|i: int, j: int, vpn: usize|
        0 <= i < areas.len() && 0 <= j < areas.len() && i != j && #[trigger] areas[i].covers(vpn)
            ==> !#[trigger] areas[j].covers(vpn)
}

spec fn injective(areas: Seq<MapArea>) -> bool {
    forall|v1: usize, v2: usize|
        covered_by(areas, v1) && covered_by(areas, v2) && v1 != v2 ==> (#[trigger] frame_in(
            areas,
            v1,
        )).ppn != (#[trigger] frame_in(areas, v2)).ppn
}

spec fn frames_of(areas: Seq<MapArea>) -> Set<usize> {
    Set::new(
        |ppn: usize|
            exists|vpn: usize| covered_by(areas, vpn) && (#[trigger] frame_in(areas, vpn)).ppn.0 == ppn,
    )
}

/// In disjoint areas a page lies in one area at most.
proof fn lemma_slot(areas: Seq<MapArea>, i: int, vpn: usize)
    requires
        disjoint(areas),
        0 <= i < areas.len(),
        areas[i].covers(vpn),
    ensures
        covered_by(areas, vpn),
        slot_of(areas, vpn) == i,
{
}


spec fn all_wf(areas: Seq<MapArea>) -> bool {
    forall|i: int| 0 <= i < areas.len() ==> (#[trigger] areas[i]).wf()
}

/// What holds of the areas after one of them got one more page at its end.
proof fn lemma_grown(before: Seq<MapArea>, after: Seq<MapArea>, idx: int, frame: FrameTracker)
    requires
        all_wf(before),
        disjoint(before),
        injective(before),
        0 <= idx < before.len(),
        after.len() == before.len(),
        forall|i: int| 0 <= i < before.len() && i != idx ==> after[i] == before[i],
        after[idx].start == before[idx].start,
        after[idx].end == before[idx].end + 1,
        after[idx].perm == before[idx].perm,
        after[idx].frames@ == before[idx].frames@.push(frame),
        frame.wf(),
        before[idx].end < VPN_COUNT,
        !covered_by(before, before[idx].end),
        !frames_of(before).contains(frame.ppn.0),
    ensures
        all_wf(after),
        disjoint(after),
        injective(after),
        forall|v: usize| covered_by(after, v) == (covered_by(before, v) || v == before[idx].end),
        forall|v: usize|
            covered_by(before, v) ==> frame_in(after, v) == frame_in(before, v) && entry_in(after, v)
                == entry_in(before, v),
        frame_in(after, before[idx].end) == frame,
        entry_in(after, before[idx].end) == (PageTableEntry { ppn: frame.ppn, perm: before[idx].perm }),
        frames_of(after) == frames_of(before).insert(frame.ppn.0),
{
    let grown = before[idx].end;
    assert forall|i: int, v: usize| 0 <= i < after.len() implies (#[trigger] after[i].covers(v)) == (
    before[i].covers(v) || (i == idx && v == grown)) by {}
    assert forall|v: usize| covered_by(after, v) == (covered_by(before, v) || v == grown) by {
        if covered_by(after, v) {
            let i = choose|i: int| 0 <= i < after.len() && #[trigger] after[i].covers(v);
            if v != grown {
                assert(before[i].covers(v));
            }
        }
        if covered_by(before, v) {
            let i = choose|i: int| 0 <= i < before.len() && #[trigger] before[i].covers(v);
            assert(after[i].covers(v));
        }
        if v == grown {
            assert(after[idx].covers(v));
        }
    }
    assert(disjoint(after)) by {
        assert forall|i: int, j: int, v: usize|
            0 <= i < after.len() && 0 <= j < after.len() && i != j && #[trigger] after[i].covers(v)
                implies !#[trigger] after[j].covers(v) by {
            if after[j].covers(v) {
                if v == grown {
                    if i != idx {
                        assert(before[i].covers(v));
                    } else {
                        assert(before[j].covers(v));
                    }
                } else {
                    assert(before[i].covers(v));
                    assert(before[j].covers(v));
                }
            }
        }
    }
    assert(all_wf(after)) by {
        assert forall|i: int| 0 <= i < after.len() implies (#[trigger] after[i]).wf() by {
            assert(before[i].wf());
            if i == idx {
                assert forall|j: int| 0 <= j < after[i].frames@.len() implies (#[trigger]
                    after[i].frames@[j]).wf() by {
                    if j < before[i].frames@.len() {
                        assert(before[i].frames@[j].wf());
                    }
                }
            }
        }
    }
    assert forall|v: usize| covered_by(before, v) implies frame_in(after, v) == frame_in(before, v)
        && entry_in(after, v) == entry_in(before, v) by {
        let i = slot_of(before, v);
        assert(before[i].covers(v));
        assert(after[i].covers(v));
        lemma_slot(after, i, v);
        assert(before[i].wf());
    }
    assert(after[idx].covers(grown));
    lemma_slot(after, idx, grown);
    assert(before[idx].wf());
    assert(frame_in(after, grown) == frame);
    assert(frames_of(after) =~= frames_of(before).insert(frame.ppn.0)) by {
        assert forall|p: usize| frames_of(after).contains(p) == (frames_of(before).contains(p) || p
            == frame.ppn.0) by {
            if frames_of(after).contains(p) {
                let v = choose|v: usize| covered_by(after, v) && (#[trigger] frame_in(after, v)).ppn.0 == p;
                if v != grown {
                    assert(frame_in(before, v).ppn.0 == p);
                }
            }
            if frames_of(before).contains(p) {
                let v = choose|v: usize|
                    covered_by(before, v) && (#[trigger] frame_in(before, v)).ppn.0 == p;
                assert(frame_in(after, v).ppn.0 == p);
            }
            if p == frame.ppn.0 {
                assert(frame_in(after, grown).ppn.0 == p);
            }
        }
    }
    assert(injective(after)) by {
        assert forall|v1: usize, v2: usize|
            covered_by(after, v1) && covered_by(after, v2) && v1 != v2 implies (#[trigger] frame_in(
                after,
                v1,
            )).ppn != (#[trigger] frame_in(after, v2)).ppn by {
            if v1 != grown && v2 != grown {
                assert(frame_in(before, v1).ppn != frame_in(before, v2).ppn);
            } else if v1 == grown {
                assert(frames_of(before).contains(frame_in(before, v2).ppn.0));
            } else {
                assert(frames_of(before).contains(frame_in(before, v1).ppn.0));
            }
        }
    }
}

/// What holds of the areas after one of them lost its last page.
proof fn lemma_shrunk(before: Seq<MapArea>, after: Seq<MapArea>, idx: int)
    requires
        all_wf(before),
        disjoint(before),
        injective(before),
        0 <= idx < before.len(),
        after.len() == before.len(),
        forall|i: int| 0 <= i < before.len() && i != idx ==> after[i] == before[i],
        before[idx].start < before[idx].end,
        after[idx].start == before[idx].start,
        after[idx].end == before[idx].end - 1,
        after[idx].perm == before[idx].perm,
        after[idx].frames@ == before[idx].frames@.drop_last(),
    ensures
        all_wf(after),
        disjoint(after),
        injective(after),
        covered_by(before, (before[idx].end - 1) as usize),
        frame_in(before, (before[idx].end - 1) as usize) == before[idx].frames@.last(),
        forall|v: usize| covered_by(after, v) == (covered_by(before, v) && v != before[idx].end - 1),
        forall|v: usize|
            covered_by(after, v) ==> frame_in(after, v) == frame_in(before, v) && entry_in(after, v)
                == entry_in(before, v),
        frames_of(after) == frames_of(before).remove(before[idx].frames@.last().ppn.0),
{
    let gone = (before[idx].end - 1) as usize;
    assert(before[idx].wf());
    assert(before[idx].covers(gone));
    lemma_slot(before, idx, gone);
    assert forall|i: int, v: usize| 0 <= i < after.len() implies (#[trigger] after[i].covers(v)) == (
    before[i].covers(v) && !(i == idx && v == gone)) by {}
    assert forall|v: usize| covered_by(after, v) == (covered_by(before, v) && v != gone) by {
        if covered_by(after, v) {
            let i = choose|i: int| 0 <= i < after.len() && #[trigger] after[i].covers(v);
            assert(before[i].covers(v));
            if v == gone {
                assert(i != idx);
                assert(before[idx].covers(v));
            }
        }
        if covered_by(before, v) && v != gone {
            let i = choose|i: int| 0 <= i < before.len() && #[trigger] before[i].covers(v);
            assert(after[i].covers(v));
        }
    }
    assert(disjoint(after)) by {
        assert forall|i: int, j: int, v: usize|
            0 <= i < after.len() && 0 <= j < after.len() && i != j && #[trigger] after[i].covers(v)
                implies !#[trigger] after[j].covers(v) by {
            assert(before[i].covers(v));
            if after[j].covers(v) {
                assert(before[j].covers(v));
            }
        }
    }
    assert(all_wf(after)) by {
        assert forall|i: int| 0 <= i < after.len() implies (#[trigger] after[i]).wf() by {
            assert(before[i].wf());
            if i == idx {
                assert forall|j: int| 0 <= j < after[i].frames@.len() implies (#[trigger]
                    after[i].frames@[j]).wf() by {
                    assert(before[i].frames@[j].wf());
                }
            }
        }
    }
    assert forall|v: usize| covered_by(after, v) implies frame_in(after, v) == frame_in(before, v)
        && entry_in(after, v) == entry_in(before, v) by {
        let i = slot_of(after, v);
        assert(after[i].covers(v));
        assert(before[i].covers(v));
        lemma_slot(before, i, v);
    }
    assert(frames_of(after) =~= frames_of(before).remove(before[idx].frames@.last().ppn.0)) by {
        let last = before[idx].frames@.last().ppn.0;
        assert forall|p: usize| frames_of(after).contains(p) == (frames_of(before).contains(p) && p
            != last) by {
            if frames_of(after).contains(p) {
                let v = choose|v: usize| covered_by(after, v) && (#[trigger] frame_in(after, v)).ppn.0 == p;
                assert(frame_in(before, v).ppn.0 == p);
                assert(frame_in(before, v).ppn != frame_in(before, gone).ppn);
            }
            if frames_of(before).contains(p) && p != last {
                let v = choose|v: usize|
                    covered_by(before, v) && (#[trigger] frame_in(before, v)).ppn.0 == p;
                assert(v != gone);
                assert(frame_in(after, v).ppn.0 == p);
            }
        }
    }
    assert(injective(after)) by {
        assert forall|v1: usize, v2: usize|
            covered_by(after, v1) && covered_by(after, v2) && v1 != v2 implies (#[trigger] frame_in(
                after,
                v1,
            )).ppn != (#[trigger] frame_in(after, v2)).ppn by {
            assert(frame_in(before, v1).ppn != frame_in(before, v2).ppn);
        }
    }
}

/// What holds of the areas after empty areas came or went: every area with
/// pages is found again, at `fwd` of its index, and every area found now
/// is empty or was there before, at `bwd` of its index.
proof fn lemma_rearranged(
    before: Seq<MapArea>,
    after: Seq<MapArea>,
    fwd: spec_fn(int) -> int,
    bwd: spec_fn(int) -> int,
)
    requires
        all_wf(before),
        disjoint(before),
        injective(before),
        forall|i: int|
            0 <= i < before.len() && (#[trigger] before[i]).start < before[i].end ==> 0 <= fwd(i)
                < after.len() && after[fwd(i)] == before[i],
        forall|j: int|
            0 <= j < after.len() ==> ((#[trigger] after[j]).start == after[j].end && after[j].wf()) || (0
                <= bwd(j) < before.len() && before[bwd(j)] == after[j] && fwd(bwd(j)) == j),
    ensures
        all_wf(after),
        disjoint(after),
        injective(after),
        forall|v: usize| covered_by(after, v) == covered_by(before, v),
        forall|v: usize|
            covered_by(before, v) ==> frame_in(after, v) == frame_in(before, v) && entry_in(after, v)
                == entry_in(before, v),
        frames_of(after) == frames_of(before),
{
    assert forall|v: usize| covered_by(after, v) == covered_by(before, v) by {
        if covered_by(after, v) {
            let j = choose|j: int| 0 <= j < after.len() && #[trigger] after[j].covers(v);
            assert(before[bwd(j)].covers(v));
        }
        if covered_by(before, v) {
            let i = choose|i: int| 0 <= i < before.len() && #[trigger] before[i].covers(v);
            assert(after[fwd(i)].covers(v));
        }
    }
    assert(disjoint(after)) by {
        assert forall|i: int, j: int, v: usize|
            0 <= i < after.len() && 0 <= j < after.len() && i != j && #[trigger] after[i].covers(v)
                implies !#[trigger] after[j].covers(v) by {
            if after[j].covers(v) {
                let bi = bwd(i);
                let bj = bwd(j);
                assert(before[bi].covers(v));
                assert(before[bj].covers(v));
                assert(bi != bj);
            }
        }
    }
    assert(all_wf(after)) by {
        assert forall|j: int| 0 <= j < after.len() implies (#[trigger] after[j]).wf() by {
            if !(after[j].start == after[j].end && after[j].wf()) {
                assert(before[bwd(j)].wf());
            }
        }
    }
    assert forall|v: usize| covered_by(before, v) implies frame_in(after, v) == frame_in(before, v)
        && entry_in(after, v) == entry_in(before, v) by {
        let i = slot_of(before, v);
        assert(before[i].covers(v));
        assert(after[fwd(i)].covers(v));
        lemma_slot(after, fwd(i), v);
    }
    assert(frames_of(after) =~= frames_of(before)) by {
        assert forall|p: usize| frames_of(after).contains(p) == frames_of(before).contains(p) by {
            if frames_of(after).contains(p) {
                let v = choose|v: usize| covered_by(after, v) && (#[trigger] frame_in(after, v)).ppn.0 == p;
                assert(frame_in(before, v).ppn.0 == p);
            }
            if frames_of(before).contains(p) {
                let v = choose|v: usize|
                    covered_by(before, v) && (#[trigger] frame_in(before, v)).ppn.0 == p;
                assert(frame_in(after, v).ppn.0 == p);
            }
        }
    }
    assert(injective(after)) by {
        assert forall|v1: usize, v2: usize|
            covered_by(after, v1) && covered_by(after, v2) && v1 != v2 implies (#[trigger] frame_in(
                after,
                v1,
            )).ppn != (#[trigger] frame_in(after, v2)).ppn by {
            assert(frame_in(before, v1).ppn != frame_in(before, v2).ppn);
        }
    }
}

/// An address space.
pub struct MemorySet {
    page_table: PageTable,
    areas: Vec<MapArea>,
    trampoline: PhysPageNum,
}

impl MemorySet {
    /// The areas share no page and hold one frame for each of their pages,
    /// no frame twice; the page table maps the pages of the areas to their
    /// frames, the trampoline page to the trampoline, and nothing else.
    pub closed spec fn wf(&self) -> bool {
        &&& self.page_table.wf()
        &&& self.trampoline.0 < PPN_LIMIT
        &&& forall|i: int| 0 <= i < self.areas@.len() ==> (#[trigger] self.areas@[i]).wf()
        &&& disjoint(self.areas@)
        &&& injective(self.areas@)
        &&& !covered_by(self.areas@, trampoline_vpn())
        &&& forall|vpn: usize|
            #![trigger self.page_table@.contains_key(vpn)]
            #![trigger covered_by(self.areas@, vpn)]
            self.page_table@.contains_key(vpn) <==> (covered_by(self.areas@, vpn) || vpn
                == trampoline_vpn())
        &&& forall|vpn: usize| #[trigger]
            covered_by(self.areas@, vpn) ==> self.page_table@[vpn] == entry_in(self.areas@, vpn)
        &&& self.page_table@[trampoline_vpn()] == PageTableEntry {
            ppn: self.trampoline,
            perm: trampoline_perm(),
        }
    }

    /// The areas in the order in which they were mapped.
    pub closed spec fn layout(&self) -> Seq<AreaView> {
        Seq::new(self.areas@.len(), |i: int| self.areas@[i]@)
    }

    /// The page `vpn` belongs to an area.
    pub open spec fn covered(&self, vpn: usize) -> bool {
        exists|i: int| 0 <= i < self.layout().len() && #[trigger] self.layout()[i].covers(vpn)
    }

    /// What the page table maps.
    pub closed spec fn mapping(&self) -> Map<usize, PageTableEntry> {
        self.page_table@
    }

    /// What the page `vpn` holds: a page of bytes for a page of an area,
    /// nothing for any other page.
    pub closed spec fn page_data(&self, vpn: usize) -> Seq<u8> {
        if covered_by(self.areas@, vpn) {
            frame_in(self.areas@, vpn).data@
        } else {
            Seq::empty()
        }
    }

    /// The frames that the areas own.
    pub closed spec fn frames(&self) -> Set<usize> {
        frames_of(self.areas@)
    }

    /// The frame of the trampoline.
    pub closed spec fn trampoline_frame(&self) -> PhysPageNum {
        self.trampoline
    }

    proof fn lemma_covered(&self, vpn: usize)
        ensures
            self.covered(vpn) == covered_by(self.areas@, vpn),
    {
        if self.covered(vpn) {
            let i = choose|i: int| 0 <= i < self.layout().len() && #[trigger] self.layout()[i].covers(vpn);
            assert(self.areas@[i].covers(vpn));
        }
        if covered_by(self.areas@, vpn) {
            let i = choose|i: int| 0 <= i < self.areas@.len() && #[trigger] self.areas@[i].covers(vpn);
            assert(self.layout()[i].covers(vpn));
        }
    }

    /// What the page table of a well-formed address space maps: the pages of
    /// the areas, each with the permission of its area and a page of data
    /// behind it, and the trampoline.
    pub proof fn lemma_mapping(&self, vpn: usize)
        requires
            self.wf(),
        ensures
            self.mapping().contains_key(vpn) <==> (self.covered(vpn) || vpn == trampoline_vpn()),
            !self.covered(trampoline_vpn()),
            self.mapping().contains_key(vpn) ==> vpn < VPN_COUNT,
            self.mapping()[trampoline_vpn()] == (PageTableEntry {
                ppn: self.trampoline_frame(),
                perm: trampoline_perm(),
            }),
            self.covered(vpn) ==> self.page_data(vpn).len() == PAGE_SIZE,
            self.covered(vpn) ==> self.frames().contains(self.mapping()[vpn].ppn.0),
            self.mapping().contains_key(vpn) ==> self.mapping()[vpn].ppn.0 < PPN_LIMIT,
            forall|i: int|
                0 <= i < self.layout().len() && #[trigger] self.layout()[i].covers(vpn)
                    ==> self.mapping()[vpn].perm == self.layout()[i].perm,
            forall|i: int|
                0 <= i < self.layout().len() ==> (#[trigger] self.layout()[i]).start
                    <= self.layout()[i].end <= VPN_COUNT,
    {
        self.lemma_covered(vpn);
        self.lemma_covered(trampoline_vpn());
        if self.mapping().contains_key(vpn) {
            self.page_table.lemma_keys_in_range(vpn);
        }
        if self.covered(vpn) {
            let k = slot_of(self.areas@, vpn);
            assert(self.areas@[k].wf());
            assert(frame_in(self.areas@, vpn).wf());
        }
        assert forall|i: int|
            0 <= i < self.layout().len() && #[trigger] self.layout()[i].covers(vpn)
                implies self.mapping()[vpn].perm == self.layout()[i].perm by {
            assert(self.areas@[i].covers(vpn));
            lemma_slot(self.areas@, i, vpn);
        }
        assert forall|i: int| 0 <= i < self.layout().len() implies (#[trigger] self.layout()[i]).start
            <= self.layout()[i].end <= VPN_COUNT by {
            assert(self.areas@[i].wf());
        }
    }

    /// A page outside the areas holds nothing.
    pub proof fn lemma_uncovered(&self, vpn: usize)
        requires
            !self.covered(vpn),
        ensures
            self.page_data(vpn) == Seq::<u8>::empty(),
    {
        self.lemma_covered(vpn);
    }

    /// Without areas no frame is owned.
    pub proof fn lemma_no_areas(&self)
        requires
            self.layout().len() == 0,
        ensures
            self.frames() == Set::<usize>::empty(),
    {
        assert(self.areas@.len() == 0);
        assert(self.frames() =~= Set::<usize>::empty());
    }

    /// The frame of the trampoline.
    pub fn trampoline(&self) -> (ppn: PhysPageNum)
        requires
            self.wf(),
        ensures
            ppn == self.trampoline_frame(),
            ppn.0 < PPN_LIMIT,
    {
        self.trampoline
    }

    /// A page lies in one area at most.
    pub proof fn lemma_one_area(&self, i: int, j: int, vpn: usize)
        requires
            self.wf(),
            0 <= i < self.layout().len(),
            0 <= j < self.layout().len(),
            self.layout()[i].covers(vpn),
            self.layout()[j].covers(vpn),
        ensures
            i == j,
    {
        assert(self.areas@[i].covers(vpn));
        assert(self.areas@[j].covers(vpn));
    }

    /// An address space without areas, which maps the trampoline page to the
    /// frame `trampoline`.
    pub fn new_bare(trampoline: PhysPageNum) -> (space: Self)
        requires
            trampoline.0 < PPN_LIMIT,
        ensures
            space.wf(),
            space.layout() == Seq::<AreaView>::empty(),
            space.frames() == Set::<usize>::empty(),
            space.trampoline_frame() == trampoline,
    {
        proof {
            lemma_high_pages();
        }
        let mut page_table = PageTable::new();
        let vpn = VirtAddr(crate::config::TRAMPOLINE).floor();
        page_table.map(
            vpn,
            PageTableEntry { ppn: trampoline, perm: MapPermission { r: true, w: false, x: true, u:
                false } },
        );
        let space = Self { page_table, areas: Vec::new(), trampoline };
        assert(space.layout() =~= Seq::<AreaView>::empty());
        assert(space.frames() =~= Set::<usize>::empty());
        space
    }


    /// The frames of the areas are handed out by `allocator`.
    pub open spec fn owned_under(&self, allocator: &FrameAllocator) -> bool {
        self.frames().subset_of(allocator.allocated())
    }

    /// No page of `[start, end)` is mapped.
    pub open spec fn range_free(&self, start: usize, end: usize) -> bool {
        forall|vpn: usize| start <= vpn < end ==> !self.mapping().contains_key(vpn)
    }

    /// Gives the area at `index` one more page at its end, filled with zero
    /// bytes.
    pub(crate) fn grow(&mut self, index: usize, allocator: &mut FrameAllocator)
        requires
            old(self).wf(),
            index < old(self).layout().len(),
            old(self).layout()[index as int].end < VPN_COUNT,
            !old(self).mapping().contains_key(old(self).layout()[index as int].end),
            old(allocator).wf(),
            old(allocator).available() > 0,
            old(self).owned_under(old(allocator)),
        ensures
            final(self).wf(),
            final(allocator).wf(),
            final(self).trampoline_frame() == old(self).trampoline_frame(),
            final(self).layout() == old(self).layout().update(
                index as int,
                AreaView {
                    start: old(self).layout()[index as int].start,
                    end: (old(self).layout()[index as int].end + 1) as usize,
                    perm: old(self).layout()[index as int].perm,
                },
            ),
            final(self).mapping().dom() == old(self).mapping().dom().insert(
                old(self).layout()[index as int].end,
            ),
            forall|vpn: usize|
                old(self).mapping().contains_key(vpn) ==> final(self).mapping()[vpn] ==
                    old(self).mapping()[vpn],
            final(self).mapping()[old(self).layout()[index as int].end].perm ==
                old(self).layout()[index as int].perm,
            forall|vpn: usize|
                final(self).page_data(vpn) == if vpn == old(self).layout()[index as int].end {
                    zero_page()
                } else {
                    old(self).page_data(vpn)
                },
            final(self).owned_under(final(allocator)),
            final(allocator).allocated().difference(final(self).frames()) ==
                old(allocator).allocated().difference(old(self).frames()),
            !old(allocator).allocated().contains(
                final(self).mapping()[old(self).layout()[index as int].end].ppn.0,
            ),
            final(allocator).allocated() == old(allocator).allocated().insert(
                final(self).mapping()[old(self).layout()[index as int].end].ppn.0,
            ),
            final(allocator).available() == old(allocator).available() - 1,
            final(allocator).first() == old(allocator).first(),
            final(allocator).limit() == old(allocator).limit(),
    {
        let vpn = self.areas[index].end;
        let perm = self.areas[index].perm;
        let ppn = allocator.frame_alloc().unwrap();
        let frame = FrameTracker::new(ppn);
        let ghost added = frame;
        self.page_table.map(VirtPageNum(vpn), PageTableEntry { ppn, perm });
        let area = &mut self.areas[index];
        area.frames.push(frame);
        area.end = vpn + 1;
        proof {
            let before = old(self).areas@;
            let after = self.areas@;
            assert(!covered_by(before, vpn));
            assert(!frames_of(before).contains(ppn.0));
            lemma_grown(before, after, index as int, added);
            assert(self.layout() =~= old(self).layout().update(
                index as int,
                AreaView { start: before[index as int].start, end: (vpn + 1) as usize, perm },
            ));
            lemma_high_pages();
            assert(self.mapping().dom() =~= old(self).mapping().dom().insert(vpn));
            assert(allocator.allocated().difference(self.frames()) =~=
                old(allocator).allocated().difference(
                old(self).frames(),
            ));
        }
    }

    /// Takes the last page from the area at `index` and gives its frame
    /// back.
    pub(crate) fn shrink(&mut self, index: usize, allocator: &mut FrameAllocator)
        requires
            old(self).wf(),
            index < old(self).layout().len(),
            old(self).layout()[index as int].start < old(self).layout()[index as int].end,
            old(allocator).wf(),
            old(self).owned_under(old(allocator)),
        ensures
            final(self).wf(),
            final(allocator).wf(),
            final(self).trampoline_frame() == old(self).trampoline_frame(),
            final(self).layout() == old(self).layout().update(
                index as int,
                AreaView {
                    start: old(self).layout()[index as int].start,
                    end: (old(self).layout()[index as int].end - 1) as usize,
                    perm: old(self).layout()[index as int].perm,
                },
            ),
            final(self).mapping() == old(self).mapping().remove(
                (old(self).layout()[index as int].end - 1) as usize,
            ),
            forall|vpn: usize|
                final(self).page_data(vpn) == if vpn == old(self).layout()[index as int].end - 1 {
                    Seq::<u8>::empty()
                } else {
                    old(self).page_data(vpn)
                },
            final(self).owned_under(final(allocator)),
            final(allocator).allocated().difference(final(self).frames()) ==
                old(allocator).allocated().difference(old(self).frames()),
            final(allocator).allocated() == old(allocator).allocated().remove(
                old(self).mapping()[(old(self).layout()[index as int].end - 1) as usize].ppn.0,
            ),
            final(allocator).available() == old(allocator).available() + 1,
            final(allocator).first() == old(allocator).first(),
            final(allocator).limit() == old(allocator).limit(),
    {
        let vpn = self.areas[index].end - 1;
        proof {
            let before = old(self).areas@;
            assert(before[index as int].wf());
            assert(before[index as int].covers(vpn));
            lemma_slot(before, index as int, vpn);
        }
        self.page_table.unmap(VirtPageNum(vpn));
        let area = &mut self.areas[index];
        let frame = area.frames.pop().unwrap();
        area.end = vpn;
        proof {
            let before = old(self).areas@;
            let after = self.areas@;
            assert(after[index as int].frames@ =~= before[index as int].frames@.drop_last());
            lemma_shrunk(before, after, index as int);
            assert(frames_of(before).contains(frame.ppn.0));
            assert(self.layout() =~= old(self).layout().update(
                index as int,
                AreaView {
                    start: before[index as int].start,
                    end: vpn,
                    perm: before[index as int].perm,
                },
            ));
            lemma_high_pages();
        }
        allocator.frame_dealloc(frame.ppn);
        proof {
            assert(allocator.allocated().difference(self.frames()) =~=
                old(allocator).allocated().difference(
                old(self).frames(),
            ));
        }
    }

    /// Appends an area without pages.
    fn push_empty(&mut self, start: usize, perm: MapPermission)
        requires
            old(self).wf(),
            start <= VPN_COUNT,
        ensures
            final(self).wf(),
            final(self).trampoline_frame() == old(self).trampoline_frame(),
            final(self).layout() == old(self).layout().push(AreaView { start, end: start, perm }),
            final(self).mapping() == old(self).mapping(),
            final(self).frames() == old(self).frames(),
            forall|vpn: usize| final(self).page_data(vpn) == old(self).page_data(vpn),
    {
        self.areas.push(MapArea { start, end: start, perm, frames: Vec::new() });
        proof {
            let before = old(self).areas@;
            let after = self.areas@;
            lemma_rearranged(before, after, |i: int| i, |j: int| j);
            assert(self.layout() =~= old(self).layout().push(AreaView { start, end: start, perm }));
        }
    }

    /// Takes out the area at `index`, which has no pages.
    fn remove_empty(&mut self, index: usize)
        requires
            old(self).wf(),
            index < old(self).layout().len(),
            old(self).layout()[index as int].start == old(self).layout()[index as int].end,
        ensures
            final(self).wf(),
            final(self).trampoline_frame() == old(self).trampoline_frame(),
            final(self).layout() == old(self).layout().remove(index as int),
            final(self).mapping() == old(self).mapping(),
            final(self).frames() == old(self).frames(),
            forall|vpn: usize| final(self).page_data(vpn) == old(self).page_data(vpn),
    {
        let _ = self.areas.remove(index);
        proof {
            let before = old(self).areas@;
            let after = self.areas@;
            let idx = index as int;
            lemma_rearranged(
                before,
                after,
                |i: int| if i < idx { i } else { i - 1 },
                |j: int| if j < idx { j } else { j + 1 },
            );
            assert(self.layout() =~= old(self).layout().remove(index as int));
        }
    }


    /// Tells whether no page of `[start, end)` is mapped.
    pub fn is_range_free(&self, start: usize, end: usize) -> (free: bool)
        requires
            self.wf(),
        ensures
            free == self.range_free(start, end),
    {
        proof {
            lemma_high_pages();
        }
        if start >= end {
            return true;
        }
        let tramp = VirtAddr(crate::config::TRAMPOLINE).floor().0;
        if start <= tramp && tramp < end {
            assert(self.mapping().contains_key(tramp));
            return false;
        }
        let n = self.areas.len();
        let mut i: usize = 0;
        while i < n
            invariant
                self.wf(),
                start < end,
                n == self.areas@.len(),
                i <= n,
                forall|j: int, vpn: usize|
                    0 <= j < i && start <= vpn < end ==> !(#[trigger] self.areas@[j].covers(vpn)),
            decreases n - i,
        {
            let area = &self.areas[i];
            if area.start < area.end && area.start < end && start < area.end {
                proof {
                    let vpn = if start <= area.start { area.start } else { start };
                    assert(self.areas@[i as int].covers(vpn));
                    assert(covered_by(self.areas@, vpn));
                    assert(self.mapping().contains_key(vpn));
                }
                return false;
            }
            i += 1;
        }
        proof {
            assert forall|vpn: usize| start <= vpn < end implies !self.mapping().contains_key(vpn) by {
                if covered_by(self.areas@, vpn) {
                    let j = choose|j: int| 0 <= j < self.areas@.len() && #[trigger]
                        self.areas@[j].covers(vpn);
                    assert(false);
                }
            }
        }
        true
    }

    /// Maps a new area over the pages `[start, end)`, filled with zero
    /// bytes. Nothing is done, and `false` returned, unless the range lies
    /// in the address space, none of its pages is mapped and the allocator
    /// has a frame for each.
    pub fn insert_framed_area(
        &mut self,
        start: VirtPageNum,
        end: VirtPageNum,
        perm: MapPermission,
        allocator: &mut FrameAllocator,
    ) -> (done: bool)
        requires
            old(self).wf(),
            old(allocator).wf(),
            old(self).owned_under(old(allocator)),
        ensures
            done == (start.0 <= end.0 <= VPN_COUNT && old(self).range_free(start.0, end.0) &&
                old(allocator).available() >= end.0 - start.0),
            !done ==> *final(self) == *old(self) && *final(allocator) == *old(allocator),
            done ==> final(self).layout() == old(self).layout().push(
                AreaView { start: start.0, end: end.0, perm },
            ),
            done ==> final(allocator).available() == old(allocator).available() - (end.0 - start.0),
            final(self).wf(),
            final(allocator).wf(),
            final(self).trampoline_frame() == old(self).trampoline_frame(),
            forall|vpn: usize|
                final(self).mapping().contains_key(vpn) <==> old(self).mapping().contains_key(vpn) || (
                done && start.0 <= vpn < end.0),
            forall|vpn: usize|
                old(self).mapping().contains_key(vpn) ==> final(self).mapping()[vpn] ==
                    old(self).mapping()[vpn],
            forall|vpn: usize|
                final(self).page_data(vpn) == if done && start.0 <= vpn < end.0 {
                    zero_page()
                } else {
                    old(self).page_data(vpn)
                },
            final(self).owned_under(final(allocator)),
            final(allocator).allocated().difference(final(self).frames()) ==
                old(allocator).allocated().difference(old(self).frames()),
            old(allocator).allocated().subset_of(final(allocator).allocated()),
            forall|vpn: usize|
                done && start.0 <= vpn < end.0 ==> !old(allocator).allocated().contains(
                    #[trigger] final(self).mapping()[vpn].ppn.0,
                ),
            final(allocator).first() == old(allocator).first(),
            final(allocator).limit() == old(allocator).limit(),
    {
        if !(start.0 <= end.0 && end.0 <= VPN_COUNT) {
            return false;
        }
        if !self.is_range_free(start.0, end.0) {
            return false;
        }
        if allocator.free_frames() < end.0 - start.0 {
            return false;
        }
        self.push_empty(start.0, perm);
        assert(self.layout().len() == self.areas@.len());
        let index = self.areas.len() - 1;
        let mut cur = start.0;
        while cur < end.0
            invariant
                start.0 <= cur <= end.0 <= VPN_COUNT,
                self.wf(),
                allocator.wf(),
                index == old(self).layout().len(),
                self.trampoline_frame() == old(self).trampoline_frame(),
                self.layout() == old(self).layout().push(AreaView { start: start.0, end: cur, perm }),
                self.range_free(cur, end.0),
                old(self).range_free(start.0, end.0),
                forall|vpn: usize|
                    self.mapping().contains_key(vpn) <==> old(self).mapping().contains_key(vpn) || (
                    start.0 <= vpn < cur),
                forall|vpn: usize|
                    old(self).mapping().contains_key(vpn) ==> self.mapping()[vpn] ==
                        old(self).mapping()[vpn],
                forall|vpn: usize|
                    self.page_data(vpn) == if start.0 <= vpn < cur {
                        zero_page()
                    } else {
                        old(self).page_data(vpn)
                    },
                self.owned_under(allocator),
                allocator.allocated().difference(self.frames()) == old(allocator).allocated().difference(
                    old(self).frames(),
                ),
                allocator.available() == old(allocator).available() - (cur - start.0),
                old(allocator).available() >= end.0 - start.0,
                old(allocator).allocated().subset_of(allocator.allocated()),
                forall|vpn: usize|
                    start.0 <= vpn < cur ==> !old(allocator).allocated().contains(
                        #[trigger] self.mapping()[vpn].ppn.0,
                    ),
                allocator.first() == old(allocator).first(),
                allocator.limit() == old(allocator).limit(),
            decreases end.0 - cur,
        {
            let ghost before = *self;
            self.grow(index, allocator);
            proof {
                assert(self.layout() =~= old(self).layout().push(
                    AreaView { start: start.0, end: (cur + 1) as usize, perm },
                ));
                assert forall|vpn: usize|
                    self.mapping().contains_key(vpn) <==> old(self).mapping().contains_key(vpn) || (
                    start.0 <= vpn < cur + 1) by {
                    assert(self.mapping().dom().contains(vpn) == before.mapping().dom().insert(
                        cur,
                    ).contains(vpn));
                }
                assert forall|vpn: usize| cur + 1 <= vpn < end.0 implies !self.mapping().contains_key(
                    vpn,
                ) by {
                    assert(self.mapping().dom().contains(vpn) == before.mapping().dom().insert(
                        cur,
                    ).contains(vpn));
                }
            }
            cur += 1;
        }
        true
    }

    /// Unmaps the area at `index` and gives its frames back.
    pub fn remove_area(&mut self, index: usize, allocator: &mut FrameAllocator)
        requires
            old(self).wf(),
            index < old(self).layout().len(),
            old(allocator).wf(),
            old(self).owned_under(old(allocator)),
        ensures
            final(self).wf(),
            final(allocator).wf(),
            final(self).trampoline_frame() == old(self).trampoline_frame(),
            final(self).layout() == old(self).layout().remove(index as int),
            forall|vpn: usize|
                final(self).mapping().contains_key(vpn) <==> old(self).mapping().contains_key(vpn)
                    && !old(self).layout()[index as int].covers(vpn),
            forall|vpn: usize|
                final(self).mapping().contains_key(vpn) ==> final(self).mapping()[vpn] ==
                    old(self).mapping()[vpn],
            forall|vpn: usize|
                final(self).page_data(vpn) == if old(self).layout()[index as int].covers(vpn) {
                    Seq::<u8>::empty()
                } else {
                    old(self).page_data(vpn)
                },
            final(self).owned_under(final(allocator)),
            final(allocator).allocated().difference(final(self).frames()) ==
                old(allocator).allocated().difference(old(self).frames()),
            final(allocator).available() == old(allocator).available() + (old(self).layout()[index
                as int].end - old(self).layout()[index as int].start),
            final(allocator).allocated().subset_of(old(allocator).allocated()),
            forall|vpn: usize|
                old(self).layout()[index as int].covers(vpn) ==> !final(allocator).allocated().contains(
                    #[trigger] old(self).mapping()[vpn].ppn.0,
                ),
            final(allocator).first() == old(allocator).first(),
            final(allocator).limit() == old(allocator).limit(),
    {
        let ghost area = old(self).layout()[index as int];
        proof {
            old(self).lemma_mapping(0);
            assert(self.layout() =~= old(self).layout().update(index as int, area));
        }
        while self.areas[index].start < self.areas[index].end
            invariant
                self.wf(),
                allocator.wf(),
                index < self.layout().len(),
                index < old(self).layout().len(),
                area == old(self).layout()[index as int],
                area.start <= self.layout()[index as int].end <= area.end,
                self.trampoline_frame() == old(self).trampoline_frame(),
                self.layout() == old(self).layout().update(
                    index as int,
                    AreaView { start: area.start, end: self.layout()[index as int].end, perm: area.perm },
                ),
                forall|vpn: usize|
                    self.mapping().contains_key(vpn) <==> old(self).mapping().contains_key(vpn) && !(
                    self.layout()[index as int].end <= vpn < area.end),
                forall|vpn: usize|
                    self.mapping().contains_key(vpn) ==> self.mapping()[vpn] == old(self).mapping()[vpn],
                forall|vpn: usize|
                    self.page_data(vpn) == if self.layout()[index as int].end <= vpn < area.end {
                        Seq::<u8>::empty()
                    } else {
                        old(self).page_data(vpn)
                    },
                self.owned_under(allocator),
                allocator.allocated().difference(self.frames()) == old(allocator).allocated().difference(
                    old(self).frames(),
                ),
                allocator.available() == old(allocator).available() + (area.end
                    - self.layout()[index as int].end),
                allocator.allocated().subset_of(old(allocator).allocated()),
                forall|vpn: usize|
                    self.layout()[index as int].end <= vpn < area.end ==> !allocator.allocated().contains(
                        #[trigger] old(self).mapping()[vpn].ppn.0,
                    ),
                allocator.first() == old(allocator).first(),
                allocator.limit() == old(allocator).limit(),
            decreases self.layout()[index as int].end - area.start,
        {
            assert(self.layout()[index as int] == self.areas@[index as int]@);
            proof {
                let last = (self.layout()[index as int].end - 1) as usize;
                assert(self.layout()[index as int].covers(last));
                self.lemma_mapping(last);
            }
            self.shrink(index, allocator);
        }
        assert(self.layout()[index as int] == self.areas@[index as int]@);
        self.remove_empty(index);
        proof {
            assert(self.layout() =~= old(self).layout().remove(index as int));
        }
    }

    /// Number of areas.
    pub fn area_count(&self) -> (n: usize)
        ensures
            n == self.layout().len(),
    {
        self.areas.len()
    }

    /// Range and permission of the area at `index`.
    pub fn area(&self, index: usize) -> (area: (usize, usize, MapPermission))
        requires
            index < self.layout().len(),
        ensures
            area.0 == self.layout()[index as int].start,
            area.1 == self.layout()[index as int].end,
            area.2 == self.layout()[index as int].perm,
    {
        let a = &self.areas[index];
        (a.start, a.end, a.perm)
    }

    /// Index of the area that holds the page `vpn`.
    pub fn find_area(&self, vpn: VirtPageNum) -> (found: Option<usize>)
        requires
            self.wf(),
        ensures
            match found {
                Some(index) => index < self.layout().len() && self.layout()[index as int].covers(vpn.0),
                None => !self.covered(vpn.0),
            },
    {
        let n = self.areas.len();
        let mut i: usize = 0;
        while i < n
            invariant
                n == self.areas@.len(),
                i <= n,
                forall|j: int| 0 <= j < i ==> !(#[trigger] self.areas@[j]).covers(vpn.0),
            decreases n - i,
        {
            if self.areas[i].start <= vpn.0 && vpn.0 < self.areas[i].end {
                assert(self.layout()[i as int].covers(vpn.0));
                return Some(i);
            }
            i += 1;
        }
        proof {
            self.lemma_covered(vpn.0);
        }
        None
    }

    /// Walks the page table for the page `vpn`.
    pub fn translate(&self, vpn: VirtPageNum) -> (entry: Option<PageTableEntry>)
        requires
            self.wf(),
        ensures
            entry == if self.mapping().contains_key(vpn.0) {
                Some(self.mapping()[vpn.0])
            } else {
                None
            },
    {
        self.page_table.translate(vpn)
    }

    /// The byte at `offset` in the page `vpn` of an area.
    pub fn read_byte(&self, vpn: VirtPageNum, offset: usize) -> (byte: u8)
        requires
            self.wf(),
            self.covered(vpn.0),
            offset < PAGE_SIZE,
        ensures
            byte == self.page_data(vpn.0)[offset as int],
    {
        let index = self.find_area(vpn).unwrap();
        proof {
            lemma_slot(self.areas@, index as int, vpn.0);
            assert(self.areas@[index as int].wf());
            assert(frame_in(self.areas@, vpn.0).wf());
        }
        let area = &self.areas[index];
        area.frames[vpn.0 - area.start].data[offset]
    }

    /// Stores `byte` at `offset` in the page `vpn` of an area.
    pub fn write_byte(&mut self, vpn: VirtPageNum, offset: usize, byte: u8)
        requires
            old(self).wf(),
            old(self).covered(vpn.0),
            offset < PAGE_SIZE,
        ensures
            final(self).wf(),
            final(self).layout() == old(self).layout(),
            final(self).mapping() == old(self).mapping(),
            final(self).frames() == old(self).frames(),
            final(self).trampoline_frame() == old(self).trampoline_frame(),
            final(self).page_data(vpn.0) == old(self).page_data(vpn.0).update(offset as int, byte),
            forall|other: usize|
                other != vpn.0 ==> final(self).page_data(other) == old(self).page_data(other),
    {
        let index = self.find_area(vpn).unwrap();
        proof {
            lemma_slot(self.areas@, index as int, vpn.0);
            assert(self.areas@[index as int].wf());
            assert(frame_in(self.areas@, vpn.0).wf());
        }
        let area = &mut self.areas[index];
        let k = vpn.0 - area.start;
        let frame = &mut area.frames[k];
        frame.data[offset] = byte;
        proof {
            lemma_rewritten(old(self).areas@, self.areas@, index as int, vpn.0);
            assert(self.layout() =~= old(self).layout());
        }
    }

    /// Replaces what the page `vpn` of an area holds by `data`, a page of
    /// bytes.
    pub fn store_page(&mut self, vpn: VirtPageNum, data: Vec<u8>)
        requires
            old(self).wf(),
            old(self).covered(vpn.0),
            data@.len() == PAGE_SIZE,
        ensures
            final(self).wf(),
            final(self).layout() == old(self).layout(),
            final(self).mapping() == old(self).mapping(),
            final(self).frames() == old(self).frames(),
            final(self).trampoline_frame() == old(self).trampoline_frame(),
            forall|other: usize|
                final(self).page_data(other) == if other == vpn.0 {
                    data@
                } else {
                    old(self).page_data(other)
                },
    {
        let index = self.find_area(vpn).unwrap();
        proof {
            lemma_slot(self.areas@, index as int, vpn.0);
            assert(self.areas@[index as int].wf());
            assert(frame_in(self.areas@, vpn.0).wf());
        }
        let area = &mut self.areas[index];
        let k = vpn.0 - area.start;
        let frame = &mut area.frames[k];
        frame.data = data;
        proof {
            lemma_rewritten(old(self).areas@, self.areas@, index as int, vpn.0);
            assert(self.layout() =~= old(self).layout());
        }
    }

    /// Copies `data` into the pages from `first` on, from the start of the
    /// page `first`, whatever their permission.
    pub fn load_bytes(&mut self, first: VirtPageNum, data: &Vec<u8>)
        requires
            old(self).wf(),
            forall|vpn: usize|
                first.0 <= vpn && (vpn - first.0) * PAGE_SIZE < data@.len() ==> #[trigger]
                    old(self).covered(vpn),
            first.0 + data@.len() / (PAGE_SIZE as nat) <= VPN_COUNT,
        ensures
            final(self).wf(),
            final(self).layout() == old(self).layout(),
            final(self).mapping() == old(self).mapping(),
            final(self).frames() == old(self).frames(),
            final(self).trampoline_frame() == old(self).trampoline_frame(),
            forall|vpn: usize| (#[trigger] final(self).page_data(vpn)).len() ==
                old(self).page_data(vpn).len(),
            forall|vpn: usize, offset: int|
                0 <= offset < PAGE_SIZE ==> (#[trigger] final(self).page_data(vpn)[offset]) == if first.0
                    <= vpn && (vpn - first.0) * PAGE_SIZE + offset < data@.len() {
                    data@[(vpn - first.0) * PAGE_SIZE + offset]
                } else {
                    old(self).page_data(vpn)[offset]
                },
    {
        let len = data.len();
        let mut k: usize = 0;
        while k < len
            invariant
                self.wf(),
                len == data@.len(),
                k <= len,
                first.0 + len / PAGE_SIZE <= VPN_COUNT,
                self.layout() == old(self).layout(),
                self.mapping() == old(self).mapping(),
                self.frames() == old(self).frames(),
                self.trampoline_frame() == old(self).trampoline_frame(),
                forall|vpn: usize|
                    first.0 <= vpn && (vpn - first.0) * PAGE_SIZE < len ==> #[trigger] old(self).covered(
                        vpn,
                    ),
                forall|vpn: usize| (#[trigger] self.page_data(vpn)).len() == old(self).page_data(vpn).len(),
                forall|vpn: usize, offset: int|
                    0 <= offset < PAGE_SIZE ==> (#[trigger] self.page_data(vpn)[offset]) == if first.0
                        <= vpn && (vpn - first.0) * PAGE_SIZE + offset < k {
                        data@[(vpn - first.0) * PAGE_SIZE + offset]
                    } else {
                        old(self).page_data(vpn)[offset]
                    },
            decreases len - k,
        {
            let vpn = first.0 + k / PAGE_SIZE;
            let offset = k % PAGE_SIZE;
            proof {
                assert(k == (k / 4096) * 4096 + k % 4096);
                assert(old(self).covered(vpn));
                assert(self.covered(vpn)) by {
                    let i = choose|i: int|
                        0 <= i < old(self).layout().len() && #[trigger] old(self).layout()[i].covers(vpn);
                    assert(self.layout()[i].covers(vpn));
                }
            }
            let ghost before = *self;
            self.write_byte(VirtPageNum(vpn), offset, data[k]);
            proof {
                assert forall|v: usize, o: int| 0 <= o < PAGE_SIZE implies (#[trigger] self.page_data(
                    v,
                )[o]) == if first.0 <= v && (v - first.0) * PAGE_SIZE + o < k + 1 {
                    data@[(v - first.0) * PAGE_SIZE + o]
                } else {
                    old(self).page_data(v)[o]
                } by {
                    if v == vpn {
                        assert(before.page_data(v).len() == old(self).page_data(v).len());
                        before.lemma_mapping(v);
                        assert((v - first.0) * PAGE_SIZE + o == k <==> o == offset) by {
                            assert(k == (k / 4096) * 4096 + k % 4096);
                        }
                    } else {
                        assert((v - first.0) * PAGE_SIZE + o != k) by {
                            assert(k == (k / 4096) * 4096 + k % 4096);
                            if first.0 <= v {
                                assert((v - first.0) * 4096 + o != (k / 4096) * 4096 + k % 4096) by {
                                    if v - first.0 < k / 4096 {
                                        assert((v - first.0) * 4096 + 4096 <= (k / 4096) * 4096);
                                    } else {
                                        assert((k / 4096) * 4096 + 4096 <= (v - first.0) * 4096);
                                    }
                                }
                            }
                        }
                        assert(self.page_data(v) == before.page_data(v));
                    }
                }
            }
            k += 1;
        }
    }

    /// A copy of what the page `vpn` of an area holds.
    pub fn load_page(&self, vpn: VirtPageNum) -> (data: Vec<u8>)
        requires
            self.wf(),
            self.covered(vpn.0),
        ensures
            data@ == self.page_data(vpn.0),
            data@.len() == PAGE_SIZE,
    {
        let index = self.find_area(vpn).unwrap();
        proof {
            lemma_slot(self.areas@, index as int, vpn.0);
            assert(self.areas@[index as int].wf());
            assert(frame_in(self.areas@, vpn.0).wf());
        }
        let area = &self.areas[index];
        let source = &area.frames[vpn.0 - area.start].data;
        let mut out: Vec<u8> = Vec::new();
        let mut i: usize = 0;
        while i < PAGE_SIZE
            invariant
                i <= PAGE_SIZE,
                source@.len() == PAGE_SIZE,
                out@ == source@.subrange(0, i as int),
            decreases PAGE_SIZE - i,
        {
            out.push(source[i]);
            assert(out@ =~= source@.subrange(0, i + 1));
            i += 1;
        }
        assert(out@ =~= source@);
        out
    }
}

/// What holds of the areas after the data of one page was replaced.
proof fn lemma_rewritten(before: Seq<MapArea>, after: Seq<MapArea>, idx: int, vpn: usize)
    requires
        all_wf(before),
        disjoint(before),
        injective(before),
        0 <= idx < before.len(),
        before[idx].covers(vpn),
        after.len() == before.len(),
        forall|i: int| 0 <= i < before.len() && i != idx ==> after[i] == before[i],
        after[idx].start == before[idx].start,
        after[idx].end == before[idx].end,
        after[idx].perm == before[idx].perm,
        after[idx].frames@.len() == before[idx].frames@.len(),
        forall|j: int|
            0 <= j < before[idx].frames@.len() && j != vpn - before[idx].start ==> after[idx].frames@[j]
                == before[idx].frames@[j],
        after[idx].frames@[vpn - before[idx].start].ppn == before[idx].frames@[vpn
            - before[idx].start].ppn,
        after[idx].frames@[vpn - before[idx].start].data@.len() == PAGE_SIZE,
    ensures
        all_wf(after),
        disjoint(after),
        injective(after),
        forall|v: usize| covered_by(after, v) == covered_by(before, v),
        forall|v: usize| covered_by(before, v) ==> entry_in(after, v) == entry_in(before, v),
        forall|v: usize|
            covered_by(before, v) && v != vpn ==> frame_in(after, v) == frame_in(before, v),
        frame_in(after, vpn) == after[idx].frames@[vpn - before[idx].start],
        frames_of(after) == frames_of(before),
{
    assert forall|i: int, v: usize| 0 <= i < after.len() implies (#[trigger] after[i].covers(v))
        == before[i].covers(v) by {}
    assert forall|v: usize| covered_by(after, v) == covered_by(before, v) by {
        if covered_by(after, v) {
            let i = choose|i: int| 0 <= i < after.len() && #[trigger] after[i].covers(v);
            assert(before[i].covers(v));
        }
        if covered_by(before, v) {
            let i = choose|i: int| 0 <= i < before.len() && #[trigger] before[i].covers(v);
            assert(after[i].covers(v));
        }
    }
    assert(disjoint(after)) by {
        assert forall|i: int, j: int, v: usize|
            0 <= i < after.len() && 0 <= j < after.len() && i != j && #[trigger] after[i].covers(v)
                implies !#[trigger] after[j].covers(v) by {
            assert(before[i].covers(v));
            assert(!before[j].covers(v));
        }
    }
    assert(all_wf(after)) by {
        assert forall|i: int| 0 <= i < after.len() implies (#[trigger] after[i]).wf() by {
            assert(before[i].wf());
            if i == idx {
                assert forall|j: int| 0 <= j < after[i].frames@.len() implies (#[trigger]
                    after[i].frames@[j]).wf() by {
                    assert(before[i].frames@[j].wf());
                }
            }
        }
    }
    assert forall|v: usize| covered_by(before, v) implies entry_in(after, v) == entry_in(before, v) && (
    v != vpn ==> frame_in(after, v) == frame_in(before, v)) && frame_in(after, v).ppn == frame_in(
        before,
        v,
    ).ppn by {
        let i = slot_of(before, v);
        assert(before[i].covers(v));
        assert(after[i].covers(v));
        lemma_slot(after, i, v);
        assert(before[i].wf());
        if i == idx {
            lemma_slot(before, idx, vpn);
        }
    }
    lemma_slot(before, idx, vpn);
    assert(after[idx].covers(vpn));
    lemma_slot(after, idx, vpn);
    assert(frames_of(after) =~= frames_of(before)) by {
        assert forall|p: usize| frames_of(after).contains(p) == frames_of(before).contains(p) by {
            if frames_of(after).contains(p) {
                let v = choose|v: usize| covered_by(after, v) && (#[trigger] frame_in(after, v)).ppn.0 == p;
                assert(frame_in(before, v).ppn.0 == p);
            }
            if frames_of(before).contains(p) {
                let v = choose|v: usize|
                    covered_by(before, v) && (#[trigger] frame_in(before, v)).ppn.0 == p;
                assert(frame_in(after, v).ppn.0 == p);
            }
        }
    }
    assert(injective(after)) by {
        assert forall|v1: usize, v2: usize|
            covered_by(after, v1) && covered_by(after, v2) && v1 != v2 implies (#[trigger] frame_in(
                after,
                v1,
            )).ppn != (#[trigger] frame_in(after, v2)).ppn by {
            assert(frame_in(before, v1).ppn != frame_in(before, v2).ppn);
        }
    }
}

} // verus!
