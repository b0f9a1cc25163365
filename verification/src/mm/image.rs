//! Program images and the address spaces built from them.
//!
//! An image is a list of segments in ascending order and an entry point. The
//! address space of a program holds one area for each segment, then, one
//! free page above the last segment, the user stack, then the heap, which
//! starts empty at the top of the stack, and last the page of the trap
//! context below the trampoline.

use vstd::prelude::*;
use crate::config::{PAGE_SIZE, PPN_LIMIT, TRAP_CONTEXT_BASE, VPN_COUNT};
use crate::mm::address::{lemma_high_pages, trap_context_vpn, PhysPageNum, VirtAddr, VirtPageNum};
use crate::mm::frame_allocator::FrameAllocator;
use crate::mm::lifecycle::total_pages;
use crate::mm::memory_set::{zero_page, AreaView, MemorySet};
use crate::mm::page_table::MapPermission;

verus! {

/// Pages of the user stack.
pub const USER_STACK_PAGES: usize = 2;

/// A part of a program that is loaded at a fixed address.
pub struct Segment {
    /// Virtual address of the first byte, the first of a page.
    pub start: usize,
    /// Bytes that the segment takes in memory.
    pub size: usize,
    /// What the program may do with the segment.
    pub perm: MapPermission,
    /// The first bytes of the segment; the rest is zero.
    pub data: Vec<u8>,
}

/// A program: its segments and where it starts.
pub struct ProgramImage {
    /// Virtual address of the first instruction.
    pub entry: usize,
    /// The segments, in ascending order of address.
    pub segments: Vec<Segment>,
}

impl Segment {
    /// First page of the segment.
    pub open spec fn first_page(&self) -> usize {
        self.start / PAGE_SIZE
    }

    /// The page behind the last page of the segment.
    pub open spec fn end_page(&self) -> int {
        self.start / PAGE_SIZE + (self.size - 1) / (PAGE_SIZE as int) + 1
    }

    /// The segment starts with a page, is not empty, holds its data and
    /// lies in the address space.
    pub open spec fn well_formed(&self) -> bool {
        &&& self.start % PAGE_SIZE == 0
        &&& self.size > 0
        &&& self.data@.len() <= self.size
        &&& self.end_page() <= VPN_COUNT
    }

    /// The page `vpn` belongs to the segment.
    pub open spec fn covers(&self, vpn: usize) -> bool {
        self.first_page() <= vpn < self.end_page()
    }

    /// What the page `vpn` of the segment holds once loaded.
    pub open spec fn page(&self, vpn: usize) -> Seq<u8> {
        Seq::new(
            PAGE_SIZE as nat,
            |offset: int|
                {
                    let k = (vpn - self.first_page()) * PAGE_SIZE + offset;
                    if k < self.data@.len() {
                        self.data@[k]
                    } else {
                        0u8
                    }
                },
        )
    }

    /// The permission of the area of the segment: the segment's own, for the
    /// user.
    pub open spec fn area_perm(&self) -> MapPermission {
        MapPermission { r: self.perm.r, w: self.perm.w, x: self.perm.x, u: true }
    }

    /// The area of the segment.
    pub open spec fn area(&self) -> AreaView {
        AreaView { start: self.first_page(), end: self.end_page() as usize, perm: self.area_perm() }
    }

    /// The address `entry` lies in the segment, which may be executed.
    pub open spec fn holds_entry(&self, entry: usize) -> bool {
        self.perm.x && self.start <= entry < self.start + self.size
    }
}

/// What the page `vpn` holds once the segments are loaded: a page of a
/// segment, or nothing.
pub open spec fn loaded_page(segments: Seq<Segment>, vpn: usize) -> Seq<u8>
    decreases segments.len(),
{
    if segments.len() == 0 {
        Seq::empty()
    } else if segments.last().covers(vpn) {
        segments.last().page(vpn)
    } else {
        loaded_page(segments.drop_last(), vpn)
    }
}

/// The areas of the segments.
pub open spec fn segment_areas(segments: Seq<Segment>) -> Seq<AreaView> {
    Seq::new(segments.len(), |i: int| segments[i].area())
}

/// What a task may do with its stack and its heap.
pub open spec fn spec_user_data() -> MapPermission {
    MapPermission { r: true, w: true, x: false, u: true }
}

/// What the kernel may do with the page of the trap context.
pub open spec fn spec_kernel_data() -> MapPermission {
    MapPermission { r: true, w: true, x: false, u: false }
}

/// The pages of areas that follow one another add up.
pub proof fn lemma_total_pages_concat(a: Seq<AreaView>, b: Seq<AreaView>)
    ensures
        total_pages(a + b) == total_pages(a) + total_pages(b),
    decreases b.len(),
{
    if b.len() == 0 {
        assert(a + b =~= a);
    } else {
        assert((a + b).drop_last() =~= a + b.drop_last());
        assert((a + b).last() == b.last());
        lemma_total_pages_concat(a, b.drop_last());
    }
}

impl ProgramImage {
    /// The segments are well formed and in ascending order, the stack finds
    /// room between the last of them and the trap context, and the entry
    /// point lies in a segment that may be executed.
    pub open spec fn valid(&self) -> bool {
        &&& self.segments@.len() > 0
        &&& forall|i: int| 0 <= i < self.segments@.len() ==> (#[trigger] self.segments@[i]).well_formed()
        &&& forall|i: int|
            0 <= i < self.segments@.len() - 1 ==> (#[trigger] self.segments@[i]).end_page()
                <= self.segments@[i + 1].first_page()
        &&& self.segments@.last().end_page() + 1 + USER_STACK_PAGES <= trap_context_vpn()
        &&& exists|i: int|
            0 <= i < self.segments@.len() && (#[trigger] self.segments@[i]).holds_entry(self.entry)
    }

    /// First page of the user stack.
    pub open spec fn stack_bottom(&self) -> usize {
        (self.segments@.last().end_page() + 1) as usize
    }

    /// The page behind the user stack, where the heap starts.
    pub open spec fn stack_top(&self) -> usize {
        (self.segments@.last().end_page() + 1 + USER_STACK_PAGES) as usize
    }

    /// The areas of the address space of the program.
    pub open spec fn layout(&self) -> Seq<AreaView> {
        segment_areas(self.segments@) + seq![
            AreaView { start: self.stack_bottom(), end: self.stack_top(), perm: spec_user_data() },
            AreaView { start: self.stack_top(), end: self.stack_top(), perm: spec_user_data() },
            AreaView {
                start: trap_context_vpn(),
                end: (trap_context_vpn() + 1) as usize,
                perm: spec_kernel_data(),
            },
        ]
    }

    /// What the page `vpn` of the address space of the program holds at the
    /// start: the stack and the trap context are zero.
    pub open spec fn page(&self, vpn: usize) -> Seq<u8> {
        if self.stack_bottom() <= vpn < self.stack_top() || vpn == trap_context_vpn() {
            zero_page()
        } else {
            loaded_page(self.segments@, vpn)
        }
    }

    /// Tells whether the image is valid.
    pub fn check(&self) -> (ok: bool)
        ensures
            ok == self.valid(),
    {
        proof {
            lemma_high_pages();
        }
        let n = self.segments.len();
        if n == 0 {
            return false;
        }
        let limit = VirtAddr(TRAP_CONTEXT_BASE).floor().0;
        let mut entered = false;
        let mut reach: usize = 0;
        let mut i: usize = 0;
        while i < n
            invariant
                n == self.segments@.len(),
                i <= n,
                forall|j: int| 0 <= j < i ==> (#[trigger] self.segments@[j]).well_formed(),
                forall|j: int|
                    0 <= j < i - 1 ==> (#[trigger] self.segments@[j]).end_page() <= self.segments@[j
                        + 1].first_page(),
                i > 0 ==> reach == self.segments@[i - 1].end_page(),
                i == 0 ==> reach == 0,
                reach <= VPN_COUNT,
                entered == exists|j: int|
                    0 <= j < i && (#[trigger] self.segments@[j]).holds_entry(self.entry),
            decreases n - i,
        {
            let segment = &self.segments[i];
            let first = segment.start / PAGE_SIZE;
            if !(segment.start % PAGE_SIZE == 0 && segment.size > 0 && segment.data.len() <= segment.size
                && first <= VPN_COUNT && (segment.size - 1) / PAGE_SIZE + 1 <= VPN_COUNT - first) {
                assert(!self.segments@[i as int].well_formed());
                return false;
            }
            if first < reach {
                assert(!(self.segments@[i - 1].end_page() <= self.segments@[i as int].first_page()));
                return false;
            }
            reach = first + (segment.size - 1) / PAGE_SIZE + 1;
            let here = segment.perm.x && segment.start <= self.entry && self.entry - segment.start
                < segment.size;
            assert(here == self.segments@[i as int].holds_entry(self.entry));
            proof {
                let was = exists|j: int|
                    0 <= j < i && (#[trigger] self.segments@[j]).holds_entry(self.entry);
                let now = exists|j: int|
                    0 <= j < i + 1 && (#[trigger] self.segments@[j]).holds_entry(self.entry);
                if now && !here {
                    let j = choose|j: int|
                        0 <= j < i + 1 && (#[trigger] self.segments@[j]).holds_entry(self.entry);
                    assert(0 <= j < i);
                }
                if was || here {
                    if was {
                        let j = choose|j: int|
                            0 <= j < i && (#[trigger] self.segments@[j]).holds_entry(self.entry);
                        assert(self.segments@[j].holds_entry(self.entry));
                    } else {
                        assert(self.segments@[i as int].holds_entry(self.entry));
                    }
                }
            }
            entered = entered || here;
            i += 1;
        }
        if !(reach + 1 + USER_STACK_PAGES <= limit) {
            return false;
        }
        entered
    }

    /// Number of pages of the address space of the program.
    pub fn page_demand(&self) -> (pages: usize)
        requires
            self.valid(),
        ensures
            pages == total_pages(self.layout()),
    {
        let n = self.segments.len();
        let ghost areas = segment_areas(self.segments@);
        let mut sum: usize = 0;
        let mut i: usize = 0;
        proof {
            assert(areas.subrange(0, 0) =~= Seq::<AreaView>::empty());
        }
        while i < n
            invariant
                self.valid(),
                n == self.segments@.len(),
                areas == segment_areas(self.segments@),
                i <= n,
                sum == total_pages(areas.subrange(0, i as int)),
                i > 0 ==> sum <= self.segments@[i - 1].end_page(),
                i == 0 ==> sum == 0,
            decreases n - i,
        {
            let segment = &self.segments[i];
            proof {
                assert(self.segments@[i as int].well_formed());
                if i > 0 {
                    assert(self.segments@[i - 1].end_page() <= self.segments@[i as int].first_page());
                }
                let longer = areas.subrange(0, i + 1);
                assert(longer.drop_last() =~= areas.subrange(0, i as int));
                assert(longer.last() == self.segments@[i as int].area());
            }
            sum = sum + ((segment.size - 1) / PAGE_SIZE + 1);
            i += 1;
        }
        proof {
            assert(areas.subrange(0, n as int) =~= areas);
            lemma_layout_pages(self);
            lemma_high_pages();
        }
        sum + USER_STACK_PAGES + 1
    }
}

impl MemorySet {
    /// Maps the area of `segment` and loads its data.
    fn load_segment(&mut self, segment: &Segment, allocator: &mut FrameAllocator)
        requires
            old(self).wf(),
            old(allocator).wf(),
            old(self).owned_under(old(allocator)),
            segment.well_formed(),
            old(self).range_free(segment.first_page(), segment.end_page() as usize),
            old(allocator).available() >= segment.end_page() - segment.first_page(),
        ensures
            final(self).wf(),
            final(allocator).wf(),
            final(self).trampoline_frame() == old(self).trampoline_frame(),
            final(self).layout() == old(self).layout().push(segment.area()),
            forall|vpn: usize|
                final(self).page_data(vpn) == if segment.covers(vpn) {
                    segment.page(vpn)
                } else {
                    old(self).page_data(vpn)
                },
            final(self).owned_under(final(allocator)),
            final(allocator).allocated().difference(final(self).frames()) ==
                old(allocator).allocated().difference(old(self).frames()),
            final(allocator).available() == old(allocator).available() - (segment.end_page()
                - segment.first_page()),
            final(allocator).first() == old(allocator).first(),
            final(allocator).limit() == old(allocator).limit(),
    {
        let first = segment.start / PAGE_SIZE;
        let end = first + ((segment.size - 1) / PAGE_SIZE + 1);
        let perm = MapPermission { r: segment.perm.r, w: segment.perm.w, x: segment.perm.x, u: true };
        let done = self.insert_framed_area(VirtPageNum(first), VirtPageNum(end), perm, allocator);
        assert(done);
        let ghost zeroed = *self;
        proof {
            assert forall|vpn: usize|
                first <= vpn && (vpn - first) * PAGE_SIZE < segment.data@.len() implies #[trigger]
                    self.covered(
                    vpn,
                ) by {
                assert((vpn - first) * 4096 < segment.size);
                assert(vpn - first <= (segment.size - 1) / 4096);
                assert(self.layout()[old(self).layout().len() as int].covers(vpn));
            }
        }
        self.load_bytes(VirtPageNum(first), &segment.data);
        proof {
            assert forall|vpn: usize|
                self.page_data(vpn) == if segment.covers(vpn) {
                    segment.page(vpn)
                } else {
                    old(self).page_data(vpn)
                } by {
                if zeroed.covered(vpn) {
                    zeroed.lemma_mapping(vpn);
                } else {
                    zeroed.lemma_uncovered(vpn);
                }
                lemma_loaded(zeroed.page_data(vpn), self.page_data(vpn), segment, vpn);
            }
        }
    }

    /// Maps the stack, the heap and the page of the trap context above
    /// segments that end at the page `reach`.
    fn add_user_stack(&mut self, reach: usize, allocator: &mut FrameAllocator)
        requires
            old(self).wf(),
            old(allocator).wf(),
            old(self).owned_under(old(allocator)),
            reach + 1 + USER_STACK_PAGES <= trap_context_vpn(),
            forall|vpn: usize| old(self).covered(vpn) ==> vpn < reach,
            old(allocator).available() >= USER_STACK_PAGES + 1,
        ensures
            final(self).wf(),
            final(allocator).wf(),
            final(self).trampoline_frame() == old(self).trampoline_frame(),
            final(self).layout() == old(self).layout() + seq![
                AreaView {
                    start: (reach + 1) as usize,
                    end: (reach + 1 + USER_STACK_PAGES) as usize,
                    perm: spec_user_data(),
                },
                AreaView {
                    start: (reach + 1 + USER_STACK_PAGES) as usize,
                    end: (reach + 1 + USER_STACK_PAGES) as usize,
                    perm: spec_user_data(),
                },
                AreaView {
                    start: trap_context_vpn(),
                    end: (trap_context_vpn() + 1) as usize,
                    perm: spec_kernel_data(),
                },
            ],
            forall|vpn: usize|
                final(self).page_data(vpn) == if reach + 1 <= vpn < reach + 1 + USER_STACK_PAGES || vpn
                    == trap_context_vpn() {
                    zero_page()
                } else {
                    old(self).page_data(vpn)
                },
            final(self).owned_under(final(allocator)),
            final(allocator).allocated().difference(final(self).frames()) ==
                old(allocator).allocated().difference(old(self).frames()),
            final(allocator).available() == old(allocator).available() - (USER_STACK_PAGES + 1),
            final(allocator).first() == old(allocator).first(),
            final(allocator).limit() == old(allocator).limit(),
    {
        proof {
            lemma_high_pages();
        }
        let bottom = reach + 1;
        let top = bottom + USER_STACK_PAGES;
        let context = VirtAddr(TRAP_CONTEXT_BASE).floor().0;
        let data = MapPermission { r: true, w: true, x: false, u: true };
        proof {
            assert forall|vpn: usize| bottom <= vpn < top implies !self.mapping().contains_key(vpn) by {
                self.lemma_mapping(vpn);
            }
        }
        let stack = self.insert_framed_area(VirtPageNum(bottom), VirtPageNum(top), data, allocator);
        assert(stack);
        let heap = self.insert_framed_area(VirtPageNum(top), VirtPageNum(top), data, allocator);
        assert(heap);
        proof {
            assert forall|vpn: usize| context <= vpn < context + 1 implies !self.mapping().contains_key(
                vpn,
            ) by {
                old(self).lemma_mapping(vpn);
            }
        }
        let trap = self.insert_framed_area(
            VirtPageNum(context),
            VirtPageNum(context + 1),
            MapPermission { r: true, w: true, x: false, u: false },
            allocator,
        );
        assert(trap);
        proof {
            assert(self.layout() =~= old(self).layout() + seq![
                AreaView { start: bottom, end: top, perm: spec_user_data() },
                AreaView { start: top, end: top, perm: spec_user_data() },
                AreaView {
                    start: trap_context_vpn(),
                    end: (trap_context_vpn() + 1) as usize,
                    perm: spec_kernel_data(),
                },
            ]);
        }
    }

    /// Maps and loads the segments of `image`.
    fn load_segments(&mut self, image: &ProgramImage, allocator: &mut FrameAllocator)
        requires
            old(self).wf(),
            old(allocator).wf(),
            old(self).layout() == Seq::<AreaView>::empty(),
            old(self).frames() == Set::<usize>::empty(),
            image.valid(),
            old(allocator).available() >= total_pages(segment_areas(image.segments@)),
        ensures
            final(self).wf(),
            final(allocator).wf(),
            final(self).trampoline_frame() == old(self).trampoline_frame(),
            final(self).layout() == segment_areas(image.segments@),
            forall|vpn: usize| #[trigger] final(self).page_data(vpn) == loaded_page(image.segments@, vpn),
            final(self).owned_under(final(allocator)),
            final(allocator).allocated().difference(final(self).frames()) == old(allocator).allocated(),
            final(allocator).available() == old(allocator).available() - total_pages(
                segment_areas(image.segments@),
            ),
            final(allocator).first() == old(allocator).first(),
            final(allocator).limit() == old(allocator).limit(),
    {
        let n = image.segments.len();
        let ghost areas = segment_areas(image.segments@);
        let mut i: usize = 0;
        proof {
            assert(areas.subrange(0, 0) =~= Seq::<AreaView>::empty());
            assert(image.segments@.subrange(0, 0) =~= Seq::<Segment>::empty());
            assert(allocator.allocated().difference(self.frames()) =~= old(allocator).allocated());
            assert forall|vpn: usize| #[trigger] self.page_data(vpn) == Seq::<u8>::empty() by {
                self.lemma_uncovered(vpn);
            }
        }
        while i < n
            invariant
                image.valid(),
                self.wf(),
                allocator.wf(),
                n == image.segments@.len(),
                areas == segment_areas(image.segments@),
                i <= n,
                self.layout() == areas.subrange(0, i as int),
                self.trampoline_frame() == old(self).trampoline_frame(),
                forall|vpn: usize| #[trigger]
                    self.page_data(vpn) == loaded_page(image.segments@.subrange(0, i as int), vpn),
                self.owned_under(allocator),
                allocator.allocated().difference(self.frames()) == old(allocator).allocated(),
                allocator.available() == old(allocator).available() - total_pages(
                    areas.subrange(0, i as int),
                ),
                total_pages(areas) <= old(allocator).available(),
                allocator.first() == old(allocator).first(),
                allocator.limit() == old(allocator).limit(),
            decreases n - i,
        {
            let segment = &image.segments[i];
            proof {
                lemma_next_segment(image, i as int);
                lemma_room_for_segment(self, image, i as int);
            }
            self.load_segment(segment, allocator);
            i += 1;
        }
        proof {
            assert(areas.subrange(0, n as int) =~= areas);
            assert(image.segments@.subrange(0, n as int) =~= image.segments@);
        }
    }

    /// The address space of the program `image`, with the trampoline page
    /// mapped to the frame `trampoline`, and the address of the top of the
    /// user stack. `None`, and nothing handed out, where the image is not
    /// valid or the allocator has not a frame for each page.
    pub fn from_image(image: &ProgramImage, trampoline: PhysPageNum, allocator: &mut
        FrameAllocator) -> (built:
        Option<(MemorySet, usize)>)
        requires
            trampoline.0 < PPN_LIMIT,
            old(allocator).wf(),
        ensures
            final(allocator).wf(),
            final(allocator).first() == old(allocator).first(),
            final(allocator).limit() == old(allocator).limit(),
            match built {
                Some((space, user_sp)) => {
                    &&& image.valid()
                    &&& total_pages(image.layout()) <= old(allocator).available()
                    &&& space.wf()
                    &&& space.layout() == image.layout()
                    &&& space.trampoline_frame() == trampoline
                    &&& user_sp == image.stack_top() * PAGE_SIZE
                    &&& forall|vpn: usize| space.page_data(vpn) == image.page(vpn)
                    &&& space.owned_under(final(allocator))
                    &&& final(allocator).allocated().difference(space.frames()) ==
                        old(allocator).allocated()
                    &&& final(allocator).available() == old(allocator).available() - total_pages(
                        image.layout(),
                    )
                },
                None => (!image.valid() || total_pages(image.layout()) > old(allocator).available())
                    && *final(allocator) == *old(allocator),
            },
    {
        if !image.check() {
            return None;
        }
        let demand = image.page_demand();
        if allocator.free_frames() < demand {
            return None;
        }
        proof {
            lemma_high_pages();
            lemma_layout_pages(image);
        }
        let mut space = MemorySet::new_bare(trampoline);
        space.load_segments(image, allocator);
        let n = image.segments.len();
        let reach = image.segments[n - 1].start / PAGE_SIZE + ((image.segments[n - 1].size - 1)
            / PAGE_SIZE + 1);
        proof {
            lemma_segments_cover(&space, image);
        }
        space.add_user_stack(reach, allocator);
        Some((space, (reach + 1 + USER_STACK_PAGES) * PAGE_SIZE))
    }
}

/// What a page holds after the data of a segment was copied over zeroed
/// pages.
proof fn lemma_loaded(zeroed: Seq<u8>, after: Seq<u8>, segment: &Segment, vpn: usize)
    requires
        segment.well_formed(),
        after.len() == zeroed.len(),
        segment.covers(vpn) ==> zeroed == zero_page(),
        forall|offset: int|
            0 <= offset < PAGE_SIZE ==> (#[trigger] after[offset]) == if segment.first_page() <= vpn && (
            vpn - segment.first_page()) * PAGE_SIZE + offset < segment.data@.len() {
                segment.data@[(vpn - segment.first_page()) * PAGE_SIZE + offset]
            } else {
                zeroed[offset]
            },
        zeroed.len() == 0 || zeroed.len() == PAGE_SIZE,
    ensures
        after == if segment.covers(vpn) {
            segment.page(vpn)
        } else {
            zeroed
        },
{
    if segment.covers(vpn) {
        assert(after =~= segment.page(vpn));
    } else {
        assert forall|o: int| 0 <= o < zeroed.len() implies after[o] == zeroed[o] by {
            if segment.first_page() <= vpn {
                assert(vpn >= segment.end_page());
                assert((vpn - segment.first_page()) * 4096 >= ((segment.size - 1) / 4096 + 1) * 4096);
            }
        }
        assert(after =~= zeroed);
    }
}

/// The segment `i` is well formed and starts where its predecessor ended
/// or above; the areas up to it are those before it and its own.
proof fn lemma_next_segment(image: &ProgramImage, i: int)
    requires
        image.valid(),
        0 <= i < image.segments@.len(),
    ensures
        image.segments@[i].well_formed(),
        i > 0 ==> image.segments@[i - 1].end_page() <= image.segments@[i].first_page(),
        segment_areas(image.segments@).subrange(0, i + 1) == segment_areas(image.segments@).subrange(
            0,
            i,
        ).push(image.segments@[i].area()),
        total_pages(segment_areas(image.segments@).subrange(0, i + 1)) == total_pages(
            segment_areas(image.segments@).subrange(0, i),
        ) + (image.segments@[i].end_page() - image.segments@[i].first_page()),
        total_pages(segment_areas(image.segments@).subrange(0, i + 1)) <= total_pages(
            segment_areas(image.segments@),
        ),
        forall|vpn: usize|
            loaded_page(image.segments@.subrange(0, i + 1), vpn) == if image.segments@[i].covers(vpn) {
                image.segments@[i].page(vpn)
            } else {
                loaded_page(image.segments@.subrange(0, i), vpn)
            },
{
    let areas = segment_areas(image.segments@);
    assert(image.segments@[i].well_formed());
    if i > 0 {
        assert(image.segments@[i - 1].end_page() <= image.segments@[i - 1 + 1].first_page());
    }
    let longer = areas.subrange(0, i + 1);
    assert(longer.drop_last() =~= areas.subrange(0, i));
    assert(longer.last() == image.segments@[i].area());
    assert(longer =~= areas.subrange(0, i).push(image.segments@[i].area()));
    assert forall|j: int| 0 <= j < areas.len() implies (#[trigger] areas[j]).start <= areas[j].end by {
        assert(image.segments@[j].well_formed());
    }
    crate::mm::lifecycle::lemma_total_pages_prefix(areas, i + 1);
    let loading = image.segments@.subrange(0, i + 1);
    assert(loading.drop_last() =~= image.segments@.subrange(0, i));
    assert(loading.last() == image.segments@[i]);
}

/// The pages of the address space of a program: those of its segments, of
/// the stack and of the trap context.
proof fn lemma_layout_pages(image: &ProgramImage)
    requires
        image.valid(),
    ensures
        total_pages(image.layout()) == total_pages(segment_areas(image.segments@)) + USER_STACK_PAGES
            + 1,
{
    let extra = seq![
        AreaView { start: image.stack_bottom(), end: image.stack_top(), perm: spec_user_data() },
        AreaView { start: image.stack_top(), end: image.stack_top(), perm: spec_user_data() },
        AreaView {
            start: trap_context_vpn(),
            end: (trap_context_vpn() + 1) as usize,
            perm: spec_kernel_data(),
        },
    ];
    lemma_total_pages_concat(segment_areas(image.segments@), extra);
    reveal_with_fuel(total_pages, 4);
    assert(extra.drop_last().drop_last().drop_last() =~= Seq::<AreaView>::empty());
    lemma_high_pages();
    assert(image.segments@.last().well_formed());
}

/// The pages of the next segment are free in an address space that holds
/// the segments before it.
proof fn lemma_room_for_segment(space: &MemorySet, image: &ProgramImage, i: int)
    requires
        space.wf(),
        image.valid(),
        0 <= i < image.segments@.len(),
        space.layout() == segment_areas(image.segments@).subrange(0, i),
    ensures
        space.range_free(image.segments@[i].first_page(), image.segments@[i].end_page() as usize),
{
    let segment = image.segments@[i];
    assert forall|vpn: usize| segment.first_page() <= vpn < segment.end_page() implies
        !space.mapping().contains_key(
        vpn,
    ) by {
        space.lemma_mapping(vpn);
        lemma_high_pages();
        lemma_segments_below(image, i);
        if space.covered(vpn) {
            let j = choose|j: int| 0 <= j < space.layout().len() && #[trigger]
                space.layout()[j].covers(vpn);
            assert(space.layout()[j] == image.segments@[j].area());
            lemma_segments_ordered(image, j, i);
        }
    }
}

/// Every page of an address space that holds the segments lies below the
/// end of the last segment.
proof fn lemma_segments_cover(space: &MemorySet, image: &ProgramImage)
    requires
        space.wf(),
        image.valid(),
        space.layout() == segment_areas(image.segments@),
    ensures
        forall|vpn: usize| space.covered(vpn) ==> vpn < image.segments@.last().end_page(),
{
    assert forall|vpn: usize| space.covered(vpn) implies vpn < image.segments@.last().end_page() by {
        let j = choose|j: int| 0 <= j < space.layout().len() && #[trigger] space.layout()[j].covers(vpn);
        assert(space.layout()[j] == image.segments@[j].area());
        lemma_segments_below(image, j);
    }
}

/// A segment ends where a later one starts, or below.
proof fn lemma_segments_ordered(image: &ProgramImage, j: int, i: int)
    requires
        image.valid(),
        0 <= j < i < image.segments@.len(),
    ensures
        image.segments@[j].end_page() <= image.segments@[i].first_page(),
    decreases i - j,
{
    assert(image.segments@[j].end_page() <= image.segments@[j + 1].first_page());
    if j + 1 < i {
        assert(image.segments@[j + 1].well_formed());
        lemma_segments_ordered(image, j + 1, i);
    }
}

/// Every segment ends at or before the end of the last.
pub proof fn lemma_segments_below(image: &ProgramImage, i: int)
    requires
        image.valid(),
        0 <= i < image.segments@.len(),
    ensures
        image.segments@[i].end_page() <= image.segments@.last().end_page(),
    decreases image.segments@.len() - i,
{
    if i < image.segments@.len() - 1 {
        assert(image.segments@[i].end_page() <= image.segments@[i + 1].first_page());
        assert(image.segments@[i + 1].well_formed());
        lemma_segments_below(image, i + 1);
    }
}

} // verus!
