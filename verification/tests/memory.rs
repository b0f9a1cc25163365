use kernel_core::config::{PAGE_SIZE, TRAMPOLINE, TRAP_CONTEXT_BASE, VPN_COUNT};
use kernel_core::mm::address::{PhysAddr, PhysPageNum, VirtAddr, VirtPageNum};
use kernel_core::mm::frame_allocator::FrameAllocator;
use kernel_core::mm::image::{ProgramImage, Segment};
use kernel_core::mm::memory_set::MemorySet;
use kernel_core::mm::mmap::{page_range, port_permission};
use kernel_core::mm::page_table::{MapPermission, PageTable, PageTableEntry};
use kernel_core::mm::translated::{i32_bits, to_le_bytes, user_read, user_write, PhysRun};

const TRAMPOLINE_FRAME: PhysPageNum = PhysPageNum(0x80_000);

fn perm(r: bool, w: bool, x: bool, u: bool) -> MapPermission {
    MapPermission { r, w, x, u }
}

fn space_with(frames: usize) -> (MemorySet, FrameAllocator) {
    (MemorySet::new_bare(TRAMPOLINE_FRAME), FrameAllocator::new(0x100, 0x100 + frames))
}

fn layout(space: &MemorySet) -> Vec<(usize, usize, MapPermission)> {
    (0..space.area_count()).map(|i| space.area(i)).collect()
}

#[test]
fn addresses_split_into_page_and_offset() {
    let va = VirtAddr(0x1234_5678);
    assert_eq!(va.page_offset(), 0x678);
    assert_eq!(va.floor(), VirtPageNum(0x12345));
    assert!(!va.aligned());
    assert!(VirtAddr(0x5000).aligned());
    assert_eq!(VirtAddr(TRAMPOLINE).floor(), VirtPageNum(VPN_COUNT - 1));
    assert_eq!(VirtAddr(TRAP_CONTEXT_BASE).floor(), VirtPageNum(VPN_COUNT - 2));
    assert_eq!(PhysPageNum(0x80).at(0x10), PhysAddr(0x80010));
    assert_eq!(PhysAddr(0x80010).floor(), PhysPageNum(0x80));
    assert_eq!(PhysAddr(0x80010).page_offset(), 0x10);
}

#[test]
fn the_page_number_takes_27_bits() {
    let low = VirtAddr(0x3000).floor();
    let high = VirtAddr(0x3000 + (VPN_COUNT << 12)).floor();
    assert_eq!(low, high);
}

#[test]
fn frames_are_handed_out_once() {
    let mut frames = FrameAllocator::new(10, 13);
    assert_eq!(frames.free_frames(), 3);
    let a = frames.frame_alloc().unwrap();
    let b = frames.frame_alloc().unwrap();
    let c = frames.frame_alloc().unwrap();
    assert_eq!((a, b, c), (PhysPageNum(10), PhysPageNum(11), PhysPageNum(12)));
    assert_eq!(frames.free_frames(), 0);
    assert_eq!(frames.frame_alloc(), None);
    frames.frame_dealloc(b);
    assert_eq!(frames.free_frames(), 1);
    assert_eq!(frames.frame_alloc(), Some(PhysPageNum(11)));
    assert_eq!(frames.frame_alloc(), None);
}

#[test]
fn a_frame_given_back_is_handed_out_before_fresh_frames() {
    let mut frames = FrameAllocator::new(0, 8);
    let a = frames.frame_alloc().unwrap();
    let _b = frames.frame_alloc().unwrap();
    frames.frame_dealloc(a);
    assert_eq!(frames.frame_alloc(), Some(a));
    assert_eq!(frames.frame_alloc(), Some(PhysPageNum(2)));
}

#[test]
fn the_page_table_walk_finds_what_was_mapped() {
    let mut table = PageTable::new();
    let entry = PageTableEntry { ppn: PhysPageNum(7), perm: perm(true, true, false, true) };
    let far = PageTableEntry { ppn: PhysPageNum(9), perm: perm(true, false, true, false) };
    assert_eq!(table.translate(VirtPageNum(5)), None);
    table.map(VirtPageNum(5), entry);
    table.map(VirtPageNum(VPN_COUNT - 1), far);
    table.map(VirtPageNum(5 + 512), far);
    assert_eq!(table.translate(VirtPageNum(5)), Some(entry));
    assert_eq!(table.translate(VirtPageNum(VPN_COUNT - 1)), Some(far));
    assert_eq!(table.translate(VirtPageNum(5 + 512)), Some(far));
    assert_eq!(table.translate(VirtPageNum(6)), None);
    assert_eq!(table.translate(VirtPageNum(5 + 512 * 512)), None);
    assert_eq!(table.translate(VirtPageNum(VPN_COUNT)), None);
    table.unmap(VirtPageNum(5));
    assert_eq!(table.translate(VirtPageNum(5)), None);
    assert_eq!(table.translate(VirtPageNum(5 + 512)), Some(far));
}

#[test]
fn permissions_allow_what_they_hold() {
    let rw = perm(true, true, false, true);
    assert!(rw.allows(user_read()));
    assert!(rw.allows(user_write()));
    assert!(!perm(true, false, false, true).allows(user_write()));
    assert!(!perm(true, true, false, false).allows(user_read()));
    assert!(rw.allows(perm(false, false, false, false)));
    assert_eq!(port_permission(1), perm(true, false, false, true));
    assert_eq!(port_permission(2), perm(false, true, false, true));
    assert_eq!(port_permission(3), perm(true, true, false, true));
    assert_eq!(port_permission(4), perm(false, false, true, true));
    assert_eq!(port_permission(7), perm(true, true, true, true));
}

#[test]
fn a_bare_space_maps_the_trampoline_alone() {
    let (space, _) = space_with(4);
    assert_eq!(space.area_count(), 0);
    let entry = space.translate(VirtAddr(TRAMPOLINE).floor()).unwrap();
    assert_eq!(entry.ppn, TRAMPOLINE_FRAME);
    assert_eq!(entry.perm, perm(true, false, true, false));
    assert_eq!(space.translate(VirtPageNum(0)), None);
    assert_eq!(space.trampoline(), TRAMPOLINE_FRAME);
}

#[test]
fn mmap_maps_zeroed_pages_with_the_permission_asked_for() {
    let (mut space, mut frames) = space_with(8);
    assert_eq!(space.mmap(0x1000_0000, 2 * PAGE_SIZE, 3, &mut frames), 0);
    assert_eq!(layout(&space), vec![(0x10000, 0x10002, perm(true, true, false, true))]);
    assert_eq!(frames.free_frames(), 6);
    let first = space.translate(VirtPageNum(0x10000)).unwrap();
    let second = space.translate(VirtPageNum(0x10001)).unwrap();
    assert_ne!(first.ppn, second.ppn);
    assert_eq!(first.perm, perm(true, true, false, true));
    assert_eq!(space.translate(VirtPageNum(0x10002)), None);
    assert_eq!(space.read_bytes(0x1000_0000, 2 * PAGE_SIZE), Some(vec![0u8; 2 * PAGE_SIZE]));
    assert_eq!(space.find_area(VirtPageNum(0x10001)), Some(0));
    assert_eq!(space.find_area(VirtPageNum(0x10002)), None);
}

#[test]
fn mmap_refuses_bad_requests_and_changes_nothing() {
    let (mut space, mut frames) = space_with(8);
    assert_eq!(space.mmap(0x1000_0000, PAGE_SIZE, 3, &mut frames), 0);
    let before = layout(&space);
    let cases: [(usize, usize, usize); 9] = [
        (0x1000_0001, PAGE_SIZE, 3),
        (0x2000_0000, PAGE_SIZE + 1, 3),
        (0x2000_0000, 0, 3),
        (0, PAGE_SIZE, 3),
        (0x2000_0000, PAGE_SIZE, 0),
        (0x2000_0000, PAGE_SIZE, 8),
        (0x2000_0000, 8 * PAGE_SIZE, 3),
        (TRAMPOLINE, PAGE_SIZE, 3),
        ((VPN_COUNT - 1) << 12, PAGE_SIZE, 1),
    ];
    for (start, len, port) in cases {
        assert_eq!(space.mmap(start, len, port, &mut frames), -1, "{start:#x} {len:#x} {port}");
        assert_eq!(layout(&space), before);
        assert_eq!(frames.free_frames(), 7);
    }
}

#[test]
fn a_second_mmap_over_a_mapped_page_is_refused() {
    let (mut space, mut frames) = space_with(16);
    assert_eq!(space.mmap(0x1000_0000, 2 * PAGE_SIZE, 3, &mut frames), 0);
    let before = layout(&space);
    let entry = space.translate(VirtPageNum(0x10001));
    assert_eq!(space.mmap(0x1000_1000, 2 * PAGE_SIZE, 1, &mut frames), -1);
    assert_eq!(space.mmap(0x0fff_f000, 2 * PAGE_SIZE, 1, &mut frames), -1);
    assert_eq!(space.mmap(0x1000_0000, 2 * PAGE_SIZE, 3, &mut frames), -1);
    assert_eq!(layout(&space), before);
    assert_eq!(space.area_count(), 1);
    assert_eq!(space.translate(VirtPageNum(0x10001)), entry);
    assert_eq!(frames.free_frames(), 14);
    assert_eq!(space.mmap(0x1000_2000, PAGE_SIZE, 1, &mut frames), 0);
    assert_eq!(space.area_count(), 2);
}

#[test]
fn mmap_then_munmap_leaves_the_areas_as_they_were() {
    let (mut space, mut frames) = space_with(16);
    assert_eq!(space.mmap(0x1000_0000, PAGE_SIZE, 1, &mut frames), 0);
    let before = layout(&space);
    assert_eq!(space.mmap(0x2000_0000, 3 * PAGE_SIZE, 3, &mut frames), 0);
    assert_eq!(frames.free_frames(), 12);
    assert_eq!(space.munmap(0x2000_0000, 3 * PAGE_SIZE, &mut frames), 0);
    assert_eq!(layout(&space), before);
    assert_eq!(frames.free_frames(), 15);
    assert_eq!(space.translate(VirtPageNum(0x20000)), None);
    assert_eq!(space.read_bytes(0x2000_0000, 1), None);
}

#[test]
fn munmap_takes_whole_areas_only() {
    let (mut space, mut frames) = space_with(16);
    assert_eq!(space.mmap(0x1000_0000, 2 * PAGE_SIZE, 3, &mut frames), 0);
    assert_eq!(space.mmap(0x1000_2000, PAGE_SIZE, 1, &mut frames), 0);
    assert_eq!(space.mmap(0x1000_4000, PAGE_SIZE, 1, &mut frames), 0);
    let before = layout(&space);
    assert_eq!(space.munmap(0x1000_0000, PAGE_SIZE, &mut frames), -1);
    assert_eq!(space.munmap(0x1000_1000, PAGE_SIZE, &mut frames), -1);
    assert_eq!(space.munmap(0x1000_1000, 2 * PAGE_SIZE, &mut frames), -1);
    assert_eq!(space.munmap(0x1000_0000, 4 * PAGE_SIZE, &mut frames), -1);
    assert_eq!(space.munmap(0x1000_2000, 3 * PAGE_SIZE, &mut frames), -1);
    assert_eq!(space.munmap(0x1000_0800, PAGE_SIZE, &mut frames), -1);
    assert_eq!(space.munmap(0x1000_0000, 0, &mut frames), -1);
    assert_eq!(space.munmap(0x3000_0000, PAGE_SIZE, &mut frames), -1);
    assert_eq!(space.munmap(TRAMPOLINE, PAGE_SIZE, &mut frames), -1);
    assert_eq!(layout(&space), before);
    assert_eq!(frames.free_frames(), 12);
    assert!(!space.can_unmap(0x10000, 0x10001));
    assert!(space.can_unmap(0x10000, 0x10003));
    assert_eq!(space.munmap(0x1000_0000, 3 * PAGE_SIZE, &mut frames), 0);
    assert_eq!(layout(&space), vec![(0x10004, 0x10005, perm(true, false, false, true))]);
    assert_eq!(frames.free_frames(), 15);
}

#[test]
fn munmap_does_not_take_areas_of_the_kernel() {
    let (mut space, mut frames) = space_with(4);
    assert!(space.insert_framed_area(
        VirtPageNum(0x30),
        VirtPageNum(0x31),
        perm(true, true, false, false),
        &mut frames
    ));
    assert_eq!(space.munmap(0x30_000, PAGE_SIZE, &mut frames), -1);
    assert_eq!(space.area_count(), 1);
}

#[test]
fn page_ranges_are_whole_pages_inside_the_address_space() {
    assert!(page_range(0x1000, 0x1000));
    assert!(page_range(0x1000, (VPN_COUNT - 1) << 12));
    assert!(!page_range(0x1000, VPN_COUNT << 12));
    assert!(!page_range(0x1001, 0x1000));
    assert!(!page_range(0x1000, 0x1001));
    assert!(!page_range(0, 0x1000));
    assert!(!page_range(0x1000, 0));
}

#[test]
fn bytes_written_are_read_back_across_pages() {
    let (mut space, mut frames) = space_with(8);
    assert_eq!(space.mmap(0x1000_0000, 2 * PAGE_SIZE, 3, &mut frames), 0);
    let data: Vec<u8> = (0..200u32).map(|i| (i % 251) as u8 + 1).collect();
    let at = 0x1000_0000 + PAGE_SIZE - 100;
    assert!(space.write_bytes(at, &data));
    assert_eq!(space.read_bytes(at, 200), Some(data.clone()));
    assert_eq!(space.read_byte(VirtPageNum(0x10000), PAGE_SIZE - 100), data[0]);
    assert_eq!(space.read_byte(VirtPageNum(0x10001), 0), data[100]);
    assert_eq!(space.read_bytes(at - 1, 1), Some(vec![0]));
    assert_eq!(space.read_bytes(at + 200, 1), Some(vec![0]));
    assert_eq!(space.read_bytes(at, 0), Some(vec![]));
}

#[test]
fn access_needs_the_whole_range_and_the_permission() {
    let (mut space, mut frames) = space_with(8);
    assert_eq!(space.mmap(0x1000_0000, PAGE_SIZE, 1, &mut frames), 0);
    assert_eq!(space.mmap(0x1000_1000, PAGE_SIZE, 2, &mut frames), 0);
    assert!(space.can_access(0x1000_0000, PAGE_SIZE, user_read()));
    assert!(!space.can_access(0x1000_0000, PAGE_SIZE + 1, user_read()));
    assert!(!space.can_access(0x1000_0000, 1, user_write()));
    assert!(space.can_access(0x1000_1000, PAGE_SIZE, user_write()));
    assert!(!space.can_access(0x1000_1fff, 2, user_write()));
    assert!(!space.can_access(usize::MAX, 2, user_read()));
    assert!(!space.can_access(TRAMPOLINE, 1, user_read()));
    assert!(!space.write_bytes(0x1000_0ffe, &vec![1, 2, 3, 4]));
    assert_eq!(space.read_bytes(0x1000_0ffe, 2), Some(vec![0, 0]));
    assert_eq!(space.read_bytes(0x1000_0ffe, 3), None);
    assert!(space.write_bytes(0x1000_1000, &vec![1, 2, 3, 4]));
    assert_eq!(space.read_byte(VirtPageNum(0x10001), 3), 4);
}

#[test]
fn a_refused_write_changes_no_byte() {
    let (mut space, mut frames) = space_with(8);
    assert_eq!(space.mmap(0x1000_0000, PAGE_SIZE, 3, &mut frames), 0);
    assert!(space.write_bytes(0x1000_0ff0, &vec![9; 16]));
    assert!(!space.write_bytes(0x1000_0ff8, &vec![7; 16]));
    assert_eq!(space.read_bytes(0x1000_0ff0, 16), Some(vec![9; 16]));
}

#[test]
fn translation_gives_the_frame_and_the_offset() {
    let (mut space, mut frames) = space_with(8);
    assert_eq!(space.mmap(0x1000_0000, PAGE_SIZE, 1, &mut frames), 0);
    let entry = space.translate(VirtPageNum(0x10000)).unwrap();
    assert_eq!(
        space.translate_va(VirtAddr(0x1000_0abc), user_read()),
        Some(PhysAddr(entry.ppn.0 * PAGE_SIZE + 0xabc))
    );
    assert_eq!(space.translate_va(VirtAddr(0x1000_0abc), user_write()), None);
    assert_eq!(space.translate_va(VirtAddr(0x1000_1abc), user_read()), None);
}

#[test]
fn a_buffer_is_one_run_for_each_page() {
    let (mut space, mut frames) = space_with(8);
    assert_eq!(space.mmap(0x1000_0000, 3 * PAGE_SIZE, 3, &mut frames), 0);
    let ppn = |vpn: usize| space.translate(VirtPageNum(vpn)).unwrap().ppn.0;
    let runs = space.translated_byte_buffer(0x1000_0f00, PAGE_SIZE + 0x200, user_read()).unwrap();
    assert_eq!(
        runs,
        vec![
            PhysRun { start: PhysAddr(ppn(0x10000) * PAGE_SIZE + 0xf00), len: 0x100 },
            PhysRun { start: PhysAddr(ppn(0x10001) * PAGE_SIZE), len: PAGE_SIZE },
            PhysRun { start: PhysAddr(ppn(0x10002) * PAGE_SIZE), len: 0x100 },
        ]
    );
    assert_eq!(space.translated_byte_buffer(0x1000_0000, 0, user_read()), Some(vec![]));
    assert_eq!(space.translated_byte_buffer(0x1000_2000, PAGE_SIZE + 1, user_read()), None);
}

#[test]
fn a_string_ends_at_its_zero_byte() {
    let (mut space, mut frames) = space_with(8);
    assert_eq!(space.mmap(0x1000_0000, 2 * PAGE_SIZE, 3, &mut frames), 0);
    assert!(space.write_bytes(0x1000_0ffd, &b"hello\0world".to_vec()));
    assert_eq!(space.translated_str(0x1000_0ffd), Some(b"hello".to_vec()));
    assert_eq!(space.translated_str(0x1000_1002), Some(vec![]));
    assert_eq!(space.translated_str(0x1000_1003), Some(b"world".to_vec()));
    assert!(space.write_bytes(0x1000_1ffe, &vec![b'a', b'b']));
    assert_eq!(space.translated_str(0x1000_1ffe), None);
    assert_eq!(space.translated_str(0x3000_0000), None);
}

#[test]
fn numbers_are_written_lowest_byte_first() {
    assert_eq!(to_le_bytes(0x1234_5678, 4), vec![0x78, 0x56, 0x34, 0x12]);
    assert_eq!(to_le_bytes(0x0102, 8), vec![2, 1, 0, 0, 0, 0, 0, 0]);
    assert_eq!(to_le_bytes(0x1_0000_00ff, 4), vec![0xff, 0, 0, 0]);
    assert_eq!(to_le_bytes(7, 0), Vec::<u8>::new());
    assert_eq!(i32_bits(0), 0);
    assert_eq!(i32_bits(5), 5);
    assert_eq!(i32_bits(-1), 0xffff_ffff);
    assert_eq!(i32_bits(i32::MIN), 0x8000_0000);
    assert_eq!(to_le_bytes(i32_bits(-2) as u64, 4), (-2i32).to_le_bytes().to_vec());
}

fn sample_image() -> ProgramImage {
    ProgramImage {
        entry: 0x10004,
        segments: vec![
            Segment {
                start: 0x10000,
                size: 0x1800,
                perm: perm(true, false, true, false),
                data: vec![0xaa; 0x1100],
            },
            Segment { start: 0x12000, size: 0x10, perm: perm(true, true, false, false), data: vec![1, 2, 3] },
        ],
    }
}

#[test]
fn a_valid_image_passes_the_check() {
    assert!(sample_image().check());
    assert_eq!(sample_image().page_demand(), 2 + 1 + 2 + 1);
}

#[test]
fn an_image_that_is_not_valid_fails_the_check() {
    let mut empty = sample_image();
    empty.segments.clear();
    assert!(!empty.check());
    let mut unaligned = sample_image();
    unaligned.segments[0].start = 0x10010;
    assert!(!unaligned.check());
    let mut sizeless = sample_image();
    sizeless.segments[1].size = 0;
    sizeless.segments[1].data.clear();
    assert!(!sizeless.check());
    let mut overfull = sample_image();
    overfull.segments[1].data = vec![0; 0x11];
    assert!(!overfull.check());
    let mut overlapping = sample_image();
    overlapping.segments[1].start = 0x11000;
    assert!(!overlapping.check());
    let mut unordered = sample_image();
    unordered.segments.swap(0, 1);
    assert!(!unordered.check());
    let mut astray = sample_image();
    astray.entry = 0x12000;
    assert!(!astray.check());
    let mut outside = sample_image();
    outside.entry = 0x11800;
    assert!(!outside.check());
    let mut high = sample_image();
    high.segments[1].start = (VPN_COUNT - 4) << 12;
    assert!(!high.check());
    let mut huge = sample_image();
    huge.segments[1].size = usize::MAX;
    assert!(!huge.check());
}

#[test]
fn an_image_is_loaded_with_stack_heap_and_trap_context() {
    let mut frames = FrameAllocator::new(0x100, 0x110);
    let (space, user_sp) = MemorySet::from_image(&sample_image(), TRAMPOLINE_FRAME, &mut frames).unwrap();
    assert_eq!(frames.free_frames(), 10);
    assert_eq!(user_sp, 0x16000);
    let user_data = perm(true, true, false, true);
    assert_eq!(
        layout(&space),
        vec![
            (0x10, 0x12, perm(true, false, true, true)),
            (0x12, 0x13, user_data),
            (0x14, 0x16, user_data),
            (0x16, 0x16, user_data),
            (VPN_COUNT - 2, VPN_COUNT - 1, perm(true, true, false, false)),
        ]
    );
    assert_eq!(space.read_bytes(0x10000, 0x1100), Some(vec![0xaa; 0x1100]));
    assert_eq!(space.read_bytes(0x11100, 0xf00), Some(vec![0; 0xf00]));
    assert_eq!(space.read_bytes(0x12000, 5), Some(vec![1, 2, 3, 0, 0]));
    assert_eq!(space.read_bytes(0x13000, 1), None);
    assert_eq!(space.read_bytes(0x14000, 0x2000), Some(vec![0; 0x2000]));
    assert_eq!(space.read_bytes(0x16000, 1), None);
    assert_eq!(space.read_bytes(TRAP_CONTEXT_BASE, 1), None);
    assert!(!space.can_access(0x10000, 1, user_write()));
    assert_eq!(space.find_area_at(0x16), Some(3));
    assert_eq!(space.find_area_at(0x17), None);
    assert!(space.fits(6));
    assert!(!space.fits(5));
}

#[test]
fn an_image_is_not_loaded_without_frames_for_all_of_it() {
    let mut frames = FrameAllocator::new(0x100, 0x105);
    assert!(MemorySet::from_image(&sample_image(), TRAMPOLINE_FRAME, &mut frames).is_none());
    assert_eq!(frames.free_frames(), 5);
    assert_eq!(frames.frame_alloc(), Some(PhysPageNum(0x100)));
    let mut bad = sample_image();
    bad.entry = 0;
    let mut plenty = FrameAllocator::new(0x100, 0x200);
    assert!(MemorySet::from_image(&bad, TRAMPOLINE_FRAME, &mut plenty).is_none());
    assert_eq!(plenty.free_frames(), 0x100);
}

#[test]
fn a_copy_of_a_space_has_the_same_bytes_in_other_frames() {
    let mut frames = FrameAllocator::new(0x100, 0x120);
    let (mut parent, _) = MemorySet::from_image(&sample_image(), TRAMPOLINE_FRAME, &mut frames).unwrap();
    assert!(parent.write_bytes(0x14010, &vec![5, 6, 7]));
    let mut child = MemorySet::from_existed_user(&parent, &mut frames).unwrap();
    assert_eq!(frames.free_frames(), 0x20 - 12);
    assert_eq!(layout(&child), layout(&parent));
    assert_eq!(child.read_bytes(0x14010, 3), Some(vec![5, 6, 7]));
    assert_eq!(child.read_bytes(0x10000, 0x1100), Some(vec![0xaa; 0x1100]));
    for vpn in [0x10usize, 0x11, 0x12, 0x14, 0x15, VPN_COUNT - 2] {
        let a = parent.translate(VirtPageNum(vpn)).unwrap();
        let b = child.translate(VirtPageNum(vpn)).unwrap();
        assert_ne!(a.ppn, b.ppn);
        assert_eq!(a.perm, b.perm);
    }
    assert_eq!(child.trampoline(), parent.trampoline());
    assert!(child.write_bytes(0x14010, &vec![9]));
    assert_eq!(parent.read_bytes(0x14010, 1), Some(vec![5]));
    assert_eq!(child.mmap(0x2000_0000, PAGE_SIZE, 3, &mut frames), 0);
    assert_eq!(parent.area_count(), 5);
    assert_eq!(child.area_count(), 6);
    assert_eq!(parent.mmap(0x3000_0000, PAGE_SIZE, 3, &mut frames), 0);
    assert_eq!(child.translate(VirtPageNum(0x30000)), None);
}

#[test]
fn a_copy_needs_a_frame_for_each_page() {
    let mut frames = FrameAllocator::new(0x100, 0x10b);
    let (parent, _) = MemorySet::from_image(&sample_image(), TRAMPOLINE_FRAME, &mut frames).unwrap();
    assert_eq!(frames.free_frames(), 5);
    assert!(MemorySet::from_existed_user(&parent, &mut frames).is_none());
    assert_eq!(frames.free_frames(), 5);
}

#[test]
fn recycling_gives_every_frame_back() {
    let mut frames = FrameAllocator::new(0x100, 0x110);
    let (mut space, _) = MemorySet::from_image(&sample_image(), TRAMPOLINE_FRAME, &mut frames).unwrap();
    space.recycle_data_pages(&mut frames);
    assert_eq!(frames.free_frames(), 16);
    assert_eq!(space.area_count(), 0);
    assert_eq!(space.translate(VirtPageNum(0x10)), None);
    assert!(space.translate(VirtAddr(TRAMPOLINE).floor()).is_some());
}

#[test]
fn an_area_is_resized_by_whole_pages() {
    let (mut space, mut frames) = space_with(8);
    assert!(space.insert_framed_area(VirtPageNum(0x20), VirtPageNum(0x20), perm(true, true, false, true), &mut frames));
    assert!(space.insert_framed_area(VirtPageNum(0x24), VirtPageNum(0x25), perm(true, true, false, true), &mut frames));
    assert!(space.resize_area(0, VirtPageNum(0x23), &mut frames));
    assert_eq!(space.area(0), (0x20, 0x23, perm(true, true, false, true)));
    assert_eq!(frames.free_frames(), 4);
    assert!(space.write_bytes(0x22000, &vec![1]));
    assert!(!space.resize_area(0, VirtPageNum(0x25), &mut frames));
    assert!(!space.resize_area(0, VirtPageNum(0x1f), &mut frames));
    assert!(!space.resize_area(0, VirtPageNum(VPN_COUNT + 1), &mut frames));
    assert_eq!(space.area(0), (0x20, 0x23, perm(true, true, false, true)));
    assert!(space.resize_area(0, VirtPageNum(0x24), &mut frames));
    assert!(space.resize_area(0, VirtPageNum(0x21), &mut frames));
    assert_eq!(frames.free_frames(), 6);
    assert_eq!(space.read_bytes(0x22000, 1), None);
    assert!(space.resize_area(0, VirtPageNum(0x23), &mut frames));
    assert_eq!(space.read_bytes(0x22000, 1), Some(vec![0]));
    assert!(space.is_range_free(0x25, 0x30));
    assert!(!space.is_range_free(0x22, 0x30));
    assert!(space.is_range_free(0x30, 0x30));
}

#[test]
fn pages_are_stored_and_loaded_whole() {
    let (mut space, mut frames) = space_with(8);
    assert!(space.insert_framed_area(VirtPageNum(0x20), VirtPageNum(0x22), perm(true, false, false, true), &mut frames));
    space.store_page(VirtPageNum(0x21), vec![3; PAGE_SIZE]);
    assert_eq!(space.load_page(VirtPageNum(0x21)), vec![3; PAGE_SIZE]);
    assert_eq!(space.load_page(VirtPageNum(0x20)), vec![0; PAGE_SIZE]);
    space.load_bytes(VirtPageNum(0x20), &vec![8; PAGE_SIZE + 2]);
    assert_eq!(space.read_byte(VirtPageNum(0x20), 0), 8);
    assert_eq!(space.read_byte(VirtPageNum(0x21), 1), 8);
    assert_eq!(space.read_byte(VirtPageNum(0x21), 2), 3);
    space.write_byte(VirtPageNum(0x21), 2, 4);
    assert_eq!(space.read_byte(VirtPageNum(0x21), 2), 4);
    space.remove_area(0, &mut frames);
    assert_eq!(space.area_count(), 0);
    assert_eq!(frames.free_frames(), 8);
}
