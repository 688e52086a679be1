use soos::bump::SoosAllocator;
use soos::frame_bitmap::SoosFrameAllocator;
use soos::memmap::{MemmapEntry, MemmapEntryType, SoosMemmap};
use soos::paging::{
    entry_mapping_plan, keep_mapping, kernel_mapping_plan, KernelFrameAllocator, PageMapping, PageSize, Translation,
    KERNEL_FRAME_MAPPING_ADDRESS,
};

fn entry(base: u64, len: u64, type_: MemmapEntryType) -> MemmapEntry {
    MemmapEntry { base, len, type_ }
}

#[test]
fn memmap_type_codes() {
    assert_eq!(MemmapEntryType::from_u64(0), Some(MemmapEntryType::Usable));
    assert_eq!(MemmapEntryType::from_u64(6), Some(MemmapEntryType::KernelAndModules));
    assert_eq!(MemmapEntryType::from_u64(7), Some(MemmapEntryType::Framebuffer));
    assert_eq!(MemmapEntryType::from_u64(8), None);
}

#[test]
fn memmap_lists_entries_and_usable_ranges() {
    let entries = [
        entry(0x1000, 0x9000, MemmapEntryType::Usable),
        entry(0xA000, 0x1000, MemmapEntryType::Reserved),
        entry(0x10_0000, 0x20_0000, MemmapEntryType::Usable),
    ];
    let memmap = SoosMemmap::from_entries(&entries);
    assert_eq!(memmap.iter(), entries.to_vec());
    assert_eq!(memmap.iter_usable_addresses(), vec![0x1000..0xA000, 0x10_0000..0x30_0000]);
}

#[test]
fn bump_allocator_takes_the_longest_usable_entry() {
    let mut allocator = SoosAllocator::new();
    allocator.load_limine_memmap(&[
        entry(0x1000, 0x2_0000, MemmapEntryType::Usable),
        entry(0x10_0000, 0x100_0000, MemmapEntryType::Reserved),
        entry(0x20_0000, 0x8_0000, MemmapEntryType::Usable),
        entry(0x40_0000, 0x8_0000, MemmapEntryType::Usable),
    ]);
    // two usable entries of the same greatest length: the later one
    assert_eq!(allocator.longest_usable_base(), Some(0x40_0000));
    assert_eq!(allocator.allocate(16), 0x40_0000);
    assert_eq!(allocator.allocate(32), 0x40_0010);
    assert_eq!(allocator.allocate(1), 0x40_0030);
}

#[test]
fn bump_allocator_keeps_the_default_slots() {
    // the slots after the loaded entries still hold 64 KiB usable at 0x1000
    let mut allocator = SoosAllocator::new();
    assert_eq!(allocator.longest_usable_base(), Some(0x1000));
    allocator.load_limine_memmap(&[entry(0x50_0000, 0x8000, MemmapEntryType::Usable)]);
    assert_eq!(allocator.allocate(8), 0x1000);
}

#[test]
fn bump_allocator_without_usable_memory() {
    let mut allocator = SoosAllocator::new();
    let reserved: Vec<MemmapEntry> = (0..64).map(|i| entry(i * 0x1000, 0x1000, MemmapEntryType::Reserved)).collect();
    allocator.load_limine_memmap(&reserved);
    assert_eq!(allocator.longest_usable_base(), None);
}

#[test]
fn mapping_plan_uses_the_largest_pages() {
    // 2 MiB aligned start, 2 MiB + 8 KiB long: one 2 MiB page, two 4 KiB pages
    let plan = entry_mapping_plan(&entry(0x20_0000, 0x20_2000, MemmapEntryType::Usable));
    assert_eq!(
        plan,
        vec![
            PageMapping { phys: 0x20_0000, virt: KERNEL_FRAME_MAPPING_ADDRESS + 0x20_0000, size: PageSize::Size2MiB },
            PageMapping { phys: 0x40_0000, virt: KERNEL_FRAME_MAPPING_ADDRESS + 0x40_0000, size: PageSize::Size4KiB },
            PageMapping { phys: 0x40_1000, virt: KERNEL_FRAME_MAPPING_ADDRESS + 0x40_1000, size: PageSize::Size4KiB },
        ]
    );
    let gib = entry_mapping_plan(&entry(0x4000_0000, 0x4000_0000, MemmapEntryType::KernelAndModules));
    assert_eq!(gib.len(), 1);
    assert_eq!(gib[0].size, PageSize::Size1GiB);
    assert_eq!(gib[0].size.size(), 0x4000_0000);
    assert!(entry_mapping_plan(&entry(0x1000, 0, MemmapEntryType::Usable)).is_empty());
}

#[test]
fn kernel_mapping_plan_skips_other_entries() {
    let memmap = SoosMemmap::from_entries(&[
        entry(0x1000, 0x1000, MemmapEntryType::Usable),
        entry(0x2000, 0x1000, MemmapEntryType::Reserved),
        entry(0x8000, 0x2000, MemmapEntryType::KernelAndModules),
    ]);
    let phys: Vec<u64> = kernel_mapping_plan(&memmap).iter().map(|m| m.phys).collect();
    assert_eq!(phys, vec![0x1000, 0x8000, 0x9000]);
}

#[test]
fn frame_allocator_hands_out_and_takes_back() {
    let memmap = SoosMemmap::from_entries(&[
        entry(0x10_0000, 0x4000, MemmapEntryType::Usable),
        entry(0x20_0000, 0x2000, MemmapEntryType::KernelAndModules),
    ]);
    let mut frames = KernelFrameAllocator::init(&memmap);
    assert!(!frames.is_used(0x10_0000));
    assert_eq!(frames.allocate_frame(), Some(0x10_0000));
    assert!(frames.is_used(0x10_0000));
    assert_eq!(frames.allocate_frame(), Some(0x10_1000));
    assert_eq!(frames.allocate_frame(), Some(0x10_2000));
    frames.deallocate_frame(0x10_0000);
    assert!(!frames.is_used(0x10_0000));
    assert_eq!(frames.allocate_frame(), Some(0x10_3000));
    // nothing free after the resumed position: the search starts over
    assert_eq!(frames.allocate_frame(), Some(0x10_0000));
    let (allocated, used, total) = frames.stats();
    assert_eq!((allocated, used, total), (4, 4, 8 * 1048576));
}

#[test]
fn frame_allocator_knows_when_a_frame_is_free() {
    let memmap = SoosMemmap::from_entries(&[entry(0x10_0000, 0x2000, MemmapEntryType::Usable)]);
    let mut frames = KernelFrameAllocator::init(&memmap);
    assert!(frames.has_free_frame());
    assert_eq!(frames.allocate_frame(), Some(0x10_0000));
    assert!(frames.has_free_frame());
    assert_eq!(frames.allocate_frame(), Some(0x10_1000));
    assert!(!frames.has_free_frame());
    frames.deallocate_frame(0x10_1000);
    assert!(frames.has_free_frame());
}

#[test]
fn kept_pages_are_those_at_the_start_of_a_frame() {
    assert_eq!(keep_mapping(Translation::NotMapped), None);
    assert_eq!(keep_mapping(Translation::Mapped { size: PageSize::Size4KiB, offset: 0 }), Some(PageSize::Size4KiB));
    assert_eq!(keep_mapping(Translation::Mapped { size: PageSize::Size2MiB, offset: 0 }), Some(PageSize::Size2MiB));
    assert_eq!(keep_mapping(Translation::Mapped { size: PageSize::Size2MiB, offset: 0x1000 }), None);
    assert_eq!(keep_mapping(Translation::Mapped { size: PageSize::Size4KiB, offset: 0x10 }), None);
    assert_eq!(keep_mapping(Translation::Mapped { size: PageSize::Size1GiB, offset: 0x20_0000 }), None);
}

#[test]
fn frame_allocator_marks_kernel_frames() {
    let memmap = SoosMemmap::from_entries(&[
        entry(0x10_0000, 0x4000, MemmapEntryType::Usable),
        entry(0x20_0000, 0x20_0000, MemmapEntryType::KernelAndModules),
    ]);
    let mut frames = KernelFrameAllocator::init(&memmap);
    frames.mark_frame(0x20_0000, 0x20_0000, true);
    assert!(frames.is_used(0x20_0000));
    assert!(frames.is_used(0x3F_F000));
    let (_, used, _) = frames.stats();
    assert_eq!(used, 512);
    frames.mark_frame(0x20_0000, 0x20_0000, false);
    assert!(!frames.is_used(0x3F_F000));
}

#[test]
fn bitmap_allocator_steps_through_usable_addresses() {
    // 6 KiB of usable memory, then 8 KiB: the candidates are every 4096th
    // usable address, 0x10_0000, 0x10_1000, 0x20_0800 and 0x20_1800
    let memmap = SoosMemmap::from_entries(&[
        entry(0x10_0000, 0x1800, MemmapEntryType::Usable),
        entry(0x18_0000, 0x1000, MemmapEntryType::Reserved),
        entry(0x20_0000, 0x2000, MemmapEntryType::Usable),
    ]);
    let mut frames = SoosFrameAllocator::init_with_current_pagetable(memmap, &[0x10_0000]);
    assert_eq!(frames.allocate_frame(), Some(0x10_1000));
    // the next search skips 0x101 candidates, finds nothing and starts over
    assert_eq!(frames.allocate_frame(), Some(0x20_0000));
    assert_eq!(frames.allocate_frame(), Some(0x20_1000));
    frames.deallocate_frame(0x10_1234);
    assert_eq!(frames.allocate_frame(), Some(0x10_1000));
    frames.deallocate_frame(0x10_0000);
    assert_eq!(frames.allocate_frame(), Some(0x10_0000));
}
