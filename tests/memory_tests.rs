use kernel::address::{FrameNumber, PageNumber, PageRange, PhysicalAddress, VirtualAddress};
use kernel::frame_allocator::{allocate_frame, deallocate_frame, init_frame, StackFrameAllocator};
use kernel::memory::PhysicalMemory;
use kernel::page_table::{PageTable, PageTableEntry, PTE_COW, PTE_R, PTE_V, PTE_W, PTE_X};

fn machine(frames: u64) -> (StackFrameAllocator, PhysicalMemory) {
    let memory = PhysicalMemory::new(FrameNumber { bits: 0x80200 }, frames);
    let mut allocator = StackFrameAllocator::new();
    allocator.init(FrameNumber { bits: 0x80200 }, FrameNumber { bits: 0x80200 + frames });
    (allocator, memory)
}

#[test]
fn virtual_page_round_trip() {
    for bits in [0u64, 0x1000, 0x8020_0000, 0x3f_ffff_f000, 0xffff_ffc0_0000_0000, 0xffff_ffff_ffef_f000, 0xffff_ffff_ffff_f000] {
        let address = VirtualAddress::new(bits);
        let page = address.floor();
        assert_eq!(VirtualAddress::from_page(page).bits, bits);
    }
}

#[test]
fn virtual_address_floor_ceil() {
    let address = VirtualAddress::new(0x1001);
    assert_eq!(address.floor().bits, 1);
    assert_eq!(address.ceil().bits, 2);
    assert_eq!(address.page_offset(), 1);
    assert!(!address.is_aligned());
    assert_eq!(VirtualAddress::new(0x2000).ceil().bits, 2);
    assert_eq!(VirtualAddress::new(0xffff_ffff_ffff_f000).floor().bits, 0x7ff_ffff);
    assert_eq!(VirtualAddress::new(0xffff_ffff_ffef_f000).floor().bits, 0x7ff_feff);
}

#[test]
fn non_canonical_address_refused() {
    assert!(VirtualAddress::try_new(0x40_0000_0000).is_none());
    assert!(VirtualAddress::try_new(0xffff_ff80_0000_0000).is_none());
    assert!(VirtualAddress::try_new(0x3f_ffff_ffff).is_some());
    assert!(VirtualAddress::try_new(0xffff_ffc0_0000_0000).is_some());
    assert!(VirtualAddress::new(0x1000).add(u64::MAX).is_none());
}

#[test]
fn physical_address_floor_ceil() {
    let address = PhysicalAddress::new(0x8020_0001);
    assert_eq!(address.floor().bits, 0x80200);
    assert_eq!(address.ceil().bits, 0x80201);
    assert_eq!(address.page_offset(), 1);
    assert!(PhysicalAddress::new(0x8020_0000).is_aligned());
    assert_eq!(PhysicalAddress::new(u64::MAX).bits, 0xff_ffff_ffff_ffff);
    assert_eq!(PhysicalAddress::from_frame(FrameNumber { bits: 0x80200 }).bits, 0x8020_0000);
    assert_eq!(FrameNumber::from_address(PhysicalAddress::new(0x8020_0000)).bits, 0x80200);
    assert_eq!(PhysicalAddress::new(0x10).add(0x20).bits, 0x30);
}

#[test]
fn frame_and_page_numbers_wrap() {
    assert_eq!(FrameNumber::new(u64::MAX).bits, 0xfff_ffff_ffff);
    assert_eq!(FrameNumber { bits: 0xfff_ffff_ffff }.offset(1).bits, 0);
    assert_eq!(PageNumber::new(0x800_0001).bits, 1);
    assert_eq!(PageNumber { bits: 0x7ff_ffff }.offset(1).bits, 0);
}

#[test]
fn page_index_splits_nine_bits() {
    let page = PageNumber { bits: (3 << 18) | (5 << 9) | 7 };
    assert_eq!(page.index(), [3, 5, 7]);
    assert_eq!(PageNumber { bits: 0x7ff_ffff }.index(), [511, 511, 511]);
}

#[test]
fn page_range_iterates_in_order() {
    let range = PageRange::new(PageNumber { bits: 4 }, PageNumber { bits: 7 });
    assert_eq!(range.len(), 3);
    let mut iterator = range.iter();
    let mut seen = Vec::new();
    while let Some(page) = iterator.next() {
        seen.push(page.bits);
    }
    assert_eq!(seen, vec![4, 5, 6]);
}

#[test]
fn allocator_hands_out_returned_frames_first() {
    let mut allocator = init_frame(PhysicalAddress::new(0x8020_0001));
    assert_eq!(allocator.frame_start, 0x80201);
    assert_eq!(allocator.frame_end, 0x81000);
    let first = allocator.allocate().unwrap();
    let second = allocator.allocate().unwrap();
    assert_eq!(first.bits, 0x80201);
    assert_eq!(second.bits, 0x80202);
    allocator.deallocate(first);
    assert!(!allocator.owns(first));
    assert!(allocator.owns(second));
    assert_eq!(allocator.allocate().unwrap().bits, 0x80201);
    assert_eq!(allocator.allocate().unwrap().bits, 0x80203);
}

#[test]
fn allocator_runs_out() {
    let mut allocator = StackFrameAllocator::new();
    allocator.init(FrameNumber { bits: 10 }, FrameNumber { bits: 12 });
    assert!(allocator.has_frames(2));
    assert!(!allocator.has_frames(3));
    assert!(allocator.allocate().is_some());
    assert!(allocator.allocate().is_some());
    assert!(allocator.allocate().is_none());
}

#[test]
fn allocated_frames_are_zeroed_and_tracked() {
    let (mut allocator, mut memory) = machine(4);
    memory.write_byte(FrameNumber { bits: 0x80200 }, 5, 0xAA);
    let tracker = allocate_frame(&mut allocator, &mut memory).unwrap();
    assert_eq!(tracker.frame_number().bits, 0x80200);
    assert_eq!(memory.read_byte(tracker.frame_number(), 5), 0);
    assert!(allocator.owns(tracker.frame_number()));
    deallocate_frame(&mut allocator, tracker.frame_number());
    assert!(!allocator.owns(tracker.frame_number()));
}

#[test]
fn memory_copies_and_writes_frames() {
    let mut memory = PhysicalMemory::new(FrameNumber { bits: 100 }, 2);
    memory.write_bytes(FrameNumber { bits: 100 }, 10, &[1, 2, 3]);
    memory.copy_frame(FrameNumber { bits: 101 }, FrameNumber { bits: 100 });
    assert_eq!(memory.read_byte(FrameNumber { bits: 101 }, 11), 2);
    memory.zero_frame(FrameNumber { bits: 100 });
    assert_eq!(memory.read_byte(FrameNumber { bits: 100 }, 11), 0);
    assert!(memory.contains_frame(FrameNumber { bits: 101 }));
    assert!(!memory.contains_frame(FrameNumber { bits: 102 }));
}

#[test]
fn page_table_entry_fields() {
    let entry = PageTableEntry::new(FrameNumber { bits: 0x80200 }, PTE_V | PTE_R | PTE_W);
    assert_eq!(entry.bits, (0x80200 << 10) | 7);
    assert_eq!(entry.frame_number().bits, 0x80200);
    assert_eq!(entry.flags(), 7);
    assert!(entry.is_valid() && entry.is_readable() && entry.is_writable());
    assert!(!entry.is_executable() && !entry.is_cow());
    let cow = PageTableEntry::new(FrameNumber { bits: 1 }, PTE_V | PTE_COW | PTE_X);
    assert!(cow.is_cow() && cow.is_executable() && !cow.is_writable());
    assert!(!PageTableEntry::empty().is_valid());
}

#[test]
fn map_then_translate() {
    let (mut allocator, mut memory) = machine(8);
    let mut table = PageTable::new(&mut allocator, &mut memory).unwrap();
    assert_eq!(table.satp(), 0x8000_0000_0008_0200);
    let page = PageNumber { bits: 0x12345 };
    assert!(table.map(page, FrameNumber { bits: 0x80207 }, PTE_R | PTE_W, &mut allocator, &mut memory));
    let entry = table.translate_page(page).unwrap();
    assert_eq!(entry.frame_number().bits, 0x80207);
    assert_eq!(entry.flags(), PTE_V | PTE_R | PTE_W);
    assert!(table.translate_page(PageNumber { bits: 0x12346 }).is_none());
    let address = VirtualAddress::new(0x1234_5678);
    assert_eq!(table.translate(address).unwrap().bits, 0x8020_7678);
    assert_eq!(table.frame_list.len(), 3);
}

#[test]
fn map_unmap_translate_none() {
    let (mut allocator, mut memory) = machine(8);
    let mut table = PageTable::new(&mut allocator, &mut memory).unwrap();
    let page = PageNumber { bits: 42 };
    let other = PageNumber { bits: 43 };
    assert!(table.map(page, FrameNumber { bits: 1 }, PTE_R, &mut allocator, &mut memory));
    assert!(table.map(other, FrameNumber { bits: 2 }, PTE_R, &mut allocator, &mut memory));
    table.unmap(page);
    assert!(table.translate_page(page).is_none());
    assert_eq!(table.translate_page(other).unwrap().frame_number().bits, 2);
}

#[test]
fn map_without_frames_for_tables_fails() {
    let (mut allocator, mut memory) = machine(2);
    let mut table = PageTable::new(&mut allocator, &mut memory).unwrap();
    let page = PageNumber { bits: 7 };
    assert!(!table.map(page, FrameNumber { bits: 1 }, PTE_R, &mut allocator, &mut memory));
    assert!(table.translate_page(page).is_none());
}

#[test]
fn remap_replaces_entry() {
    let (mut allocator, mut memory) = machine(8);
    let mut table = PageTable::new(&mut allocator, &mut memory).unwrap();
    let page = PageNumber { bits: 9 };
    assert!(table.map(page, FrameNumber { bits: 1 }, PTE_R, &mut allocator, &mut memory));
    table.remap(page, FrameNumber { bits: 5 }, PTE_R | PTE_W);
    let entry = table.translate_page(page).unwrap();
    assert_eq!(entry.frame_number().bits, 5);
    assert!(entry.is_writable());
}
