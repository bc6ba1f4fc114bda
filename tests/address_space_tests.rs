use kernel::address::{FrameNumber, PageNumber, VirtualAddress};
use kernel::frame_allocator::StackFrameAllocator;
use kernel::memory::PhysicalMemory;
use kernel::page_set::{ElfError, KernelLayout, PageSet, TRAMPOLINE_PAGE, TRAP_CONTEXT_PAGE};
use kernel::segment::{MapType, PageSegment, MAP_R, MAP_U, MAP_W, MAP_X};
use kernel::user_ptr::{get_bin, UserPtr};

const TRAMPOLINE_FRAME: FrameNumber = FrameNumber { bits: 0x80100 };

fn machine(frames: u64) -> (StackFrameAllocator, PhysicalMemory) {
    let memory = PhysicalMemory::new(FrameNumber { bits: 0x80200 }, frames);
    let mut allocator = StackFrameAllocator::new();
    allocator.init(FrameNumber { bits: 0x80200 }, FrameNumber { bits: 0x80200 + frames });
    (allocator, memory)
}

fn free_frames(allocator: &StackFrameAllocator) -> u64 {
    allocator.deallocated_page.len() as u64 + allocator.frame_end - allocator.frame_start
}

fn push_u16(v: &mut Vec<u8>, x: u16) {
    v.extend_from_slice(&x.to_le_bytes());
}

fn push_u32(v: &mut Vec<u8>, x: u32) {
    v.extend_from_slice(&x.to_le_bytes());
}

fn push_u64(v: &mut Vec<u8>, x: u64) {
    v.extend_from_slice(&x.to_le_bytes());
}

/// An ELF64 image with one loadable segment per entry of `segments`: (vaddr, flags, bytes, memsz).
fn elf_image(entry: u64, segments: &[(u64, u32, Vec<u8>, u64)]) -> Vec<u8> {
    let mut v = vec![0x7f, b'E', b'L', b'F', 2, 1, 1, 0, 0, 0, 0, 0, 0, 0, 0, 0];
    push_u16(&mut v, 2);
    push_u16(&mut v, 0xf3);
    push_u32(&mut v, 1);
    push_u64(&mut v, entry);
    push_u64(&mut v, 64);
    push_u64(&mut v, 0);
    push_u32(&mut v, 0);
    push_u16(&mut v, 64);
    push_u16(&mut v, 56);
    push_u16(&mut v, segments.len() as u16);
    push_u16(&mut v, 64);
    push_u16(&mut v, 0);
    push_u16(&mut v, 0);
    let mut offset = 64 + 56 * segments.len() as u64;
    for (vaddr, flags, bytes, memsz) in segments {
        push_u32(&mut v, 1);
        push_u32(&mut v, *flags);
        push_u64(&mut v, offset);
        push_u64(&mut v, *vaddr);
        push_u64(&mut v, *vaddr);
        push_u64(&mut v, bytes.len() as u64);
        push_u64(&mut v, *memsz);
        push_u64(&mut v, 0x1000);
        offset += bytes.len() as u64;
    }
    for (_, _, bytes, _) in segments {
        v.extend_from_slice(bytes);
    }
    v
}

fn user_program() -> Vec<u8> {
    elf_image(0x10000, &[(0x10000, 5, vec![0x13, 0, 0, 0, 0x73, 0, 0x10, 0x10], 0x1000), (0x11000, 6, vec![0xAB; 10], 0x2000)])
}

fn byte_at(set: &PageSet, memory: &PhysicalMemory, address: u64) -> u8 {
    UserPtr::new(address).as_buffer(set, memory, 1).unwrap()[0]
}

#[test]
fn new_space_maps_only_the_trampoline() {
    let (mut allocator, mut memory) = machine(8);
    let set = PageSet::new(TRAMPOLINE_FRAME, &mut allocator, &mut memory).unwrap();
    let entry = set.translate(PageNumber { bits: TRAMPOLINE_PAGE }).unwrap();
    assert_eq!(entry.frame_number().bits, 0x80100);
    assert!(entry.is_readable() && entry.is_executable() && !entry.is_writable());
    assert!(set.translate(PageNumber { bits: TRAP_CONTEXT_PAGE }).is_none());
    assert!(set.segment_list().is_empty());
}

#[test]
fn new_space_needs_three_frames() {
    let (mut allocator, mut memory) = machine(2);
    assert!(PageSet::new(TRAMPOLINE_FRAME, &mut allocator, &mut memory).is_none());
}

#[test]
fn framed_segment_maps_every_page_with_its_permissions() {
    let (mut allocator, mut memory) = machine(32);
    let mut set = PageSet::new(TRAMPOLINE_FRAME, &mut allocator, &mut memory).unwrap();
    let start = VirtualAddress::new(0x20000);
    let end = VirtualAddress::new(0x23000);
    assert!(set.insert_frame(start, end, MAP_R | MAP_W | MAP_U, &mut allocator, &mut memory));
    let segment = &set.segment_list()[0];
    assert_eq!(segment.start().bits, 0x20);
    assert_eq!(segment.end().bits, 0x23);
    assert_eq!(segment.frame_map().len(), 3);
    for page in 0x20..0x23 {
        let entry = set.translate(PageNumber { bits: page }).unwrap();
        assert!(entry.is_valid() && entry.is_readable() && entry.is_writable());
        assert_eq!(entry.flags() & 16, 16);
        assert_eq!(entry.frame_number(), segment.frame_map()[(page - 0x20) as usize]);
        assert_eq!(memory.holders_of(entry.frame_number()), 1);
    }
    assert!(set.translate(PageNumber { bits: 0x23 }).is_none());
}

#[test]
fn overlapping_segment_refused() {
    let (mut allocator, mut memory) = machine(32);
    let mut set = PageSet::new(TRAMPOLINE_FRAME, &mut allocator, &mut memory).unwrap();
    let a = VirtualAddress::new(0x20000);
    let b = VirtualAddress::new(0x22000);
    let c = VirtualAddress::new(0x21000);
    let d = VirtualAddress::new(0x24000);
    assert!(set.insert_frame(a, b, MAP_R, &mut allocator, &mut memory));
    assert!(!set.insert_frame(c, d, MAP_R, &mut allocator, &mut memory));
    assert_eq!(set.segment_list().len(), 1);
}

#[test]
fn remove_segment_unmaps_and_frees() {
    let (mut allocator, mut memory) = machine(32);
    let mut set = PageSet::new(TRAMPOLINE_FRAME, &mut allocator, &mut memory).unwrap();
    let a = VirtualAddress::new(0x20000);
    let b = VirtualAddress::new(0x22000);
    assert!(set.insert_frame(a, b, MAP_R | MAP_W, &mut allocator, &mut memory));
    let frame = set.segment_list()[0].frame_map()[0];
    assert!(allocator.owns(frame));
    set.remove_segment(VirtualAddress::new(0x21abc), &mut allocator, &mut memory);
    assert!(set.segment_list().is_empty());
    assert!(set.translate(PageNumber { bits: 0x20 }).is_none());
    assert!(set.translate(PageNumber { bits: 0x21 }).is_none());
    assert!(!allocator.owns(frame));
    assert!(set.find_segment(a).is_none());
}

#[test]
fn segment_new_rounds_to_pages() {
    let segment = PageSegment::new(
        VirtualAddress::new(0x1800),
        VirtualAddress::new(0x3001),
        MapType::Framed,
        MAP_R | MAP_X,
    );
    assert_eq!(segment.start().bits, 1);
    assert_eq!(segment.end().bits, 4);
    assert_eq!(segment.page_range().len(), 3);
}

#[test]
fn kernel_space_maps_identically() {
    let (mut allocator, mut memory) = machine(64);
    let layout = KernelLayout {
        text_start: 0x8020_0000,
        text_end: 0x8020_2000,
        rodata_start: 0x8020_2000,
        rodata_end: 0x8020_3000,
        data_start: 0x8020_3000,
        data_end: 0x8020_4000,
        bss_stack_start: 0x8020_4000,
        bss_end: 0x8020_6000,
        kernel_end: 0x8020_6000,
    };
    let set = PageSet::from_kernel(layout, TRAMPOLINE_FRAME, &mut allocator, &mut memory).unwrap();
    assert_eq!(set.segment_list().len(), 5);
    let text = set.translate(PageNumber { bits: 0x80200 }).unwrap();
    assert_eq!(text.frame_number().bits, 0x80200);
    assert!(text.is_executable() && !text.is_writable());
    let rodata = set.translate(PageNumber { bits: 0x80202 }).unwrap();
    assert!(rodata.is_readable() && !rodata.is_writable() && !rodata.is_executable());
    let rest = set.translate(PageNumber { bits: 0x80fff }).unwrap();
    assert_eq!(rest.frame_number().bits, 0x80fff);
    assert!(rest.is_writable());
    assert!(set.translate(PageNumber { bits: 0x81000 }).is_none());
    assert!(set.translate(PageNumber { bits: TRAMPOLINE_PAGE }).is_some());
}

#[test]
fn user_byte_written_through_space() {
    let (mut allocator, mut memory) = machine(64);
    let image = user_program();
    let (set, _, _) = PageSet::from_elf(&image, TRAMPOLINE_FRAME, &mut allocator, &mut memory).unwrap();
    assert!(kernel::user_ptr::write_user_byte(&set, &mut memory, 0x11003, 0x5a));
    assert_eq!(byte_at(&set, &memory, 0x11003), 0x5a);
    assert!(!kernel::user_ptr::write_user_byte(&set, &mut memory, 0x90000, 1));
}

#[test]
fn magic_prefix_detected() {
    let mut image = user_program();
    assert!(kernel::elf::has_magic_prefix(&image));
    image[1] = b'X';
    assert!(!kernel::elf::has_magic_prefix(&image));
    assert!(!kernel::elf::has_magic_prefix(&[0x7f, b'E']));
}

#[test]
fn from_elf_rejects_misaligned_header_table() {
    let (mut allocator, mut memory) = machine(32);
    let mut image = user_program();
    image[32] = 65;
    let result = PageSet::from_elf(&image, TRAMPOLINE_FRAME, &mut allocator, &mut memory);
    assert_eq!(result.err(), Some(ElfError::Malformed));
}

#[test]
fn from_elf_reads_unaligned_image() {
    let (mut allocator, mut memory) = machine(64);
    let image = user_program();
    let mut shifted = vec![0u8];
    shifted.extend_from_slice(&image);
    let (_, _, entry) = PageSet::from_elf(&shifted[1..], TRAMPOLINE_FRAME, &mut allocator, &mut memory).unwrap();
    assert_eq!(entry.bits, 0x10000);
}

#[test]
fn from_elf_base_above_highest_segment() {
    let (mut allocator, mut memory) = machine(64);
    let image = elf_image(0x10000, &[(0x30000, 6, vec![1], 0x1000), (0x10000, 5, vec![2], 0x1000)]);
    let (set, base, _) = PageSet::from_elf(&image, TRAMPOLINE_FRAME, &mut allocator, &mut memory).unwrap();
    assert_eq!(set.segment_list().len(), 2);
    assert_eq!(base.bits, 0x32000);
}

#[test]
fn from_elf_out_of_memory() {
    let (mut allocator, mut memory) = machine(5);
    let image = user_program();
    let result = PageSet::from_elf(&image, TRAMPOLINE_FRAME, &mut allocator, &mut memory);
    assert_eq!(result.err(), Some(ElfError::OutOfMemory));
}

#[test]
fn from_elf_rejects_truncated_headers() {
    let (mut allocator, mut memory) = machine(32);
    let image = user_program();
    let truncated = image[..100].to_vec();
    let result = PageSet::from_elf(&truncated, TRAMPOLINE_FRAME, &mut allocator, &mut memory);
    assert_eq!(result.err(), Some(ElfError::Malformed));
}

#[test]
fn from_elf_rejects_overlapping_segments() {
    let (mut allocator, mut memory) = machine(32);
    let image = elf_image(0x10000, &[(0x10000, 4, vec![1], 0x2000), (0x11000, 4, vec![2], 0x1000)]);
    let result = PageSet::from_elf(&image, TRAMPOLINE_FRAME, &mut allocator, &mut memory);
    assert_eq!(result.err(), Some(ElfError::Overlap));
}

#[test]
fn from_elf_loads_segments() {
    let (mut allocator, mut memory) = machine(64);
    let image = user_program();
    let (set, base, entry) = PageSet::from_elf(&image, TRAMPOLINE_FRAME, &mut allocator, &mut memory).unwrap();
    assert_eq!(entry.bits, 0x10000);
    assert_eq!(base.bits, 0x13000 + 0x1000);
    assert_eq!(set.segment_list().len(), 2);
    assert_eq!(set.segment_list()[0].map_permission, MAP_R | MAP_X | MAP_U);
    assert_eq!(set.segment_list()[1].map_permission, MAP_R | MAP_W | MAP_U);
    assert_eq!(byte_at(&set, &memory, 0x10004), 0x73);
    assert_eq!(byte_at(&set, &memory, 0x11009), 0xAB);
    assert_eq!(byte_at(&set, &memory, 0x1100a), 0);
    let text = set.translate(PageNumber { bits: 0x10 }).unwrap();
    assert!(text.is_executable() && !text.is_writable());
}

#[test]
fn fork_shares_writable_pages_copy_on_write() {
    let (mut allocator, mut memory) = machine(96);
    let image = user_program();
    let (mut parent, _, _) = PageSet::from_elf(&image, TRAMPOLINE_FRAME, &mut allocator, &mut memory).unwrap();
    let trap_start = VirtualAddress::new(0xffff_ffff_ffef_f000);
    let trap_end = VirtualAddress::new(0xffff_ffff_fff0_0000);
    assert!(parent.insert_frame(trap_start, trap_end, MAP_R | MAP_W, &mut allocator, &mut memory));
    let child = PageSet::clone_from(&mut parent, &mut allocator, &mut memory).unwrap();
    let data = PageNumber { bits: 0x11 };
    let p = parent.translate(data).unwrap();
    let c = child.translate(data).unwrap();
    assert_eq!(p, c);
    assert!(!p.is_writable() && p.is_cow());
    assert_eq!(memory.holders_of(p.frame_number()), 2);
    let text = parent.translate(PageNumber { bits: 0x10 }).unwrap();
    assert!(!text.is_cow() && text.is_executable());
    let trap_parent = parent.translate(PageNumber { bits: TRAP_CONTEXT_PAGE }).unwrap();
    let trap_child = child.translate(PageNumber { bits: TRAP_CONTEXT_PAGE }).unwrap();
    assert_ne!(trap_parent.frame_number(), trap_child.frame_number());
    assert!(trap_child.is_writable() && !trap_child.is_cow());
}

#[test]
fn cow_fault_copies_shared_frame() {
    let (mut allocator, mut memory) = machine(96);
    let image = user_program();
    let (mut parent, _, _) = PageSet::from_elf(&image, TRAMPOLINE_FRAME, &mut allocator, &mut memory).unwrap();
    let mut child = PageSet::clone_from(&mut parent, &mut allocator, &mut memory).unwrap();
    let before = free_frames(&allocator);
    let address = VirtualAddress::new(0x11000);
    assert!(child.clone_frame(address, &mut allocator, &mut memory));
    assert_eq!(free_frames(&allocator), before - 1);
    let c = child.translate(PageNumber { bits: 0x11 }).unwrap();
    let p = parent.translate(PageNumber { bits: 0x11 }).unwrap();
    assert!(c.is_writable() && !c.is_cow());
    assert_ne!(c.frame_number(), p.frame_number());
    assert_eq!(memory.holders_of(p.frame_number()), 1);
    memory.write_byte(c.frame_number(), 0, 0xCD);
    assert_eq!(byte_at(&child, &memory, 0x11000), 0xCD);
    assert_eq!(byte_at(&parent, &memory, 0x11000), 0xAB);
    assert!(parent.clone_frame(address, &mut allocator, &mut memory));
    let parent_after = parent.translate(PageNumber { bits: 0x11 }).unwrap();
    assert_eq!(parent_after.frame_number(), p.frame_number());
    assert!(parent_after.is_writable() && !parent_after.is_cow());
    assert_eq!(free_frames(&allocator), before - 1);
}

#[test]
fn store_fault_on_plain_page_is_not_cow() {
    let (mut allocator, mut memory) = machine(64);
    let image = user_program();
    let (mut set, _, _) = PageSet::from_elf(&image, TRAMPOLINE_FRAME, &mut allocator, &mut memory).unwrap();
    assert!(!set.clone_frame(VirtualAddress::new(0), &mut allocator, &mut memory));
    assert!(!set.clone_frame(VirtualAddress::new(0x11000), &mut allocator, &mut memory));
}

#[test]
fn user_strings_and_bundle_lookup() {
    let (mut allocator, mut memory) = machine(64);
    let image = elf_image(0x10000, &[(0x10000, 6, b"shell\0rest".to_vec(), 0x1000)]);
    let (set, _, _) = PageSet::from_elf(&image, TRAMPOLINE_FRAME, &mut allocator, &mut memory).unwrap();
    let name = UserPtr::new(0x10000).as_string(&set, &memory, 64).unwrap();
    assert_eq!(name, b"shell".to_vec());
    assert!(UserPtr::new(0x10000).as_string(&set, &memory, 3).is_none());
    assert!(UserPtr::new(0x50000).as_buffer(&set, &memory, 1).is_none());
    let names = vec![b"init".to_vec(), b"shell".to_vec()];
    assert_eq!(get_bin(&names, &name), Some(1));
    assert_eq!(get_bin(&names, b"sleep"), None);
}
