//! What the loader reads from an ELF image, through the `xmas-elf` crate.
//!
//! `xmas-elf` reads the headers in place and asserts that each one lies at an address aligned
//! for it. Each function below therefore hands it a copy of the image that starts at an 8-byte
//! boundary, so that what it reads depends on the bytes alone; the program-header table must
//! itself lie at a multiple of 8 from the start of the image.
use vstd::prelude::*;

verus! {

/// The first four bytes of every ELF image.
pub open spec fn has_elf_magic(data: Seq<u8>) -> bool {
    &&& data.len() >= 4
    &&& data[0] == 0x7f
    &&& data[1] == 0x45
    &&& data[2] == 0x4c
    &&& data[3] == 0x46
}

/// Returns `true` if an image begins with the ELF magic.
pub fn has_magic_prefix(data: &[u8]) -> (r: bool)
    ensures
        r == has_elf_magic(data@),
{
    data.len() >= 4 && data[0] == 0x7f && data[1] == 0x45 && data[2] == 0x4c && data[3] == 0x46
}

/// What the loader needs of one program header.
#[derive(Copy, Clone, PartialEq, Eq, Structural, Debug)]
pub struct ProgramHeaderInfo {
    pub is_load: bool,
    pub virtual_addr: u64,
    pub mem_size: u64,
    pub offset: u64,
    pub file_size: u64,
    pub flags: u32,
}

/// The segment may be executed.
pub const PF_X: u32 = 1;

/// The segment may be written.
pub const PF_W: u32 = 2;

/// The segment may be read.
pub const PF_R: u32 = 4;

/// The permission word of a loadable segment: user access, with read, write and execute as
/// its flags give them.
pub open spec fn elf_permission(flags: u32) -> u64 {
    (16 + (if flags & PF_R != 0 { 2u64 } else { 0u64 }) + (if flags & PF_W != 0 { 4u64 } else { 0u64 })
        + (if flags & PF_X != 0 { 8u64 } else { 0u64 })) as u64
}

/// Returns the permission word of a loadable segment.
pub fn permission_of(flags: u32) -> (r: u64)
    ensures
        r == elf_permission(flags),
        r < 32,
{
    let mut permission: u64 = 16;
    if flags & PF_R != 0 {
        permission = permission + 2;
    }
    if flags & PF_W != 0 {
        permission = permission + 4;
    }
    if flags & PF_X != 0 {
        permission = permission + 8;
    }
    permission
}

/// The loadable headers among the first `n` program headers of an image, in order.
pub open spec fn load_headers(data: Seq<u8>, n: int) -> Seq<ProgramHeaderInfo>
    decreases n,
{
    if n <= 0 {
        Seq::empty()
    } else {
        let previous = load_headers(data, n - 1);
        let header = elf_program_header(data, (n - 1) as u16);
        if header.is_load {
            previous.push(header)
        } else {
            previous
        }
    }
}

/// Whether `xmas-elf` accepts the headers of an image.
pub uninterp spec fn elf_header_ok(data: Seq<u8>) -> bool;

/// The entry point that the header of an image gives.
pub uninterp spec fn elf_entry_point(data: Seq<u8>) -> u64;

/// The number of program headers that the header of an image gives.
pub uninterp spec fn elf_ph_count(data: Seq<u8>) -> u16;

/// The offset of the program headers that the header of an image gives.
pub uninterp spec fn elf_ph_offset(data: Seq<u8>) -> u64;

/// The size of one program header that the header of an image gives.
pub uninterp spec fn elf_ph_entry_size(data: Seq<u8>) -> u16;

/// The program header at an index of an image.
pub uninterp spec fn elf_program_header(data: Seq<u8>, index: u16) -> ProgramHeaderInfo;

/// Whether the program headers of an image lie inside it, each large enough for its fields and
/// at a multiple of 8 from the start of the image.
pub open spec fn program_headers_in_bounds(data: Seq<u8>) -> bool {
    elf_ph_count(data) > 0 ==> {
        &&& elf_ph_offset(data) > 0
        &&& elf_ph_offset(data) % 8 == 0
        &&& elf_ph_entry_size(data) % 8 == 0
        &&& elf_ph_entry_size(data) >= 56
        &&& elf_ph_offset(data) + elf_ph_count(data) * elf_ph_entry_size(data) <= data.len()
    }
}

/// Relies on `xmas_elf::ElfFile::new`: it accepts an image only when the image begins with
/// the ELF magic, and its verdict depends on the bytes alone.
#[verifier::external_body]
pub(crate) fn parse_elf(data: &[u8]) -> (r: bool)
    ensures
        r == elf_header_ok(data@),
        r ==> has_elf_magic(data@),
{
    let mut buffer = vec![0u8; data.len() + 8];
    let shift = (8 - buffer.as_ptr() as usize % 8) % 8;
    buffer[shift..shift + data.len()].copy_from_slice(data);
    xmas_elf::ElfFile::new(&buffer[shift..shift + data.len()]).is_ok()
}

/// Relies on `xmas_elf::header::HeaderPt2::entry_point`.
#[verifier::external_body]
pub(crate) fn elf_entry(data: &[u8]) -> (r: u64)
    requires
        elf_header_ok(data@),
    ensures
        r == elf_entry_point(data@),
{
    let mut buffer = vec![0u8; data.len() + 8];
    let shift = (8 - buffer.as_ptr() as usize % 8) % 8;
    buffer[shift..shift + data.len()].copy_from_slice(data);
    match xmas_elf::ElfFile::new(&buffer[shift..shift + data.len()]) {
        Ok(elf) => elf.header.pt2.entry_point(),
        Err(_) => 0,
    }
}

/// Relies on `xmas_elf::header::HeaderPt2::ph_count`.
#[verifier::external_body]
pub(crate) fn elf_program_header_count(data: &[u8]) -> (r: u16)
    requires
        elf_header_ok(data@),
    ensures
        r == elf_ph_count(data@),
{
    let mut buffer = vec![0u8; data.len() + 8];
    let shift = (8 - buffer.as_ptr() as usize % 8) % 8;
    buffer[shift..shift + data.len()].copy_from_slice(data);
    match xmas_elf::ElfFile::new(&buffer[shift..shift + data.len()]) {
        Ok(elf) => elf.header.pt2.ph_count(),
        Err(_) => 0,
    }
}

/// Relies on `xmas_elf::header::HeaderPt2::ph_offset`.
#[verifier::external_body]
pub(crate) fn elf_program_header_offset(data: &[u8]) -> (r: u64)
    requires
        elf_header_ok(data@),
    ensures
        r == elf_ph_offset(data@),
{
    let mut buffer = vec![0u8; data.len() + 8];
    let shift = (8 - buffer.as_ptr() as usize % 8) % 8;
    buffer[shift..shift + data.len()].copy_from_slice(data);
    match xmas_elf::ElfFile::new(&buffer[shift..shift + data.len()]) {
        Ok(elf) => elf.header.pt2.ph_offset(),
        Err(_) => 0,
    }
}

/// Relies on `xmas_elf::header::HeaderPt2::ph_entry_size`.
#[verifier::external_body]
pub(crate) fn elf_program_header_size(data: &[u8]) -> (r: u16)
    requires
        elf_header_ok(data@),
    ensures
        r == elf_ph_entry_size(data@),
{
    let mut buffer = vec![0u8; data.len() + 8];
    let shift = (8 - buffer.as_ptr() as usize % 8) % 8;
    buffer[shift..shift + data.len()].copy_from_slice(data);
    match xmas_elf::ElfFile::new(&buffer[shift..shift + data.len()]) {
        Ok(elf) => elf.header.pt2.ph_entry_size(),
        Err(_) => 0,
    }
}

/// Relies on `xmas_elf::ElfFile::program_header` and the getters of the header it returns:
/// with the index below the count and the headers inside the image, it returns the header, read
/// from the bytes alone.
#[verifier::external_body]
pub(crate) fn elf_read_program_header(data: &[u8], index: u16) -> (r: Option<ProgramHeaderInfo>)
    requires
        elf_header_ok(data@),
        index < elf_ph_count(data@),
        program_headers_in_bounds(data@),
    ensures
        r == Some(elf_program_header(data@, index)),
{
    let mut buffer = vec![0u8; data.len() + 8];
    let shift = (8 - buffer.as_ptr() as usize % 8) % 8;
    buffer[shift..shift + data.len()].copy_from_slice(data);
    let elf = match xmas_elf::ElfFile::new(&buffer[shift..shift + data.len()]) { Ok(e) => e, Err(_) => return None };
    let ph = match elf.program_header(index) { Ok(ph) => ph, Err(_) => return None };
    Some(ProgramHeaderInfo {
        is_load: matches!(ph.get_type(), Ok(xmas_elf::program::Type::Load)),
        virtual_addr: ph.virtual_addr(),
        mem_size: ph.mem_size(),
        offset: ph.offset(),
        file_size: ph.file_size(),
        flags: ph.flags().0,
    })
}

} // verus!
