//! Parameters of the kernel.
use vstd::prelude::*;

verus! {

/// The size of the kernel heap, in bytes.
pub const KERNEL_HEAP_SIZE: u64 = 3145728;

/// The size of a user stack, in bytes.
pub const USER_STACK_SIZE: u64 = 8192;

/// The size of a page, in bytes.
pub const PAGE_SIZE: u64 = 4096;

/// The number of bits of an offset inside a page.
pub const PAGE_SIZE_BIT: u64 = 12;

/// The end of the physical memory that the kernel manages.
pub const MEM_LIMIT: u64 = 0x8100_0000;

/// The address of the trampoline page: the top page of the virtual address space.
pub const TRAMPOLINE: u64 = 0xffff_ffff_ffff_f000;

/// The address of the first trap-frame page, 256 pages below the trampoline.
pub const TRAP_CONTEXT_BASE: u64 = 0xffff_ffff_ffef_f000;

/// The frequency of the machine timer, in Hz.
pub const CLOCK_FREQ: u64 = 12500000;

/// The number of timer interrupts per second.
pub const TICK_PER_SEC: u64 = 100;

} // verus!
