//! The core of a small Sv39 RISC-V kernel: physical frames, page tables, address spaces,
//! processes and threads, the run queue and the system-call and trap decisions, each stated over
//! a mathematical model and verified.
use vstd::prelude::*;

pub mod constant;
pub mod address;
pub mod memory;
pub mod frame_allocator;
pub mod page_table;
pub mod segment;
pub mod page_set;
pub mod elf;
pub mod pid;
pub mod tid;
pub mod trap_context;
pub mod timer;
pub mod event_bus;
pub mod executor;
pub mod thread;
pub mod process;
pub mod user_ptr;
pub mod syscall;
pub mod trap;


