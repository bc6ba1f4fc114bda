//! What the kernel does with a trap from user mode.
use vstd::prelude::*;

use crate::address::VirtualAddress;
use crate::executor::ControlFlow;
use crate::frame_allocator::StackFrameAllocator;
use crate::memory::PhysicalMemory;
use crate::page_set::PageSet;

verus! {

/// The causes of a trap that the kernel tells apart.
#[derive(Copy, Clone, PartialEq, Eq, Structural, Debug)]
pub enum TrapCause {
    UserEnvCall,
    LoadPageFault,
    StorePageFault,
    IllegalInstruction,
    InstructionMisaligned,
    SupervisorTimer,
    Other,
}

/// What the thread's task does after a trap.
#[derive(Copy, Clone, PartialEq, Eq, Structural, Debug)]
pub enum TrapAction {
    /// Run the system call in the trap frame.
    SystemCall,
    /// Try to resolve a store fault as copy-on-write.
    StoreFault,
    /// Program the next timer tick, then yield.
    Tick,
    /// End the thread with an exit code.
    Exit(u64),
    /// A cause the kernel does not handle: a kernel bug.
    Unsupported,
}

/// Decides what a trap cause calls for.
pub fn trap_action(cause: TrapCause) -> (r: TrapAction)
    ensures
        cause == TrapCause::UserEnvCall ==> r == TrapAction::SystemCall,
        cause == TrapCause::StorePageFault ==> r == TrapAction::StoreFault,
        cause == TrapCause::SupervisorTimer ==> r == TrapAction::Tick,
        cause == TrapCause::LoadPageFault || cause == TrapCause::IllegalInstruction
            || cause == TrapCause::InstructionMisaligned ==> r == TrapAction::Exit(1),
        cause == TrapCause::Other ==> r == TrapAction::Unsupported,
{
    match cause {
        TrapCause::UserEnvCall => TrapAction::SystemCall,
        TrapCause::StorePageFault => TrapAction::StoreFault,
        TrapCause::SupervisorTimer => TrapAction::Tick,
        TrapCause::LoadPageFault => TrapAction::Exit(1),
        TrapCause::IllegalInstruction => TrapAction::Exit(1),
        TrapCause::InstructionMisaligned => TrapAction::Exit(1),
        TrapCause::Other => TrapAction::Unsupported,
    }
}

/// Handles a store fault at `stval`: the thread continues when the fault was a copy-on-write
/// fault, now resolved, and leaves with code 1 otherwise.
pub fn handle_store_fault(
    page_set: &mut PageSet,
    stval: u64,
    allocator: &mut StackFrameAllocator,
    memory: &mut PhysicalMemory,
) -> (r: ControlFlow)
    requires
        old(page_set).wf(),
        old(page_set).backed_by(old(memory)),
        old(allocator).wf(),
        old(memory).wf(),
        old(allocator).backed_by(old(memory)),
    ensures
        final(page_set).wf(),
        final(page_set).backed_by(final(memory)),
        final(allocator).wf(),
        final(memory).wf(),
        final(allocator).backed_by(final(memory)),
        r == ControlFlow::Continue || r == ControlFlow::Exit(1),
        !crate::address::canonical(stval as int) ==> r == ControlFlow::Exit(1),
        crate::address::canonical(stval as int) ==> (r == ControlFlow::Continue <==> old(page_set).cow_resolvable(
            crate::address::page_of_address(stval as int), old(allocator), old(memory))),
{
    match VirtualAddress::try_new(stval) {
        None => ControlFlow::Exit(1),
        Some(address) => if page_set.clone_frame(address, allocator, memory) {
            ControlFlow::Continue
        } else {
            ControlFlow::Exit(1)
        },
    }
}

} // verus!
