//! Threads: a user stack, a trap-frame page, and the frame behind that page.
use vstd::prelude::*;

use crate::address::{address_of_page, page_of_address, FrameNumber, PageNumber, VirtualAddress, VIRTUAL_SIGN_BIT};
use crate::constant::{PAGE_SIZE, TRAP_CONTEXT_BASE, USER_STACK_SIZE};
use crate::page_set::{PageSet, TRAP_CONTEXT_PAGE};
use crate::pid::Pid;
use crate::tid::Tid;
use crate::trap_context::TrapContext;

verus! {

/// Threads of a process have identifiers below this bound: one trap-frame page each, below
/// the trampoline.
pub const MAX_THREADS: u64 = 256;

/// The bottom of the user stack of a thread.
pub open spec fn user_stack_bottom_of(user_stack_base: int, tid: int) -> int {
    user_stack_base + tid * (PAGE_SIZE + USER_STACK_SIZE)
}

/// The page of the trap frame of a thread.
pub open spec fn trap_context_page_of(tid: int) -> int {
    TRAP_CONTEXT_PAGE + tid
}

/// The `ThreadState` struct holds where a thread's trap frame lies, in the user's view and in
/// memory, the bottom of its user stack, and the trap frame's contents as the kernel sees them.
pub struct ThreadState {
    pub trap_context_page: PageNumber,
    pub trap_context_frame: FrameNumber,
    pub user_stack_bottom: VirtualAddress,
    pub trap_context: TrapContext,
}

impl ThreadState {
    pub open spec fn wf(&self) -> bool {
        &&& self.user_stack_bottom.bits + USER_STACK_SIZE < VIRTUAL_SIGN_BIT
        &&& self.trap_context.wf()
    }

    /// Creates the state with a zeroed trap frame.
    pub fn new(
        trap_context_page: PageNumber,
        trap_context_frame: FrameNumber,
        user_stack_bottom: VirtualAddress,
    ) -> (r: Self)
        ensures
            r.trap_context_page == trap_context_page,
            r.trap_context_frame == trap_context_frame,
            r.user_stack_bottom == user_stack_bottom,
            r.trap_context.wf(),
    {
        ThreadState {
            trap_context_page,
            trap_context_frame,
            user_stack_bottom,
            trap_context: TrapContext::new(),
        }
    }

    pub fn set_user_stack_bottom(&mut self, user_stack_bottom: VirtualAddress)
        ensures
            final(self).user_stack_bottom == user_stack_bottom,
            final(self).trap_context_page == old(self).trap_context_page,
            final(self).trap_context_frame == old(self).trap_context_frame,
            final(self).trap_context == old(self).trap_context,
    {
        self.user_stack_bottom = user_stack_bottom;
    }

    /// Returns the address just above the user stack.
    pub fn user_stack_top(&self) -> (r: VirtualAddress)
        requires
            self.wf(),
        ensures
            r.bits == self.user_stack_bottom.bits + USER_STACK_SIZE,
            r.wf(),
    {
        VirtualAddress { bits: self.user_stack_bottom.bits + USER_STACK_SIZE }
    }

    pub fn set_trap_context_frame(&mut self, trap_context_frame: FrameNumber)
        ensures
            final(self).trap_context_frame == trap_context_frame,
            final(self).trap_context_page == old(self).trap_context_page,
            final(self).user_stack_bottom == old(self).user_stack_bottom,
            final(self).trap_context == old(self).trap_context,
    {
        self.trap_context_frame = trap_context_frame;
    }

    /// Returns the trap frame as the kernel sees it.
    pub fn kernel_trap_context(&self) -> (r: &TrapContext)
        ensures
            *r == self.trap_context,
    {
        &self.trap_context
    }

    /// Returns the trap frame for changes.
    pub fn kernel_trap_context_mut(&mut self) -> (r: &mut TrapContext)
        ensures
            *r == old(self).trap_context,
            final(self).trap_context == *final(r),
            final(self).trap_context_page == old(self).trap_context_page,
            final(self).trap_context_frame == old(self).trap_context_frame,
            final(self).user_stack_bottom == old(self).user_stack_bottom,
    {
        &mut self.trap_context
    }
}

/// The `Thread` struct is a thread of the process `process`.
pub struct Thread {
    pub tid: Tid,
    pub process: Pid,
    pub user_stack_base: VirtualAddress,
    pub state: ThreadState,
}

impl Thread {
    pub fn tid(&self) -> (r: Tid)
        ensures
            r == self.tid,
    {
        self.tid
    }

    pub fn user_stack_base(&self) -> (r: VirtualAddress)
        ensures
            r == self.user_stack_base,
    {
        self.user_stack_base
    }

    /// Returns the identifier of the thread's process.
    pub fn process(&self) -> (r: Pid)
        ensures
            r == self.process,
    {
        self.process
    }

    pub fn state(&self) -> (r: &ThreadState)
        ensures
            *r == self.state,
    {
        &self.state
    }

    /// Returns the `satp` of the thread's address space.
    pub fn satp(&self, page_set: &PageSet) -> (r: u64)
        requires
            page_set.wf(),
        ensures
            r == crate::page_table::SATP_SV39 + page_set.page_table.root_frame_number.bits,
    {
        page_set.satp()
    }
}

/// Where a thread's user stack and trap frame go, and whether they fit: the stack below the
/// sign bit, the trap frame below the trampoline.
pub fn thread_layout(user_stack_base: VirtualAddress, tid: Tid) -> (r: Option<(VirtualAddress, PageNumber)>)
    ensures
        r is Some <==> tid < MAX_THREADS && user_stack_bottom_of(user_stack_base.bits as int, tid as int)
            + USER_STACK_SIZE < VIRTUAL_SIGN_BIT,
        r matches Some((bottom, page)) ==> bottom.bits == user_stack_bottom_of(user_stack_base.bits as int, tid as int)
            && page.bits == trap_context_page_of(tid as int) && bottom.wf() && page.wf(),
{
    if tid >= MAX_THREADS {
        return None;
    }
    let step: u64 = PAGE_SIZE + USER_STACK_SIZE;
    let offset: u64 = tid * step;
    if user_stack_base.bits >= VIRTUAL_SIGN_BIT || offset >= VIRTUAL_SIGN_BIT - user_stack_base.bits
        || user_stack_base.bits + offset >= VIRTUAL_SIGN_BIT - USER_STACK_SIZE {
        return None;
    }
    Some((VirtualAddress { bits: user_stack_base.bits + offset }, PageNumber { bits: TRAP_CONTEXT_PAGE + tid }))
}

/// The first address of a trap-frame page.
pub proof fn lemma_trap_page_address(tid: int)
    requires
        0 <= tid < MAX_THREADS,
    ensures
        address_of_page(trap_context_page_of(tid)) == TRAP_CONTEXT_BASE + tid * PAGE_SIZE,
        page_of_address(TRAP_CONTEXT_BASE + tid * PAGE_SIZE) == trap_context_page_of(tid),
        crate::address::ceil_page_of_address(TRAP_CONTEXT_BASE + tid * PAGE_SIZE + PAGE_SIZE) == trap_context_page_of(tid) + 1,
{
    crate::address::lemma_page_address_page(trap_context_page_of(tid));
    crate::address::lemma_page_address_page(trap_context_page_of(tid) + 1);
}

} // verus!
