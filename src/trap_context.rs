//! The trap frame of a user thread: the registers the trampoline saves and restores.
use vstd::prelude::*;

verus! {

/// The number of 64-bit words in a trap frame.
pub const TRAP_CONTEXT_WORDS: usize = 36;

/// The register that holds the user stack pointer.
pub const REGISTER_SP: usize = 2;

/// The register that holds the first argument and the return value of a system call.
pub const REGISTER_A0: usize = 10;

/// The register that holds the system-call number.
pub const REGISTER_A7: usize = 17;

/// The `TrapContext` struct holds the 32 user registers, `sstatus` and `sepc` of a thread, and
/// the kernel stack pointer and `satp` that the trampoline returns to.
pub struct TrapContext {
    pub user_register: Vec<u64>,
    pub user_sstatus: u64,
    pub user_sepc: u64,
    pub kernel_sp: u64,
    pub kernel_satp: u64,
}

impl TrapContext {
    pub open spec fn wf(&self) -> bool {
        self.user_register@.len() == 32
    }

    /// The frame as the trampoline lays it out: the registers, then `sstatus`, `sepc`, the
    /// kernel stack pointer and the kernel `satp`.
    pub open spec fn layout(&self) -> Seq<u64> {
        self.user_register@ + seq![self.user_sstatus, self.user_sepc, self.kernel_sp, self.kernel_satp]
    }

    /// Creates a frame with every word zero.
    pub fn new() -> (r: Self)
        ensures
            r.wf(),
            forall|i: int| 0 <= i < 32 ==> r.user_register@[i] == 0,
            r.user_sstatus == 0,
            r.user_sepc == 0,
            r.kernel_sp == 0,
            r.kernel_satp == 0,
    {
        let mut user_register: Vec<u64> = Vec::new();
        let mut i: usize = 0;
        while i < 32
            invariant
                i <= 32,
                user_register@.len() == i,
                forall|j: int| 0 <= j < i ==> user_register@[j] == 0,
            decreases 32 - i,
        {
            user_register.push(0);
            i = i + 1;
        }
        TrapContext { user_register, user_sstatus: 0, user_sepc: 0, kernel_sp: 0, kernel_satp: 0 }
    }

    /// Creates the frame a thread starts from: `sepc` at the entry, the stack pointer at the top
    /// of its stack, every other register zero.
    pub fn init_context(sepc: u64, stack_pointer: u64, sstatus: u64, kernel_satp: u64, kernel_sp: u64) -> (r: Self)
        ensures
            r.wf(),
            r.user_sepc == sepc,
            r.user_register@[REGISTER_SP as int] == stack_pointer,
            forall|i: int| 0 <= i < 32 && i != REGISTER_SP ==> r.user_register@[i] == 0,
            r.user_sstatus == sstatus,
            r.kernel_satp == kernel_satp,
            r.kernel_sp == kernel_sp,
    {
        let mut context = TrapContext::new();
        context.user_register.set(REGISTER_SP, stack_pointer);
        context.user_sepc = sepc;
        context.user_sstatus = sstatus;
        context.kernel_satp = kernel_satp;
        context.kernel_sp = kernel_sp;
        context
    }

    pub fn user_status(&self) -> (r: u64)
        ensures
            r == self.user_sstatus,
    {
        self.user_sstatus
    }

    pub fn set_user_status(&mut self, user_sstatus: u64)
        ensures
            final(self).user_sstatus == user_sstatus,
            final(self).user_register@ == old(self).user_register@,
            final(self).user_sepc == old(self).user_sepc,
            final(self).kernel_sp == old(self).kernel_sp,
            final(self).kernel_satp == old(self).kernel_satp,
    {
        self.user_sstatus = user_sstatus;
    }

    pub fn user_sepc(&self) -> (r: u64)
        ensures
            r == self.user_sepc,
    {
        self.user_sepc
    }

    pub fn set_user_sepc(&mut self, user_sepc: u64)
        ensures
            final(self).user_sepc == user_sepc,
            final(self).user_register@ == old(self).user_register@,
            final(self).user_sstatus == old(self).user_sstatus,
            final(self).kernel_sp == old(self).kernel_sp,
            final(self).kernel_satp == old(self).kernel_satp,
    {
        self.user_sepc = user_sepc;
    }

    pub fn user_register(&self, index: usize) -> (r: u64)
        requires
            self.wf(),
            index < 32,
        ensures
            r == self.user_register@[index as int],
    {
        self.user_register[index]
    }

    pub fn set_user_register(&mut self, index: usize, value: u64)
        requires
            old(self).wf(),
            index < 32,
        ensures
            final(self).wf(),
            final(self).user_register@ == old(self).user_register@.update(index as int, value),
            final(self).user_sepc == old(self).user_sepc,
            final(self).user_sstatus == old(self).user_sstatus,
            final(self).kernel_sp == old(self).kernel_sp,
            final(self).kernel_satp == old(self).kernel_satp,
    {
        self.user_register.set(index, value);
    }

    pub fn set_kernel_satp(&mut self, kernel_satp: u64)
        ensures
            final(self).kernel_satp == kernel_satp,
            final(self).user_register@ == old(self).user_register@,
            final(self).user_sepc == old(self).user_sepc,
            final(self).user_sstatus == old(self).user_sstatus,
            final(self).kernel_sp == old(self).kernel_sp,
    {
        self.kernel_satp = kernel_satp;
    }

    pub fn set_kernel_sp(&mut self, kernel_sp: u64)
        ensures
            final(self).kernel_sp == kernel_sp,
            final(self).user_register@ == old(self).user_register@,
            final(self).user_sepc == old(self).user_sepc,
            final(self).user_sstatus == old(self).user_sstatus,
            final(self).kernel_satp == old(self).kernel_satp,
    {
        self.kernel_sp = kernel_sp;
    }

    /// Returns the 36 words of the frame in the order the trampoline reads them.
    pub fn words(&self) -> (r: Vec<u64>)
        requires
            self.wf(),
        ensures
            r@ == self.layout(),
            r@.len() == TRAP_CONTEXT_WORDS,
    {
        let mut words: Vec<u64> = Vec::new();
        let mut i: usize = 0;
        while i < 32
            invariant
                self.wf(),
                i <= 32,
                words@ == self.user_register@.subrange(0, i as int),
            decreases 32 - i,
        {
            words.push(self.user_register[i]);
            i = i + 1;
        }
        words.push(self.user_sstatus);
        words.push(self.user_sepc);
        words.push(self.kernel_sp);
        words.push(self.kernel_satp);
        assert(words@ =~= self.layout());
        words
    }

    /// Returns a copy of the frame.
    pub fn copy(&self) -> (r: Self)
        requires
            self.wf(),
        ensures
            r.wf(),
            r.layout() == self.layout(),
            r.user_register@ == self.user_register@,
            r.user_sstatus == self.user_sstatus,
            r.user_sepc == self.user_sepc,
            r.kernel_sp == self.kernel_sp,
            r.kernel_satp == self.kernel_satp,
    {
        let mut user_register: Vec<u64> = Vec::new();
        let mut i: usize = 0;
        while i < 32
            invariant
                self.wf(),
                i <= 32,
                user_register@ == self.user_register@.subrange(0, i as int),
            decreases 32 - i,
        {
            user_register.push(self.user_register[i]);
            i = i + 1;
        }
        assert(user_register@ =~= self.user_register@);
        TrapContext {
            user_register,
            user_sstatus: self.user_sstatus,
            user_sepc: self.user_sepc,
            kernel_sp: self.kernel_sp,
            kernel_satp: self.kernel_satp,
        }
    }
}

} // verus!
