//! System calls: decoding a call from the trap frame, the decisions of each call, and writing
//! the return value back.
use vstd::prelude::*;

use crate::executor::ControlFlow;
use crate::frame_allocator::StackFrameAllocator;
use crate::memory::PhysicalMemory;
use crate::pid::Pid;
use crate::process::{ProcessMap, Status, WaitResult};
use crate::trap_context::{TrapContext, REGISTER_A0, REGISTER_A7};

verus! {

pub const SYSCALL_READ: u64 = 63;
pub const SYSCALL_WRITE: u64 = 64;
pub const SYSCALL_EXIT: u64 = 93;
pub const SYSCALL_SCHED_YIELD: u64 = 128;
pub const SYSCALL_GET_TIME: u64 = 169;
pub const SYSCALL_FORK: u64 = 220;
pub const SYSCALL_EXEC: u64 = 221;
pub const SYSCALL_WAITPID: u64 = 260;

/// The file descriptor of the console input.
pub const STDIN: u64 = 0;

/// The file descriptor of the console output.
pub const STDOUT: u64 = 1;

/// A decoded system call.
#[derive(Copy, Clone, PartialEq, Eq, Structural, Debug)]
pub enum SystemCallKind {
    Read { fd: u64, buffer: u64, length: u64 },
    Write { fd: u64, buffer: u64, length: u64 },
    Exit { exit_code: u64 },
    SchedYield,
    GetTime,
    Fork,
    Exec { path: u64 },
    Waitpid { pid: i64, status: u64 },
    Unknown { id: u64 },
}

/// What the read call does with one attempt at the console.
#[derive(Copy, Clone, PartialEq, Eq, Structural, Debug)]
pub enum ReadStep {
    /// Store the byte in the user buffer and return 1.
    Store(u8),
    /// No byte yet: yield and try again.
    Retry,
    /// The descriptor is not the console input: return -1.
    BadDescriptor,
}

/// The `SystemCall` struct holds the number and the three arguments of a call.
#[derive(Copy, Clone, PartialEq, Eq, Structural, Debug)]
pub struct SystemCall {
    pub id: u64,
    pub argument_0: u64,
    pub argument_1: u64,
    pub argument_2: u64,
}

/// The call that a number and arguments stand for.
pub open spec fn decode(id: u64, a0: u64, a1: u64, a2: u64) -> SystemCallKind {
    if id == SYSCALL_READ {
        SystemCallKind::Read { fd: a0, buffer: a1, length: a2 }
    } else if id == SYSCALL_WRITE {
        SystemCallKind::Write { fd: a0, buffer: a1, length: a2 }
    } else if id == SYSCALL_EXIT {
        SystemCallKind::Exit { exit_code: a0 }
    } else if id == SYSCALL_SCHED_YIELD {
        SystemCallKind::SchedYield
    } else if id == SYSCALL_GET_TIME {
        SystemCallKind::GetTime
    } else if id == SYSCALL_FORK {
        SystemCallKind::Fork
    } else if id == SYSCALL_EXEC {
        SystemCallKind::Exec { path: a0 }
    } else if id == SYSCALL_WAITPID {
        SystemCallKind::Waitpid { pid: a0 as i64, status: a1 }
    } else {
        SystemCallKind::Unknown { id }
    }
}

impl SystemCall {
    /// Takes the call from a trap frame: `sepc` moves past the `ecall`, the number comes from
    /// `a7` and the arguments from `a0` to `a2`.
    pub fn new(context: &mut TrapContext) -> (r: Self)
        requires
            old(context).wf(),
        ensures
            final(context).wf(),
            final(context).user_sepc == (old(context).user_sepc + 4) % 0x1_0000_0000_0000_0000int,
            final(context).user_register@ == old(context).user_register@,
            r.id == old(context).user_register@[REGISTER_A7 as int],
            r.argument_0 == old(context).user_register@[10],
            r.argument_1 == old(context).user_register@[11],
            r.argument_2 == old(context).user_register@[12],
    {
        let sepc = context.user_sepc();
        let next: u64 = if sepc <= u64::MAX - 4 {
            sepc + 4
        } else {
            sepc - (u64::MAX - 3)
        };
        context.set_user_sepc(next);
        SystemCall {
            id: context.user_register(REGISTER_A7),
            argument_0: context.user_register(10),
            argument_1: context.user_register(11),
            argument_2: context.user_register(12),
        }
    }

    /// Decodes the call.
    pub fn kind(&self) -> (r: SystemCallKind)
        ensures
            r == decode(self.id, self.argument_0, self.argument_1, self.argument_2),
    {
        let id = self.id;
        if id == SYSCALL_READ {
            SystemCallKind::Read { fd: self.argument_0, buffer: self.argument_1, length: self.argument_2 }
        } else if id == SYSCALL_WRITE {
            SystemCallKind::Write { fd: self.argument_0, buffer: self.argument_1, length: self.argument_2 }
        } else if id == SYSCALL_EXIT {
            SystemCallKind::Exit { exit_code: self.argument_0 }
        } else if id == SYSCALL_SCHED_YIELD {
            SystemCallKind::SchedYield
        } else if id == SYSCALL_GET_TIME {
            SystemCallKind::GetTime
        } else if id == SYSCALL_FORK {
            SystemCallKind::Fork
        } else if id == SYSCALL_EXEC {
            SystemCallKind::Exec { path: self.argument_0 }
        } else if id == SYSCALL_WAITPID {
            SystemCallKind::Waitpid { pid: self.argument_0 as i64, status: self.argument_1 }
        } else {
            SystemCallKind::Unknown { id }
        }
    }

    /// The exit call: leave with the code.
    pub fn sys_exit(&self, exit_code: u64) -> (r: (i64, ControlFlow))
        ensures
            r == (0i64, ControlFlow::Exit(exit_code)),
    {
        (0, ControlFlow::Exit(exit_code))
    }

    /// The yield call.
    pub fn sys_sched_yield(&self) -> (r: (i64, ControlFlow))
        ensures
            r == (0i64, ControlFlow::Yield),
    {
        (0, ControlFlow::Yield)
    }

    /// The time call, given a reading of the machine timer: the time in milliseconds.
    pub fn sys_get_time(&self, mtime: u64) -> (r: (i64, ControlFlow))
        ensures
            r == ((mtime / 12500) as i64, ControlFlow::Continue),
    {
        (crate::timer::get_time(mtime) as i64, ControlFlow::Continue)
    }

    /// The write call, once the bytes went to the console: the length for the console output,
    /// -1 for any other descriptor or a length past `i64::MAX`.
    pub fn sys_write(&self, fd: u64, length: u64) -> (r: (i64, ControlFlow))
        ensures
            fd == STDOUT && length <= i64::MAX ==> r == (length as i64, ControlFlow::Continue),
            !(fd == STDOUT && length <= i64::MAX) ==> r == (-1i64, ControlFlow::Continue),
    {
        if fd == STDOUT && length <= i64::MAX as u64 {
            (length as i64, ControlFlow::Continue)
        } else {
            (-1, ControlFlow::Continue)
        }
    }

    /// One attempt of the read call, given what the console returned: a byte when it is not
    /// zero or negative, else another try.
    pub fn sys_read(&self, fd: u64, console: i64) -> (r: ReadStep)
        ensures
            fd != STDIN ==> r == ReadStep::BadDescriptor,
            fd == STDIN && console > 0 && console < 256 ==> r == ReadStep::Store(console as u8),
            fd == STDIN && !(console > 0 && console < 256) ==> r == ReadStep::Retry,
    {
        if fd != STDIN {
            ReadStep::BadDescriptor
        } else if console > 0 && console < 256 {
            ReadStep::Store(console as u8)
        } else {
            ReadStep::Retry
        }
    }

    /// The fork call: the child's identifier to the parent, -1 when the fork failed.
    pub fn sys_fork(
        &self,
        processes: &mut ProcessMap,
        pid: Pid,
        allocator: &mut StackFrameAllocator,
        memory: &mut PhysicalMemory,
    ) -> (r: (i64, ControlFlow))
        requires
            old(processes).wf(old(memory)),
            old(allocator).wf(),
            old(memory).wf(),
            old(allocator).backed_by(old(memory)),
        ensures
            final(processes).wf(final(memory)),
            final(allocator).wf(),
            final(memory).wf(),
            final(allocator).backed_by(final(memory)),
            final(memory).start == old(memory).start,
            final(memory).frame_count() == old(memory).frame_count(),
            r.1 == ControlFlow::Continue,
            r.0 >= 0 <==> old(processes).fork_possible(pid, old(allocator))
                && old(processes).pid_allocator.next() <= i64::MAX,
            r.0 < 0 ==> r.0 == -1,
            r.0 >= 0 ==> r.0 == old(processes).pid_allocator.next()
                && final(processes).processes@.len() == old(processes).processes@.len() + 1
                && final(processes).processes@.last().pid_handle.pid == r.0
                && final(processes).processes@.last().state.parent == Some(pid),
    {
        if processes.pid_allocator.peek() > i64::MAX as u64 {
            return (-1, ControlFlow::Continue);
        }
        match processes.fork(pid, allocator, memory) {
            Some(child) => if child <= i64::MAX as u64 {
                (child as i64, ControlFlow::Continue)
            } else {
                (-1, ControlFlow::Continue)
            },
            None => (-1, ControlFlow::Continue),
        }
    }

    /// The exec call, given the image the path names, if any: 0 when the program was replaced,
    /// -1 when no image has the name or it could not be loaded.
    pub fn sys_exec(
        &self,
        processes: &mut ProcessMap,
        pid: Pid,
        elf_data: Option<&[u8]>,
        allocator: &mut StackFrameAllocator,
        memory: &mut PhysicalMemory,
    ) -> (r: (i64, ControlFlow))
        requires
            old(processes).wf(old(memory)),
            old(allocator).wf(),
            old(memory).wf(),
            old(allocator).backed_by(old(memory)),
        ensures
            final(processes).wf(final(memory)),
            final(allocator).wf(),
            final(memory).wf(),
            final(allocator).backed_by(final(memory)),
            final(memory).start == old(memory).start,
            final(memory).frame_count() == old(memory).frame_count(),
            r.1 == ControlFlow::Continue,
            r.0 == 0 || r.0 == -1,
            elf_data is None ==> r.0 == -1 && final(processes).processes@ == old(processes).processes@,
            (elf_data matches Some(d) && !crate::elf::has_elf_magic(d@)) ==> r.0 == -1
                && final(processes).processes@ == old(processes).processes@,
            (elf_data matches Some(d) && old(processes).live(pid)
                && old(processes).processes@[old(processes).index_of(pid)].state.status == Status::Runnable
                && crate::elf::has_elf_magic(d@) && crate::page_set::elf_loadable(d@)
                && crate::process::load_thread_fits(crate::page_set::elf_loads(d@),
                    old(processes).processes@[old(processes).index_of(pid)].state.thread_list@[0].tid)
                && old(allocator).available() >= crate::process::load_thread_budget(crate::page_set::elf_loads(d@),
                    old(processes).processes@[old(processes).index_of(pid)].state.thread_list@[0].tid))
                ==> r.0 == 0,
            r.0 == 0 ==> (elf_data matches Some(d) && {
                let i = old(processes).index_of(pid);
                let t = final(processes).processes@[i].state.thread_list@[0];
                &&& old(processes).live(pid)
                &&& t.state.trap_context.user_sepc == crate::elf::elf_entry_point(d@)
                &&& t.state.trap_context.user_register@[crate::trap_context::REGISTER_SP as int]
                    == t.state.user_stack_bottom.bits + crate::constant::USER_STACK_SIZE
            }),
    {
        match elf_data {
            None => (-1, ControlFlow::Continue),
            Some(data) => match processes.exec(pid, data, allocator, memory) {
                Ok(()) => (0, ControlFlow::Continue),
                Err(_) => (-1, ControlFlow::Continue),
            },
        }
    }

    /// One attempt of the waitpid call: the reaped child's identifier and exit code, which go
    /// to the user, or nothing yet.
    pub fn sys_waitpid(
        &self,
        processes: &mut ProcessMap,
        pid: Pid,
        target: i64,
        allocator: &mut StackFrameAllocator,
        memory: &mut PhysicalMemory,
    ) -> (r: WaitResult)
        requires
            old(processes).wf(old(memory)),
            old(allocator).wf(),
            old(memory).wf(),
            old(allocator).backed_by(old(memory)),
        ensures
            final(processes).wf(final(memory)),
            final(allocator).wf(),
            final(memory).wf(),
            final(allocator).backed_by(final(memory)),
            r == WaitResult::Pending ==> final(processes).processes@ == old(processes).processes@
                && (old(processes).live(pid) ==> forall|c: int| 0 <= c < old(processes).processes@[old(processes).index_of(pid)].state.child_list@.len()
                    ==> {
                        let child = #[trigger] old(processes).processes@[old(processes).index_of(pid)].state.child_list@[c];
                        old(processes).live(child) && crate::process::wait_matches(target, child) && child != crate::process::INIT_PID
                            ==> old(processes).processes@[old(processes).index_of(child)].state.status == Status::Runnable
                    }),
            r matches WaitResult::Exited { pid: child, exit_code } ==> {
                &&& old(processes).live(pid)
                &&& old(processes).processes@[old(processes).index_of(pid)].state.child_list@.contains(child)
                &&& old(processes).live(child)
                &&& crate::process::wait_matches(target, child)
                &&& old(processes).processes@[old(processes).index_of(child)].state.status == Status::Zombie
                &&& old(processes).processes@[old(processes).index_of(child)].state.exit_code == exit_code
                &&& !final(processes).live(child)
                &&& crate::process::waitable(old(processes), target, child)
                &&& exists|k: int| 0 <= k < old(processes).processes@[old(processes).index_of(pid)].state.child_list@.len()
                    && old(processes).processes@[old(processes).index_of(pid)].state.child_list@[k] == child
                    && forall|j: int| 0 <= j < k ==> !crate::process::waitable(old(processes),
                        target, #[trigger] old(processes).processes@[old(processes).index_of(pid)].state.child_list@[j])
                &&& final(processes).processes@[final(processes).index_of(pid)].state.child_list@
                    == crate::process::drop_value(old(processes).processes@[old(processes).index_of(pid)].state.child_list@, child)
            },
    {
        processes.waitpid(pid, target, allocator, memory)
    }
}

/// Writes the return value of a call into `a0`, unless the thread leaves.
pub fn finish_system_call(context: &mut TrapContext, value: i64, control_flow: ControlFlow)
    requires
        old(context).wf(),
    ensures
        final(context).wf(),
        final(context).user_sepc == old(context).user_sepc,
        control_flow is Exit ==> final(context).user_register@ == old(context).user_register@,
        !(control_flow is Exit) ==> final(context).user_register@ == old(context).user_register@.update(
            REGISTER_A0 as int, value as u64),
{
    match control_flow {
        ControlFlow::Exit(_) => {},
        _ => context.set_user_register(REGISTER_A0, value as u64),
    }
}

} // verus!
