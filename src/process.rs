//! Processes: an address space, threads, a place in the process tree, and an event bus.
use vstd::prelude::*;

use crate::address::{
    ceil_page_of_address, page_of_address, FrameNumber, PageNumber, PageRange, VirtualAddress,
    PAGE_NUMBER_LIMIT,
};
use crate::constant::{PAGE_SIZE, TRAP_CONTEXT_BASE, USER_STACK_SIZE};
use crate::event_bus::{EventBus, CHILD_PROCESS_QUIT};
use crate::frame_allocator::StackFrameAllocator;
use crate::memory::PhysicalMemory;
use crate::page_set::{ElfError, PageSet};
use crate::pid::{Pid, PidAllocator, PidHandle};
use crate::trap_context::{TrapContext, REGISTER_A0, REGISTER_SP};
use crate::segment::{frame_budget, MapType, MAP_R, MAP_U, MAP_W};
use crate::thread::{thread_layout, trap_context_page_of, user_stack_bottom_of, Thread, ThreadState};
use crate::tid::{Tid, TidAllocator};

verus! {

/// Whether a process runs or has exited and waits to be reaped.
#[derive(Copy, Clone, PartialEq, Eq, Structural, Debug)]
pub enum Status {
    Runnable,
    Zombie,
}

/// The `ProcessState` struct holds what changes over the life of a process.
pub struct ProcessState {
    pub status: Status,
    pub exit_code: u64,
    pub page_set: PageSet,
    pub tid_allocator: TidAllocator,
    pub parent: Option<Pid>,
    pub child_list: Vec<Pid>,
    pub thread_list: Vec<Thread>,
}

impl ProcessState {
    #[verifier::opaque]
    pub open spec fn wf(&self, memory: &PhysicalMemory) -> bool {
        &&& self.page_set.wf()
        &&& self.page_set.backed_by(memory)
        &&& self.tid_allocator.wf()
        &&& forall|i: int| 0 <= i < self.thread_list@.len() ==> (#[trigger] self.thread_list@[i]).state.wf()
    }

    /// Creates the state of a runnable process with no thread and no child.
    pub fn new(page_set: PageSet, parent: Option<Pid>) -> (r: Self)
        ensures
            r.status == Status::Runnable,
            r.exit_code == 0,
            r.page_set == page_set,
            r.tid_allocator.wf(),
            r.tid_allocator.state == 0,
            r.tid_allocator.deallocated_tid@.len() == 0,
            r.parent == parent,
            r.child_list@.len() == 0,
            r.thread_list@.len() == 0,
    {
        ProcessState {
            status: Status::Runnable,
            exit_code: 0,
            page_set,
            tid_allocator: TidAllocator::new(),
            parent,
            child_list: Vec::new(),
            thread_list: Vec::new(),
        }
    }

    pub fn parent(&self) -> (r: Option<Pid>)
        ensures
            r == self.parent,
    {
        self.parent
    }

    pub fn status(&self) -> (r: Status)
        ensures
            r == self.status,
    {
        self.status
    }

    pub fn set_status(&mut self, status: Status)
        ensures
            final(self).status == status,
            final(self).exit_code == old(self).exit_code,
            final(self).page_set == old(self).page_set,
            final(self).parent == old(self).parent,
            final(self).child_list@ == old(self).child_list@,
            final(self).thread_list@ == old(self).thread_list@,
            final(self).tid_allocator == old(self).tid_allocator,
    {
        self.status = status;
    }

    pub fn exit_code(&self) -> (r: u64)
        ensures
            r == self.exit_code,
    {
        self.exit_code
    }

    pub fn set_exit_code(&mut self, exit_code: u64)
        ensures
            final(self).exit_code == exit_code,
            final(self).status == old(self).status,
            final(self).page_set == old(self).page_set,
            final(self).parent == old(self).parent,
            final(self).child_list@ == old(self).child_list@,
            final(self).thread_list@ == old(self).thread_list@,
            final(self).tid_allocator == old(self).tid_allocator,
    {
        self.exit_code = exit_code;
    }

    pub fn child_list(&self) -> (r: &Vec<Pid>)
        ensures
            r@ == self.child_list@,
    {
        &self.child_list
    }

    pub fn thread_list(&self) -> (r: &Vec<Thread>)
        ensures
            r@ == self.thread_list@,
    {
        &self.thread_list
    }

    /// Returns the first thread of the process.
    pub fn main_thread(&self) -> (r: &Thread)
        requires
            self.thread_list@.len() > 0,
        ensures
            *r == self.thread_list@[0],
    {
        &self.thread_list[0]
    }

    pub fn page_set(&self) -> (r: &PageSet)
        ensures
            *r == self.page_set,
    {
        &self.page_set
    }

    /// Replaces the address space, and returns the one it replaced.
    pub fn set_page_set(&mut self, page_set: PageSet) -> (r: PageSet)
        ensures
            r == old(self).page_set,
            final(self).page_set == page_set,
            final(self).status == old(self).status,
            final(self).exit_code == old(self).exit_code,
            final(self).parent == old(self).parent,
            final(self).child_list@ == old(self).child_list@,
            final(self).thread_list@ == old(self).thread_list@,
            final(self).tid_allocator == old(self).tid_allocator,
    {
        let mut replaced = page_set;
        core::mem::swap(&mut self.page_set, &mut replaced);
        replaced
    }

    /// Hands out a thread identifier.
    pub fn allocate_tid(&mut self) -> (r: Tid)
        requires
            old(self).tid_allocator.wf(),
            old(self).tid_allocator.state < u64::MAX,
        ensures
            final(self).tid_allocator.wf(),
            !old(self).tid_allocator.in_use(r),
            final(self).tid_allocator.in_use(r),
            forall|t: Tid| t != r ==> #[trigger] final(self).tid_allocator.in_use(t) == old(self).tid_allocator.in_use(t),
            old(self).tid_allocator.deallocated_tid@.len() > 0 ==> r == old(self).tid_allocator.deallocated_tid@.last(),
            old(self).tid_allocator.deallocated_tid@.len() == 0 ==> r == old(self).tid_allocator.state,
            final(self).status == old(self).status,
            final(self).exit_code == old(self).exit_code,
            final(self).page_set == old(self).page_set,
            final(self).parent == old(self).parent,
            final(self).child_list@ == old(self).child_list@,
            final(self).thread_list@ == old(self).thread_list@,
    {
        self.tid_allocator.allocate()
    }

    /// Returns a thread identifier.
    pub fn deallocated_tid(&mut self, tid: Tid)
        requires
            old(self).tid_allocator.wf(),
            old(self).tid_allocator.in_use(tid),
        ensures
            final(self).tid_allocator.wf(),
            final(self).tid_allocator.deallocated_tid@ == old(self).tid_allocator.deallocated_tid@.push(tid),
            !final(self).tid_allocator.in_use(tid),
            forall|t: Tid| t != tid ==> #[trigger] final(self).tid_allocator.in_use(t) == old(self).tid_allocator.in_use(t),
            final(self).status == old(self).status,
            final(self).exit_code == old(self).exit_code,
            final(self).page_set == old(self).page_set,
            final(self).parent == old(self).parent,
            final(self).child_list@ == old(self).child_list@,
            final(self).thread_list@ == old(self).thread_list@,
    {
        self.tid_allocator.deallocate(tid);
    }
}

/// The pages of a thread's user stack.
pub open spec fn stack_range(bottom: int) -> PageRange {
    PageRange {
        start: PageNumber { bits: page_of_address(bottom) as u64 },
        end: PageNumber { bits: ceil_page_of_address(bottom + USER_STACK_SIZE) as u64 },
    }
}

/// The page of a thread's trap frame, as a range.
pub open spec fn trap_range(tid: int) -> PageRange {
    PageRange {
        start: PageNumber { bits: trap_context_page_of(tid) as u64 },
        end: PageNumber { bits: (trap_context_page_of(tid) + 1) as u64 },
    }
}

/// Whether a new thread of `process` with its stack above `user_stack_base` can be set up:
/// its identifier is below the bound, its stack stays below the sign bit, and either its stack
/// and trap-frame pages are free with the frames for them (`allocate_resource`), or its
/// trap-frame page is already mapped.
pub open spec fn thread_fits(
    process: &ProcessState,
    user_stack_base: VirtualAddress,
    allocate_resource: bool,
    allocator: &StackFrameAllocator,
) -> bool {
    let tid = process.tid_allocator.next();
    &&& process.tid_allocator.state < u64::MAX
    &&& pages_fit(&process.page_set, user_stack_base, tid, allocate_resource, allocator)
}

/// Whether the stack and trap-frame pages of thread `tid` fit in a space, or, without
/// `allocate_resource`, whether its trap-frame page is mapped.
pub open spec fn pages_fit(
    page_set: &PageSet,
    user_stack_base: VirtualAddress,
    tid: Tid,
    allocate_resource: bool,
    allocator: &StackFrameAllocator,
) -> bool {
    let bottom = user_stack_bottom_of(user_stack_base.bits as int, tid as int);
    &&& tid < crate::thread::MAX_THREADS
    &&& bottom + USER_STACK_SIZE < crate::address::VIRTUAL_SIGN_BIT
    &&& allocate_resource ==> {
        &&& page_set.fits(stack_range(bottom))
        &&& page_set.fits(trap_range(tid as int))
        &&& allocator.available() >= frame_budget(MapType::Framed, stack_range(bottom).start.bits as int,
            stack_range(bottom).end.bits as int) + 3
    }
    &&& !allocate_resource ==> page_set.page_table.lookup(trap_context_page_of(tid as int)) is Some
}

/// Whether thread `tid` of a program whose image has these loadable segments gets its stack
/// and trap-frame pages: its identifier is below the bound, its stack, above the highest
/// segment, stays below the sign bit, and its trap-frame page meets no segment.
pub open spec fn load_thread_fits(loads: Seq<crate::elf::ProgramHeaderInfo>, tid: Tid) -> bool {
    let base = crate::address::address_of_page(crate::page_set::top_page(loads, loads.len() as int)) + PAGE_SIZE;
    &&& tid < crate::thread::MAX_THREADS
    &&& user_stack_bottom_of(base, tid as int) + USER_STACK_SIZE < crate::address::VIRTUAL_SIGN_BIT
    &&& forall|i: int| 0 <= i < loads.len() ==> crate::page_set::ranges_disjoint(
        crate::page_set::load_range(#[trigger] loads[i]), trap_range(tid as int))
}

/// The frames that loading an image and giving thread `tid` its pages take, at most.
pub open spec fn load_thread_budget(loads: Seq<crate::elf::ProgramHeaderInfo>, tid: Tid) -> int {
    let base = crate::address::address_of_page(crate::page_set::top_page(loads, loads.len() as int)) + PAGE_SIZE;
    let stack = stack_range(user_stack_bottom_of(base, tid as int));
    3 + crate::page_set::load_budget(loads) + frame_budget(MapType::Framed, stack.start.bits as int,
        stack.end.bits as int) + 3
}

/// The thread's part of the budget is not negative.
pub proof fn lemma_load_thread_budget(loads: Seq<crate::elf::ProgramHeaderInfo>, tid: Tid)
    ensures
        load_thread_budget(loads, tid) >= 3 + crate::page_set::load_budget(loads),
{
    let base = crate::address::address_of_page(crate::page_set::top_page(loads, loads.len() as int)) + PAGE_SIZE;
    let stack = stack_range(user_stack_bottom_of(base, tid as int));
    if stack.start.bits < stack.end.bits {
        crate::page_table::lemma_leaf_key_monotonic(stack.start.bits as int, stack.end.bits - 1);
    }
}

/// The highest end page is at least every end page.
pub proof fn lemma_top_page_bound(loads: Seq<crate::elf::ProgramHeaderInfo>, n: int)
    requires
        0 <= n <= loads.len(),
    ensures
        forall|i: int| 0 <= i < n ==> crate::page_set::load_range(#[trigger] loads[i]).end.bits
            <= crate::page_set::top_page(loads, n),
        crate::page_set::top_page(loads, n) >= 0,
    decreases n,
{
    if n > 0 {
        lemma_top_page_bound(loads, n - 1);
    }
}

/// Above a freshly loaded image, a thread's pages fit when `load_thread_fits` holds.
pub proof fn lemma_thread_fits_after_load(
    set: &PageSet,
    loads: Seq<crate::elf::ProgramHeaderInfo>,
    base: VirtualAddress,
    tid: Tid,
)
    requires
        set.wf(),
        set.segment_list@.len() == loads.len(),
        forall|i: int| 0 <= i < loads.len() ==> (#[trigger] set.segment_list@[i]).page_range
            == crate::page_set::load_range(loads[i]),
        base.bits == crate::address::address_of_page(crate::page_set::top_page(loads, loads.len() as int)) + PAGE_SIZE,
        load_thread_fits(loads, tid),
    ensures
        set.fits(stack_range(user_stack_bottom_of(base.bits as int, tid as int))),
        set.fits(trap_range(tid as int)),
{
    let top = crate::page_set::top_page(loads, loads.len() as int);
    lemma_top_page_bound(loads, loads.len() as int);
    let bottom = user_stack_bottom_of(base.bits as int, tid as int);
    assert(top < PAGE_NUMBER_LIMIT) by {
        if loads.len() > 0 {
            assert(top == crate::page_set::load_range(loads[loads.len() - 1]).end.bits || top
                == crate::page_set::top_page(loads, loads.len() - 1));
        }
        lemma_top_page_range(loads, loads.len() as int);
    }
    assert(top * 4096 < crate::address::VIRTUAL_SIGN_BIT);
    assert(base.bits == (top + 1) * 4096);
    let q = bottom / 4096;
    assert(q >= top + 1) by {
        vstd::arithmetic::div_mod::lemma_div_is_ordered((top + 1) * 4096, bottom, 4096);
        vstd::arithmetic::div_mod::lemma_div_multiples_vanish(top + 1, 4096);
    }
    vstd::arithmetic::div_mod::lemma_small_mod(q as nat, PAGE_NUMBER_LIMIT as nat);
    let stack = stack_range(bottom);
    assert(stack.start.bits == q);
    crate::address::lemma_floor_le_ceil(bottom, bottom + USER_STACK_SIZE);
    crate::page_set::lemma_ceil_below_trampoline(bottom + USER_STACK_SIZE);
    assert forall|i: int| 0 <= i < set.segment_list@.len() implies crate::page_set::ranges_disjoint(
        #[trigger] set.segment_list@[i].page_range, stack) by {
        assert(crate::page_set::load_range(loads[i]).end.bits <= top);
    }
    assert forall|i: int| 0 <= i < set.segment_list@.len() implies crate::page_set::ranges_disjoint(
        #[trigger] set.segment_list@[i].page_range, trap_range(tid as int)) by {
        assert(crate::page_set::ranges_disjoint(crate::page_set::load_range(loads[i]), trap_range(tid as int)));
    }
}

/// The highest end page is a page number.
pub proof fn lemma_top_page_range(loads: Seq<crate::elf::ProgramHeaderInfo>, n: int)
    requires
        0 <= n <= loads.len(),
    ensures
        0 <= crate::page_set::top_page(loads, n) < PAGE_NUMBER_LIMIT,
    decreases n,
{
    if n > 0 {
        lemma_top_page_range(loads, n - 1);
        let c = crate::address::ceil_page_of_address(loads[n - 1].virtual_addr + loads[n - 1].mem_size);
        assert(0 <= c < PAGE_NUMBER_LIMIT);
    }
}

impl Thread {
    /// Creates a thread of process `pid`, whose state is `process`, with the next thread
    /// identifier. With `allocate_resource`, it adds the thread's user stack, readable, writable
    /// and reachable from user mode, and its trap-frame page, readable and writable; otherwise
    /// they must already be there, as after a fork. Returns `None`, changing nothing, when the
    /// identifier is past the bound, the stack would pass the sign bit, the pages are taken or
    /// missing, or the allocator lacks their frames.
    pub fn new(
        process: &mut ProcessState,
        pid: Pid,
        user_stack_base: VirtualAddress,
        allocate_resource: bool,
        allocator: &mut StackFrameAllocator,
        memory: &mut PhysicalMemory,
    ) -> (r: Option<Thread>)
        requires
            old(process).wf(old(memory)),
            old(allocator).wf(),
            old(memory).wf(),
            old(allocator).backed_by(old(memory)),
        ensures
            final(process).wf(final(memory)),
            final(allocator).wf(),
            final(memory).wf(),
            final(allocator).backed_by(final(memory)),
            final(memory).start == old(memory).start,
            final(memory).frame_count() == old(memory).frame_count(),
            final(process).status == old(process).status,
            final(process).exit_code == old(process).exit_code,
            final(process).parent == old(process).parent,
            final(process).child_list@ == old(process).child_list@,
            final(process).thread_list@ == old(process).thread_list@,
            final(process).page_set.trampoline_frame == old(process).page_set.trampoline_frame,
            r is Some <==> thread_fits(old(process), user_stack_base, allocate_resource, old(allocator)),
            r is None ==> final(process).page_set.segment_list@ == old(process).page_set.segment_list@
                && final(process).tid_allocator == old(process).tid_allocator,
            r matches Some(t) ==> {
                &&& !old(process).tid_allocator.in_use(t.tid)
                &&& final(process).tid_allocator.in_use(t.tid)
                &&& forall|x: Tid| x != t.tid ==> #[trigger] final(process).tid_allocator.in_use(x) == old(process).tid_allocator.in_use(x)
                &&& old(process).tid_allocator.deallocated_tid@.len() > 0 ==> t.tid == old(process).tid_allocator.deallocated_tid@.last()
                &&& old(process).tid_allocator.deallocated_tid@.len() == 0 ==> t.tid == old(process).tid_allocator.state
                &&& t.process == pid
                &&& t.user_stack_base == user_stack_base
                &&& t.state.wf()
                &&& t.state.user_stack_bottom.bits == user_stack_bottom_of(user_stack_base.bits as int, t.tid as int)
                &&& t.state.trap_context_page.bits == trap_context_page_of(t.tid as int)
                &&& final(process).page_set.page_table.lookup(t.state.trap_context_page.bits as int) is Some
                &&& t.state.trap_context_frame.bits == final(process).page_set.page_table.lookup(
                    t.state.trap_context_page.bits as int).unwrap().frame_of()
                &&& !allocate_resource ==> final(process).page_set == old(process).page_set
                &&& allocate_resource ==> {
                    let list = final(process).page_set.segment_list@;
                    let n = old(process).page_set.segment_list@.len();
                    &&& list.len() == n + 2
                    &&& list.subrange(0, n as int) == old(process).page_set.segment_list@
                    &&& list[n as int].page_range == stack_range(t.state.user_stack_bottom.bits as int)
                    &&& list[n as int].map_type == MapType::Framed
                    &&& list[n as int].map_permission == MAP_R | MAP_W | MAP_U
                    &&& list[n + 1int].page_range == trap_range(t.tid as int)
                    &&& list[n + 1int].map_type == MapType::Framed
                    &&& list[n + 1int].map_permission == MAP_R | MAP_W
                }
            },
    {
        proof {
            reveal(ProcessState::wf);
        }
        if process.tid_allocator.state == u64::MAX {
            return None;
        }
        let tid = process.tid_allocator.peek();
        let (bottom, page) = match thread_layout(user_stack_base, tid) {
            Some(layout) => layout,
            None => return None,
        };
        let top = VirtualAddress { bits: bottom.bits + USER_STACK_SIZE };
        let trap_bottom = VirtualAddress { bits: TRAP_CONTEXT_BASE + tid * PAGE_SIZE };
        let trap_top = VirtualAddress { bits: TRAP_CONTEXT_BASE + tid * PAGE_SIZE + PAGE_SIZE };
        proof {
            crate::thread::lemma_trap_page_address(tid as int);
        }
        if allocate_resource {
            let stack_start = bottom.floor();
            let stack_end = top.ceil();
            proof {
                crate::address::lemma_floor_le_ceil(bottom.bits as int, top.bits as int);
            }
            let stack = PageRange { start: stack_start, end: stack_end };
            let trap = PageRange { start: page, end: PageNumber { bits: page.bits + 1 } };
            if !process.page_set.fits_range(stack) || !process.page_set.fits_range(trap) {
                return None;
            }
            let ghost budget_stack = frame_budget(MapType::Framed, stack.start.bits as int, stack.end.bits as int);
            let ghost budget_trap = frame_budget(MapType::Framed, trap.start.bits as int, trap.end.bits as int);
            let stack_frames: u128 = if stack_start.bits < stack_end.bits {
                (stack_end.bits - stack_start.bits) as u128 + 2 * ((stack_end.bits - 1) / 512 - stack_start.bits / 512 + 1) as u128
            } else {
                0
            };
            proof {
                if stack_start.bits < stack_end.bits {
                    crate::page_table::lemma_leaf_key_monotonic(stack_start.bits as int, stack_end.bits - 1);
                }
            }
            assert(stack_frames == budget_stack);
            if !allocator.has_frames(stack_frames + 3) {
                return None;
            }
            assert(MAP_R | MAP_W | MAP_U == 22u64 && MAP_R | MAP_W == 6u64) by (bit_vector);
            let ghost before = process.page_set.segment_list@;
            let ok = process.page_set.insert_frame(bottom, top, MAP_R | MAP_W | MAP_U, allocator, memory);
            assert(ok);
            let ghost middle = process.page_set.segment_list@;
            proof {
                assert(stack.end.bits <= 0x400_0000) by {
                    let q = top.bits as int / 4096 + if top.bits % 4096 == 0 { 0int } else { 1int };
                    assert(q <= 0x400_0000);
                    vstd::arithmetic::div_mod::lemma_small_mod(q as nat, PAGE_NUMBER_LIMIT as nat);
                }
                assert forall|i: int| 0 <= i < middle.len() implies crate::page_set::ranges_disjoint(
                    #[trigger] middle[i].page_range, trap) by {
                    if i < before.len() {
                        assert(middle[i] == before[i]);
                    }
                }
            }
            let ok = process.page_set.insert_frame(trap_bottom, trap_top, MAP_R | MAP_W, allocator, memory);
            assert(ok);
            proof {
                let list = process.page_set.segment_list@;
                assert(list.subrange(0, before.len() as int) =~= before);
                let s = list[before.len() + 1int];
                assert(s.page_range.contains(page.bits as int));
                assert(s.mapped_in(&process.page_set.page_table));
            }
        }
        let entry = match process.page_set.translate(page) {
            Some(entry) => entry,
            None => {
                assert(!allocate_resource);
                return None;
            },
        };
        let allocated = process.allocate_tid();
        assert(allocated == tid);
        let state = ThreadState::new(page, entry.frame_number(), bottom);
        Some(Thread { tid, process: pid, user_stack_base, state })
    }
}

/// What a new thread's trap frame takes from the kernel.
#[derive(Copy, Clone, PartialEq, Eq, Structural, Debug)]
pub struct KernelContext {
    pub trampoline_frame: FrameNumber,
    pub kernel_satp: u64,
    pub kernel_stack: u64,
    pub user_sstatus: u64,
}

/// The `Process` struct is a process: its identifier, its state and its event bus.
pub struct Process {
    pub pid_handle: PidHandle,
    pub state: ProcessState,
    pub event_bus: EventBus,
}

impl Process {
    pub fn pid(&self) -> (r: Pid)
        ensures
            r == self.pid_handle.pid,
    {
        self.pid_handle.pid
    }

    pub fn state(&self) -> (r: &ProcessState)
        ensures
            *r == self.state,
    {
        &self.state
    }

    pub fn event_bus(&self) -> (r: &EventBus)
        ensures
            *r == self.event_bus,
    {
        &self.event_bus
    }
}

/// Whether a sequence of processes holds one with this identifier.
pub open spec fn pid_live(processes: Seq<Process>, pid: Pid) -> bool {
    exists|i: int| 0 <= i < processes.len() && processes[i].pid_handle.pid == pid
}

/// The position of the process with this identifier.
pub open spec fn pid_index(processes: Seq<Process>, pid: Pid) -> int {
    choose|i: int| 0 <= i < processes.len() && processes[i].pid_handle.pid == pid
}

/// The identifiers of a sequence of processes are pairwise distinct.
pub open spec fn unique_pids(processes: Seq<Process>) -> bool {
    forall|i: int, j: int| 0 <= i < j < processes.len() ==> processes[i].pid_handle.pid != processes[j].pid_handle.pid
}

/// In distinct identifiers, the position that holds one is its position.
pub proof fn lemma_pid_index(processes: Seq<Process>, i: int)
    requires
        unique_pids(processes),
        0 <= i < processes.len(),
    ensures
        pid_live(processes, processes[i].pid_handle.pid),
        pid_index(processes, processes[i].pid_handle.pid) == i,
{
    let k = pid_index(processes, processes[i].pid_handle.pid);
    assert(0 <= k < processes.len() && processes[k].pid_handle.pid == processes[i].pid_handle.pid);
    if k != i {
        if k < i {
        } else {
        }
    }
}

/// Keeping the identifiers of the first processes keeps where each of them is found.
pub proof fn lemma_same_pids(a: Seq<Process>, b: Seq<Process>)
    requires
        a.len() <= b.len(),
        forall|i: int| 0 <= i < a.len() ==> (#[trigger] b[i]).pid_handle.pid == a[i].pid_handle.pid,
        unique_pids(b),
    ensures
        unique_pids(a),
        forall|q: Pid| #[trigger] pid_live(a, q) ==> pid_live(b, q) && pid_index(b, q) == pid_index(a, q),
{
    assert forall|i: int, j: int| 0 <= i < j < a.len() implies a[i].pid_handle.pid != a[j].pid_handle.pid by {
        assert(b[i].pid_handle.pid != b[j].pid_handle.pid);
    }
    assert forall|q: Pid| #[trigger] pid_live(a, q) implies pid_live(b, q) && pid_index(b, q) == pid_index(a, q) by {
        let w = choose|w: int| 0 <= w < a.len() && a[w].pid_handle.pid == q;
        lemma_pid_index(a, w);
        assert(b[w].pid_handle.pid == q);
        lemma_pid_index(b, w);
    }
}

/// The pid of the init process.
pub const INIT_PID: Pid = 0;

/// The `ProcessMap` struct holds every process not yet reaped, and the identifier allocator.
pub struct ProcessMap {
    pub processes: Vec<Process>,
    pub pid_allocator: PidAllocator,
}

impl ProcessMap {
    /// Whether a process with this identifier is in the map.
    pub open spec fn live(&self, pid: Pid) -> bool {
        pid_live(self.processes@, pid)
    }

    /// The position of a process in the map.
    pub open spec fn index_of(&self, pid: Pid) -> int {
        pid_index(self.processes@, pid)
    }

    /// A runnable process has a thread; an exited one has neither threads nor children.
    pub open spec fn status_consistent(&self) -> bool {
        forall|i: int| 0 <= i < self.processes@.len() ==> {
            let p = #[trigger] self.processes@[i];
            &&& p.state.status == Status::Runnable ==> p.state.thread_list@.len() > 0
            &&& p.state.status == Status::Zombie ==> p.state.thread_list@.len() == 0
                && p.state.child_list@.len() == 0
        }
    }

    /// When the parent of a process is in the map, it lists the process as a child, unless the
    /// parent is the init process.
    pub open spec fn tree_consistent(&self) -> bool {
        forall|i: int, j: int|
            0 <= i < self.processes@.len() && 0 <= j < self.processes@.len()
                && #[trigger] self.processes@[i].state.parent == Some(#[trigger] self.processes@[j].pid_handle.pid)
                ==> self.processes@[j].pid_handle.pid == INIT_PID
                || self.processes@[j].state.child_list@.contains(self.processes@[i].pid_handle.pid)
    }

    pub open spec fn wf(&self, memory: &PhysicalMemory) -> bool {
        &&& self.pid_allocator.wf()
        &&& unique_pids(self.processes@)
        &&& forall|i: int| 0 <= i < self.processes@.len() ==> {
            let p = #[trigger] self.processes@[i];
            &&& p.state.wf(memory)
            &&& self.pid_allocator.in_use(p.pid_handle.pid)
        }
        &&& forall|i: int| 0 <= i < self.processes@.len() ==> ((#[trigger] self.processes@[i]).state.parent matches Some(q)
            ==> self.pid_allocator.in_use(q) && q != self.processes@[i].pid_handle.pid && self.processes@[i].pid_handle.pid != INIT_PID)
        &&& self.status_consistent()
        &&& self.tree_consistent()
    }

    /// Creates an empty map.
    pub fn new() -> (r: Self)
        ensures
            r.processes@.len() == 0,
            r.pid_allocator.state == 0,
            forall|m: &PhysicalMemory| r.wf(m),
    {
        ProcessMap { processes: Vec::new(), pid_allocator: PidAllocator::new() }
    }

    /// Whether a process with this identifier is registered: it is in the map and has not
    /// exited. An exited process stays held, for its parent to reap, but is no longer registered.
    pub open spec fn registered(&self, pid: Pid) -> bool {
        self.live(pid) && self.processes@[self.index_of(pid)].state.status == Status::Runnable
    }

    /// Returns the position of the registered process with an identifier.
    pub fn find(&self, pid: Pid) -> (r: Option<usize>)
        requires
            unique_pids(self.processes@),
        ensures
            r is None <==> !self.registered(pid),
            r matches Some(i) ==> i < self.processes@.len() && self.processes@[i as int].pid_handle.pid == pid
                && self.index_of(pid) == i,
    {
        match self.find_process(pid) {
            Some(i) => if self.processes[i].state.status == Status::Runnable {
                Some(i)
            } else {
                None
            },
            None => None,
        }
    }

    /// Returns the position of the process object with an identifier, registered or exited.
    pub fn find_process(&self, pid: Pid) -> (r: Option<usize>)
        requires
            unique_pids(self.processes@),
        ensures
            r is None <==> !self.live(pid),
            r matches Some(i) ==> i < self.processes@.len() && self.processes@[i as int].pid_handle.pid == pid
                && self.index_of(pid) == i,
    {
        let mut i: usize = 0;
        while i < self.processes.len()
            invariant
                i <= self.processes@.len(),
                unique_pids(self.processes@),
                forall|j: int| 0 <= j < i ==> self.processes@[j].pid_handle.pid != pid,
            decreases self.processes@.len() - i,
        {
            if self.processes[i].pid_handle.pid == pid {
                proof {
                    lemma_pid_index(self.processes@, i as int);
                }
                return Some(i);
            }
            i = i + 1;
        }
        None
    }

    /// Whether `fork(pid)` succeeds: the process is in the map and runnable, an identifier other
    /// than init's is left, the allocator holds the fork's budget, the child's stack stays below
    /// the sign bit, and the first trap-frame page is mapped.
    pub open spec fn fork_possible(&self, pid: Pid, allocator: &StackFrameAllocator) -> bool {
        let p = self.processes@[self.index_of(pid)];
        &&& self.live(pid)
        &&& p.state.status == Status::Runnable
        &&& self.pid_allocator.state < u64::MAX
        &&& self.pid_allocator.next() != INIT_PID
        &&& allocator.available() >= 3 + crate::page_set::fork_budget(p.state.page_set.segment_list@,
            p.state.page_set.segment_list@.len() as int)
        &&& p.state.thread_list@[0].user_stack_base.bits + USER_STACK_SIZE < crate::address::VIRTUAL_SIGN_BIT
        &&& p.state.page_set.page_table.lookup(crate::page_set::TRAP_CONTEXT_PAGE as int) is Some
    }

    /// The init process is in the map and runnable, so that it can take children.
    pub open spec fn init_usable(&self) -> bool {
        self.live(INIT_PID) && self.processes@[self.index_of(INIT_PID)].state.status == Status::Runnable
    }

    /// Returns the number of processes in the map.
    pub fn len(&self) -> (r: usize)
        ensures
            r == self.processes@.len(),
    {
        self.processes.len()
    }
}

/// Why a process could not be created or changed.
#[derive(Copy, Clone, PartialEq, Eq, Structural, Debug)]
pub enum ProcessError {
    /// The program image could not be loaded.
    Load(ElfError),
    /// The thread could not get its stack, its trap frame or an identifier.
    Thread,
    /// Every process identifier is taken.
    Exhausted,
}

/// In a consistent map, every runnable process has a thread, and every zombie has neither
/// threads nor children.
pub proof fn lemma_status_invariant(map: &ProcessMap, memory: &PhysicalMemory, i: int)
    requires
        map.wf(memory),
        0 <= i < map.processes@.len(),
    ensures
        map.processes@[i].state.status == Status::Runnable ==> map.processes@[i].state.thread_list@.len() > 0,
        map.processes@[i].state.status == Status::Zombie ==> map.processes@[i].state.thread_list@.len() == 0
            && map.processes@[i].state.child_list@.len() == 0,
{
    assert(map.status_consistent());
}

/// In a consistent map, the parent of a process, when it is in the map, lists the process as a
/// child, unless the parent is the init process.
pub proof fn lemma_tree_invariant(map: &ProcessMap, memory: &PhysicalMemory, child: int, parent: int)
    requires
        map.wf(memory),
        0 <= child < map.processes@.len(),
        0 <= parent < map.processes@.len(),
        map.processes@[child].state.parent == Some(map.processes@[parent].pid_handle.pid),
    ensures
        map.processes@[parent].pid_handle.pid == INIT_PID
            || map.processes@[parent].state.child_list@.contains(map.processes@[child].pid_handle.pid),
{
    assert(map.tree_consistent());
}

/// Whether the state of a process is consistent depends on the memory window alone.
pub proof fn lemma_state_same_window(state: &ProcessState, before: &PhysicalMemory, after: &PhysicalMemory)
    requires
        state.wf(before),
        after.start == before.start,
        after.frame_count() == before.frame_count(),
    ensures
        state.wf(after),
{
    reveal(ProcessState::wf);
    crate::page_set::lemma_backed_same_window(&state.page_set, before, after);
}

/// Whether a map is consistent depends on the memory window alone.
pub proof fn lemma_map_same_window(map: &ProcessMap, before: &PhysicalMemory, after: &PhysicalMemory)
    requires
        map.wf(before),
        after.start == before.start,
        after.frame_count() == before.frame_count(),
    ensures
        map.wf(after),
{
    assert forall|i: int| 0 <= i < map.processes@.len() implies (#[trigger] map.processes@[i]).state.wf(after) by {
        lemma_state_same_window(&map.processes@[i].state, before, after);
    }
}

/// Adding a runnable, parentless process with a fresh identifier keeps a map consistent.
#[verifier::rlimit(60)]
proof fn lemma_map_push(before: &ProcessMap, after: &ProcessMap, old_memory: &PhysicalMemory, memory: &PhysicalMemory)
    requires
        before.wf(old_memory),
        after.processes@.len() == before.processes@.len() + 1,
        after.processes@ == before.processes@.push(after.processes@.last()),
        after.pid_allocator.wf(),
        !before.pid_allocator.in_use(after.processes@.last().pid_handle.pid),
        after.pid_allocator.in_use(after.processes@.last().pid_handle.pid),
        forall|q: Pid| #[trigger] before.pid_allocator.in_use(q) ==> after.pid_allocator.in_use(q),
        after.processes@.last().state.wf(memory),
        after.processes@.last().state.parent is None,
        after.processes@.last().state.status == Status::Runnable,
        after.processes@.last().state.thread_list@.len() > 0,
        memory.start == old_memory.start,
        memory.frame_count() == old_memory.frame_count(),
    ensures
        after.wf(memory),
{
    let list = after.processes@;
    let old_list = before.processes@;
    assert forall|i: int, j: int| 0 <= i < j < list.len() implies list[i].pid_handle.pid != list[j].pid_handle.pid by {
        if j == old_list.len() {
            assert(before.pid_allocator.in_use(old_list[i].pid_handle.pid));
        } else {
            assert(list[i] == old_list[i] && list[j] == old_list[j]);
        }
    }
    assert forall|i: int| 0 <= i < list.len() implies {
        let p = #[trigger] list[i];
        &&& p.state.wf(memory)
        &&& after.pid_allocator.in_use(p.pid_handle.pid)
    } by {
        if i < old_list.len() {
            assert(list[i] == old_list[i]);
            assert(before.pid_allocator.in_use(old_list[i].pid_handle.pid));
            lemma_state_same_window(&old_list[i].state, old_memory, memory);
        }
    }
    assert forall|i: int, j: int|
        0 <= i < list.len() && 0 <= j < list.len()
            && #[trigger] list[i].state.parent == Some(#[trigger] list[j].pid_handle.pid)
            implies list[j].pid_handle.pid == INIT_PID
            || list[j].state.child_list@.contains(list[i].pid_handle.pid) by {
        if i < old_list.len() && j < old_list.len() {
            assert(list[i] == old_list[i] && list[j] == old_list[j]);
        } else if i < old_list.len() {
            assert(list[i] == old_list[i]);
            assert(before.pid_allocator.in_use(list[j].pid_handle.pid));
        }
    }
    assert forall|i: int| 0 <= i < list.len() implies ((#[trigger] list[i]).state.parent matches Some(q)
        ==> after.pid_allocator.in_use(q) && q != list[i].pid_handle.pid && list[i].pid_handle.pid != INIT_PID) by {
        if i < old_list.len() {
            assert(list[i] == old_list[i]);
        }
    }
    assert forall|i: int| 0 <= i < list.len() implies {
        let p = #[trigger] list[i];
        &&& p.state.status == Status::Runnable ==> p.state.thread_list@.len() > 0
        &&& p.state.status == Status::Zombie ==> p.state.thread_list@.len() == 0
            && p.state.child_list@.len() == 0
    } by {
        if i < old_list.len() {
            assert(list[i] == old_list[i]);
        }
    }
}

impl Process {
    /// Creates a process that runs the program of an ELF image, with one thread whose trap
    /// frame starts it at the entry point with the stack pointer at the top of its stack, and
    /// adds it to the map. Returns its identifier.
    #[verifier::rlimit(60)]
    pub fn new(
        map: &mut ProcessMap,
        elf_data: &[u8],
        kernel: KernelContext,
        allocator: &mut StackFrameAllocator,
        memory: &mut PhysicalMemory,
    ) -> (r: Result<Pid, ProcessError>)
        requires
            old(map).wf(old(memory)),
            kernel.trampoline_frame.wf(),
            old(allocator).wf(),
            old(memory).wf(),
            old(allocator).backed_by(old(memory)),
        ensures
            final(map).wf(final(memory)),
            final(allocator).wf(),
            final(memory).wf(),
            final(allocator).backed_by(final(memory)),
            final(memory).start == old(memory).start,
            final(memory).frame_count() == old(memory).frame_count(),
            r is Err ==> final(map).processes@ == old(map).processes@,
            !crate::elf::has_elf_magic(elf_data@) ==> r == Err::<Pid, ProcessError>(ProcessError::Load(ElfError::BadMagic)),
            crate::elf::has_elf_magic(elf_data@) && old(map).pid_allocator.state < u64::MAX
                && crate::page_set::elf_loadable(elf_data@)
                && load_thread_fits(crate::page_set::elf_loads(elf_data@), 0)
                && old(allocator).available() >= load_thread_budget(crate::page_set::elf_loads(elf_data@), 0)
                ==> r is Ok,
            r matches Ok(pid) ==> {
                let p = final(map).processes@.last();
                let t = p.state.thread_list@[0];
                &&& final(map).processes@ == old(map).processes@.push(p)
                &&& p.pid_handle.pid == pid
                &&& pid == old(map).pid_allocator.next()
                &&& !old(map).pid_allocator.in_use(pid)
                &&& p.state.status == Status::Runnable
                &&& p.state.parent is None
                &&& p.state.child_list@.len() == 0
                &&& p.state.thread_list@.len() == 1
                &&& t.state.trap_context.user_sepc == crate::elf::elf_entry_point(elf_data@)
                &&& t.state.trap_context.user_register@[REGISTER_SP as int] == t.state.user_stack_bottom.bits + USER_STACK_SIZE
                &&& t.state.trap_context.kernel_satp == kernel.kernel_satp
                &&& t.user_stack_base.bits == crate::address::address_of_page(crate::page_set::top_page(
                    crate::page_set::elf_loads(elf_data@), crate::page_set::elf_loads(elf_data@).len() as int)) + PAGE_SIZE
                &&& t.state.user_stack_bottom.bits == t.user_stack_base.bits
                &&& t.state.trap_context.kernel_sp == kernel.kernel_stack
            },
    {
        if map.pid_allocator.state == u64::MAX {
            if !crate::elf::has_magic_prefix(elf_data) {
                return Err(ProcessError::Load(ElfError::BadMagic));
            }
            return Err(ProcessError::Exhausted);
        }
        if !crate::elf::has_magic_prefix(elf_data) {
            return Err(ProcessError::Load(ElfError::BadMagic));
        }
        proof {
            lemma_load_thread_budget(crate::page_set::elf_loads(elf_data@), 0);
        }
        let (page_set, user_stack_base, entry_point) = match PageSet::from_elf(
            elf_data,
            kernel.trampoline_frame,
            allocator,
            memory,
        ) {
            Ok(loaded) => loaded,
            Err(e) => {
                proof {
                    lemma_map_same_window(map, old(memory), memory);
                }
                return Err(ProcessError::Load(e));
            },
        };
        let ghost loaded_allocator = *allocator;
        proof {
            let loads = crate::page_set::elf_loads(elf_data@);
            if crate::page_set::elf_loadable(elf_data@) && load_thread_fits(loads, 0) {
                lemma_thread_fits_after_load(&page_set, loads, user_stack_base, 0);
            }
        }
        let mut state = ProcessState::new(page_set, None);
        let pid = map.pid_allocator.peek();
        proof {
            reveal(ProcessState::wf);
        }
        let mut thread = match Thread::new(&mut state, pid, user_stack_base, true, allocator, memory) {
            Some(thread) => thread,
            None => {
                proof {
                    lemma_map_same_window(map, old(memory), memory);
                }
                return Err(ProcessError::Thread);
            },
        };
        let top = thread.state.user_stack_top();
        thread.state.trap_context = TrapContext::init_context(
            entry_point.bits,
            top.bits,
            kernel.user_sstatus,
            kernel.kernel_satp,
            kernel.kernel_stack,
        );
        state.thread_list.push(thread);
        proof {
            reveal(ProcessState::wf);
        }
        let ghost before = *map;
        let pid_handle = map.pid_allocator.allocate();
        assert(pid_handle.pid == pid);
        map.processes.push(Process { pid_handle, state, event_bus: EventBus::new() });
        proof {
            lemma_map_same_window(&before, old(memory), memory);
            lemma_map_push(&before, map, memory, memory);
        }
        Ok(pid)
    }
}

/// The state keeps its consistency when only its place in the tree, its status or exit code
/// change, or when it loses all its threads.
pub proof fn lemma_state_wf_kept(a: &ProcessState, b: &ProcessState, memory: &PhysicalMemory)
    requires
        a.wf(memory),
        b.page_set == a.page_set,
        b.tid_allocator == a.tid_allocator,
        b.thread_list@ == a.thread_list@ || b.thread_list@.len() == 0,
    ensures
        b.wf(memory),
{
    reveal(ProcessState::wf);
}

/// Changing nothing but event buses keeps a map consistent.
pub proof fn lemma_bus_change_keeps_wf(a: &ProcessMap, b: &ProcessMap, memory: &PhysicalMemory)
    requires
        a.wf(memory),
        b.pid_allocator == a.pid_allocator,
        b.processes@.len() == a.processes@.len(),
        forall|x: int| 0 <= x < a.processes@.len() ==> (#[trigger] b.processes@[x]).state == a.processes@[x].state
            && b.processes@[x].pid_handle == a.processes@[x].pid_handle,
    ensures
        b.wf(memory),
{
    let list = b.processes@;
    let before = a.processes@;
    assert forall|i: int, j: int| 0 <= i < j < list.len() implies list[i].pid_handle.pid != list[j].pid_handle.pid by {
        assert(before[i].pid_handle.pid != before[j].pid_handle.pid);
    }
    assert forall|i: int, j: int| 0 <= i < list.len() && 0 <= j < list.len()
        && #[trigger] list[i].state.parent == Some(#[trigger] list[j].pid_handle.pid)
        implies list[j].pid_handle.pid == INIT_PID
        || list[j].state.child_list@.contains(list[i].pid_handle.pid) by {
        assert(before[i].state.parent == Some(before[j].pid_handle.pid));
    }
    assert forall|i: int| 0 <= i < list.len() implies ((#[trigger] list[i]).state.parent matches Some(q)
        ==> b.pid_allocator.in_use(q) && q != list[i].pid_handle.pid && list[i].pid_handle.pid != INIT_PID) by {
        assert(before[i].state == list[i].state);
    }
    assert forall|i: int| 0 <= i < list.len() implies {
        let p = #[trigger] list[i];
        &&& p.state.wf(memory)
        &&& b.pid_allocator.in_use(p.pid_handle.pid)
    } by {
        assert(before[i].state == list[i].state);
    }
    assert forall|i: int| 0 <= i < list.len() implies {
        let p = #[trigger] list[i];
        &&& p.state.status == Status::Runnable ==> p.state.thread_list@.len() > 0
        &&& p.state.status == Status::Zombie ==> p.state.thread_list@.len() == 0
            && p.state.child_list@.len() == 0
    } by {
        assert(before[i].state == list[i].state);
    }
}

/// Turning a process that no other process has as parent, but perhaps the init process, into
/// a zombie with no thread and no child keeps a map consistent.
pub proof fn lemma_exit_keeps_wf(a: &ProcessMap, b: &ProcessMap, i: int, memory: &PhysicalMemory)
    requires
        a.wf(memory),
        0 <= i < a.processes@.len(),
        b.pid_allocator == a.pid_allocator,
        b.processes@.len() == a.processes@.len(),
        forall|x: int| 0 <= x < a.processes@.len() && x != i ==> #[trigger] b.processes@[x] == a.processes@[x],
        b.processes@[i].pid_handle == a.processes@[i].pid_handle,
        b.processes@[i].state.parent == a.processes@[i].state.parent,
        b.processes@[i].state.page_set == a.processes@[i].state.page_set,
        b.processes@[i].state.tid_allocator == a.processes@[i].state.tid_allocator,
        b.processes@[i].state.status == Status::Zombie,
        b.processes@[i].state.thread_list@.len() == 0,
        b.processes@[i].state.child_list@.len() == 0,
        a.processes@[i].pid_handle.pid != INIT_PID ==> forall|x: int| 0 <= x < a.processes@.len()
            ==> #[trigger] a.processes@[x].state.parent != Some(a.processes@[i].pid_handle.pid),
    ensures
        b.wf(memory),
{
    let list = b.processes@;
    let before = a.processes@;
    assert forall|x: int, y: int| 0 <= x < y < list.len() implies list[x].pid_handle.pid != list[y].pid_handle.pid by {
        assert(before[x].pid_handle.pid != before[y].pid_handle.pid);
    }
    assert forall|x: int, y: int| 0 <= x < list.len() && 0 <= y < list.len()
        && #[trigger] list[x].state.parent == Some(#[trigger] list[y].pid_handle.pid)
        implies list[y].pid_handle.pid == INIT_PID
        || list[y].state.child_list@.contains(list[x].pid_handle.pid) by {
        assert(before[x].state.parent == Some(before[y].pid_handle.pid));
        if y != i && before[y].pid_handle.pid != INIT_PID {
            assert(before[y].state.child_list@.contains(before[x].pid_handle.pid));
        }
    }
    assert forall|x: int| 0 <= x < list.len() implies ((#[trigger] list[x]).state.parent matches Some(q)
        ==> b.pid_allocator.in_use(q) && q != list[x].pid_handle.pid && list[x].pid_handle.pid != INIT_PID) by {
        assert(before[x].state.parent == list[x].state.parent);
    }
    assert forall|x: int| 0 <= x < list.len() implies {
        let p = #[trigger] list[x];
        &&& p.state.wf(memory)
        &&& b.pid_allocator.in_use(p.pid_handle.pid)
    } by {
        if x == i {
            lemma_state_wf_kept(&before[x].state, &list[x].state, memory);
        }
    }
    assert forall|x: int| 0 <= x < list.len() implies {
        let p = #[trigger] list[x];
        &&& p.state.status == Status::Runnable ==> p.state.thread_list@.len() > 0
        &&& p.state.status == Status::Zombie ==> p.state.thread_list@.len() == 0
            && p.state.child_list@.len() == 0
    } by {
    }
}

impl ProcessMap {
    /// Moves the process at `child` under the init process at `init`, or, with no init process
    /// to take it, leaves it without a parent.
    fn move_child(&mut self, child: usize, init: Option<usize>, Ghost(memory): Ghost<&PhysicalMemory>)
        requires
            old(self).wf(memory),
            child < old(self).processes@.len(),
            old(self).processes@[child as int].pid_handle.pid != INIT_PID,
            init matches Some(k) ==> k < old(self).processes@.len()
                && old(self).processes@[k as int].pid_handle.pid == INIT_PID
                && old(self).processes@[k as int].state.status == Status::Runnable,
        ensures
            final(self).wf(memory),
            final(self).processes@.len() == old(self).processes@.len(),
            final(self).pid_allocator == old(self).pid_allocator,
            forall|x: int| 0 <= x < old(self).processes@.len() ==> {
                let a = #[trigger] final(self).processes@[x];
                let b = old(self).processes@[x];
                &&& a.pid_handle == b.pid_handle
                &&& a.state.status == b.state.status
                &&& a.state.exit_code == b.state.exit_code
                &&& a.state.thread_list@ == b.state.thread_list@
                &&& a.state.page_set == b.state.page_set
                &&& a.state.tid_allocator == b.state.tid_allocator
                &&& a.event_bus == b.event_bus
                &&& x != child ==> a.state.parent == b.state.parent
                &&& (init matches Some(k) && x == k) ==> a.state.child_list@ == b.state.child_list@.push(
                    old(self).processes@[child as int].pid_handle.pid)
                &&& !(init matches Some(k) && x == k) ==> a.state.child_list@ == b.state.child_list@
            },
            final(self).processes@[child as int].state.parent == match init {
                Some(_) => Some(INIT_PID),
                None => None::<Pid>,
            },
    {
        let child_pid = self.processes[child].pid_handle.pid;
        let ghost before = self.processes@;
        match init {
            Some(k) => {
                self.processes[k].state.child_list.push(child_pid);
                self.processes[child].state.parent = Some(INIT_PID);
            },
            None => {
                self.processes[child].state.parent = None;
            },
        }
        proof {
            let list = self.processes@;
            assert forall|x: int| 0 <= x < list.len() implies (#[trigger] list[x]).state.wf(memory) by {
                lemma_state_wf_kept(&before[x].state, &list[x].state, memory);
            }
            assert forall|x: int| 0 <= x < list.len() implies ((#[trigger] list[x]).state.parent matches Some(q)
                ==> self.pid_allocator.in_use(q) && q != list[x].pid_handle.pid && list[x].pid_handle.pid != INIT_PID) by {
                if x == child && init is Some {
                    let k = init.unwrap();
                    assert(self.pid_allocator.in_use(before[k as int].pid_handle.pid));
                }
            }
            assert forall|i: int, j: int| 0 <= i < list.len() && 0 <= j < list.len()
                && #[trigger] list[i].state.parent == Some(#[trigger] list[j].pid_handle.pid)
                implies list[j].pid_handle.pid == INIT_PID
                || list[j].state.child_list@.contains(list[i].pid_handle.pid) by {
                if i != child {
                    assert(before[i].state.parent == Some(before[j].pid_handle.pid));
                    if before[j].pid_handle.pid != INIT_PID {
                        assert(before[j].state.child_list@.contains(before[i].pid_handle.pid));
                        let w = choose|w: int| 0 <= w < before[j].state.child_list@.len() && before[j].state.child_list@[w] == before[i].pid_handle.pid;
                        assert(list[j].state.child_list@[w] == before[i].pid_handle.pid);
                    }
                }
            }
        }
    }

    /// Ends the process `pid` with an exit code: it becomes a zombie with no thread and no child,
    /// its children move under the init process, and its parent's event bus gets
    /// `CHILD_PROCESS_QUIT`. Returns the tasks that event wakes.
    #[verifier::rlimit(100)]
    pub fn exit(&mut self, pid: Pid, exit_code: u64, memory: &PhysicalMemory) -> (r: Vec<u64>)
        requires
            old(self).wf(memory),
        ensures
            final(self).wf(memory),
            final(self).processes@.len() == old(self).processes@.len(),
            forall|x: int| 0 <= x < old(self).processes@.len() ==> (#[trigger] final(self).processes@[x]).pid_handle
                == old(self).processes@[x].pid_handle,
            !old(self).live(pid) ==> final(self).processes@ == old(self).processes@ && r@.len() == 0,
            !final(self).registered(pid),
            old(self).live(pid) ==> {
                let p = final(self).processes@[old(self).index_of(pid)];
                &&& p.state.status == Status::Zombie
                &&& p.state.exit_code == exit_code
                &&& p.state.thread_list@.len() == 0
                &&& p.state.child_list@.len() == 0
                &&& p.state.parent == old(self).processes@[old(self).index_of(pid)].state.parent
            },
            old(self).live(pid) && pid != INIT_PID ==> forall|c: int|
                0 <= c < old(self).processes@[old(self).index_of(pid)].state.child_list@.len() ==> {
                    let child = #[trigger] old(self).processes@[old(self).index_of(pid)].state.child_list@[c];
                    old(self).live(child) && child != INIT_PID && child != pid ==> {
                        &&& final(self).processes@[old(self).index_of(child)].state.parent == if old(self).init_usable() {
                            Some(INIT_PID)
                        } else {
                            None::<Pid>
                        }
                        &&& old(self).init_usable() ==> final(self).processes@[old(self).index_of(INIT_PID)].state.child_list@.contains(child)
                    }
                },
            old(self).live(pid) && pid != INIT_PID && old(self).init_usable() ==> {
                let before = old(self).processes@[old(self).index_of(INIT_PID)].state.child_list@;
                let after = final(self).processes@[old(self).index_of(INIT_PID)].state.child_list@;
                before.len() <= after.len() && after.subrange(0, before.len() as int) == before
            },
            old(self).live(pid) && old(self).processes@[old(self).index_of(pid)].state.parent is Some
                && old(self).live(old(self).processes@[old(self).index_of(pid)].state.parent.unwrap()) ==> ({
                let q = old(self).processes@[old(self).index_of(pid)].state.parent.unwrap();
                let bus = old(self).processes@[old(self).index_of(q)].event_bus;
                &&& final(self).processes@[old(self).index_of(q)].event_bus.event == bus.event | CHILD_PROCESS_QUIT
                &&& r@ == crate::event_bus::woken(bus.callback_list@, CHILD_PROCESS_QUIT, bus.callback_list@.len() as int)
            }),
    {
        let i = match self.find_process(pid) {
            None => return Vec::new(),
            Some(i) => i,
        };
        let ghost old_init_list = if old(self).live(INIT_PID) {
            old(self).processes@[old(self).index_of(INIT_PID)].state.child_list@
        } else {
            Seq::empty()
        };
        let init = if pid != INIT_PID {
            match self.find_process(INIT_PID) {
                Some(k) => if self.processes[k].state.status == Status::Runnable {
                    Some(k)
                } else {
                    None
                },
                None => None,
            }
        } else {
            None
        };
        if pid != INIT_PID {
            let count = self.processes[i].state.child_list.len();
            let mut c: usize = 0;
            while c < count
                invariant
                    self.wf(memory),
                    i < self.processes@.len(),
                    self.processes@.len() == old(self).processes@.len(),
                    self.processes@[i as int].pid_handle.pid == pid,
                    pid != INIT_PID,
                    count == self.processes@[i as int].state.child_list@.len(),
                    self.processes@[i as int].state.child_list@ == old(self).processes@[i as int].state.child_list@,
                    c <= count,
                    init matches Some(k) ==> k < self.processes@.len()
                        && self.processes@[k as int].pid_handle.pid == INIT_PID
                        && self.processes@[k as int].state.status == Status::Runnable,
                    forall|x: int| 0 <= x < old(self).processes@.len() ==> {
                        let a = #[trigger] self.processes@[x];
                        let b = old(self).processes@[x];
                        &&& a.pid_handle == b.pid_handle
                        &&& a.state.status == b.state.status
                        &&& a.state.exit_code == b.state.exit_code
                        &&& a.state.thread_list@ == b.state.thread_list@
                        &&& a.state.page_set == b.state.page_set
                        &&& a.state.tid_allocator == b.state.tid_allocator
                        &&& a.event_bus == b.event_bus
                        &&& x == i ==> a.state.parent == b.state.parent
                    },
                    forall|x: int| 0 <= x < self.processes@.len() && #[trigger] self.processes@[x].state.parent == Some(pid)
                        ==> exists|w: int| c <= w < count && self.processes@[i as int].state.child_list@[w] == self.processes@[x].pid_handle.pid,
                    init is Some <==> old(self).init_usable(),
                    init matches Some(k) ==> k == old(self).index_of(INIT_PID)
                        && old_init_list.len() <= self.processes@[k as int].state.child_list@.len()
                        && self.processes@[k as int].state.child_list@.subrange(0, old_init_list.len() as int) == old_init_list,
                    forall|w: int| 0 <= w < c ==> {
                        let child = #[trigger] old(self).processes@[i as int].state.child_list@[w];
                        old(self).live(child) && child != INIT_PID && child != pid ==> {
                            &&& self.processes@[old(self).index_of(child)].state.parent == match init {
                                Some(_) => Some(INIT_PID),
                                None => None::<Pid>,
                            }
                            &&& (init matches Some(k) ==> self.processes@[k as int].state.child_list@.contains(child))
                        }
                    },
                decreases count - c,
            {
                let child_pid = self.processes[i].state.child_list[c];
                match self.find_process(child_pid) {
                    Some(ci) => {
                        if ci != i && child_pid != INIT_PID {
                            let ghost before = self.processes@;
                            self.move_child(ci, init, Ghost(memory));
                            proof {
                                let list = self.processes@;
                                lemma_same_pids(old(self).processes@, list);
                                lemma_same_pids(old(self).processes@, before);
                                lemma_pid_index(old(self).processes@, ci as int);
                                if init is Some {
                                    let k = init.unwrap();
                                    assert(list[k as int].state.child_list@ == before[k as int].state.child_list@.push(child_pid));
                                    assert(list[k as int].state.child_list@.subrange(0, old_init_list.len() as int)
                                        =~= before[k as int].state.child_list@.subrange(0, old_init_list.len() as int));
                                    assert(list[k as int].state.child_list@.contains(child_pid)) by {
                                        assert(list[k as int].state.child_list@[before[k as int].state.child_list@.len() as int] == child_pid);
                                    }
                                }
                                assert forall|w: int| 0 <= w < c + 1 implies {
                                    let child = #[trigger] old(self).processes@[i as int].state.child_list@[w];
                                    old(self).live(child) && child != INIT_PID && child != pid ==> {
                                        &&& list[old(self).index_of(child)].state.parent == match init {
                                            Some(_) => Some(INIT_PID),
                                            None => None::<Pid>,
                                        }
                                        &&& (init matches Some(k) ==> list[k as int].state.child_list@.contains(child))
                                    }
                                } by {
                                    let child = old(self).processes@[i as int].state.child_list@[w];
                                    if w < c && old(self).live(child) && child != INIT_PID && child != pid {
                                        if init is Some {
                                            let k = init.unwrap();
                                            let v = choose|v: int| 0 <= v < before[k as int].state.child_list@.len()
                                                && before[k as int].state.child_list@[v] == child;
                                            assert(list[k as int].state.child_list@[v] == child);
                                        }
                                    }
                                }
                                assert forall|x: int| 0 <= x < list.len() && #[trigger] list[x].state.parent == Some(pid)
                                    implies exists|w: int| c + 1 <= w < count && list[i as int].state.child_list@[w] == list[x].pid_handle.pid by {
                                    assert(x != ci);
                                    assert(before[x].state.parent == Some(pid));
                                    let w = choose|w: int| c <= w < count && before[i as int].state.child_list@[w] == before[x].pid_handle.pid;
                                    if w == c {
                                        lemma_pid_index(before, x);
                                    }
                                    assert(list[i as int].state.child_list@[w] == list[x].pid_handle.pid);
                                }
                            }
                        } else {
                            proof {
                                let list = self.processes@;
                                assert forall|x: int| 0 <= x < list.len() && #[trigger] list[x].state.parent == Some(pid)
                                    implies exists|w: int| c + 1 <= w < count && list[i as int].state.child_list@[w] == list[x].pid_handle.pid by {
                                    let w = choose|w: int| c <= w < count && list[i as int].state.child_list@[w] == list[x].pid_handle.pid;
                                    if w == c {
                                        lemma_pid_index(list, x);
                                        if child_pid == INIT_PID {
                                            assert(list[x].pid_handle.pid == INIT_PID);
                                        }
                                        assert(x == ci);
                                    }
                                }
                            }
                        }
                    },
                    None => {
                        proof {
                            let list = self.processes@;
                            assert forall|x: int| 0 <= x < list.len() && #[trigger] list[x].state.parent == Some(pid)
                                implies exists|w: int| c + 1 <= w < count && list[i as int].state.child_list@[w] == list[x].pid_handle.pid by {
                                let w = choose|w: int| c <= w < count && list[i as int].state.child_list@[w] == list[x].pid_handle.pid;
                                if w == c {
                                    assert(pid_live(list, child_pid));
                                }
                            }
                        }
                    },
                }
                c = c + 1;
            }
        }
        let ghost before = *self;
        self.processes[i].state.status = Status::Zombie;
        self.processes[i].state.exit_code = exit_code;
        self.processes[i].state.thread_list.clear();
        self.processes[i].state.child_list.clear();
        proof {
            lemma_exit_keeps_wf(&before, self, i as int, memory);
            lemma_same_pids(before.processes@, self.processes@);
            lemma_pid_index(self.processes@, i as int);
            assert(!self.registered(pid));
        }
        let parent = self.processes[i].state.parent;
        match parent {
            None => Vec::new(),
            Some(q) => match self.find_process(q) {
                None => Vec::new(),
                Some(qi) => {
                    let ghost before = *self;
                    let woken = self.processes[qi].event_bus.push(CHILD_PROCESS_QUIT);
                    proof {
                        lemma_bus_change_keeps_wf(&before, self, memory);
                    }
                    woken
                },
            },
        }
    }
}

/// What a wait found.
#[derive(Copy, Clone, PartialEq, Eq, Structural, Debug)]
pub enum WaitResult {
    /// A child that had exited was reaped.
    Exited { pid: Pid, exit_code: u64 },
    /// No child that the wait is for has exited yet.
    Pending,
}

/// Whether a wait for `target` is for the child `pid`: -1 and 0 wait for any child.
pub open spec fn wait_matches(target: i64, pid: Pid) -> bool {
    target == -1 || target == 0 || (target > 0 && pid == target as u64)
}

/// Removing a zombie that no process has as parent, and dropping its identifier, keeps a map
/// consistent.
pub proof fn lemma_reap_keeps_wf(a: &ProcessMap, b: &ProcessMap, z: int, memory: &PhysicalMemory)
    requires
        a.wf(memory),
        0 <= z < a.processes@.len(),
        b.processes@ == a.processes@.remove(z),
        b.pid_allocator.wf(),
        forall|q: Pid| q != a.processes@[z].pid_handle.pid ==> #[trigger] b.pid_allocator.in_use(q) == a.pid_allocator.in_use(q),
        forall|x: int| 0 <= x < a.processes@.len() ==> #[trigger] a.processes@[x].state.parent != Some(a.processes@[z].pid_handle.pid),
    ensures
        b.wf(memory),
{
    let list = b.processes@;
    let before = a.processes@;
    assert forall|x: int| 0 <= x < list.len() implies #[trigger] list[x] == before[if x < z { x } else { x + 1 }] by {
    }
    assert forall|x: int, y: int| 0 <= x < y < list.len() implies list[x].pid_handle.pid != list[y].pid_handle.pid by {
        let ox = if x < z { x } else { x + 1 };
        let oy = if y < z { y } else { y + 1 };
        assert(before[ox].pid_handle.pid != before[oy].pid_handle.pid);
    }
    assert forall|x: int, y: int| 0 <= x < list.len() && 0 <= y < list.len()
        && #[trigger] list[x].state.parent == Some(#[trigger] list[y].pid_handle.pid)
        implies list[y].pid_handle.pid == INIT_PID
        || list[y].state.child_list@.contains(list[x].pid_handle.pid) by {
        let ox = if x < z { x } else { x + 1 };
        let oy = if y < z { y } else { y + 1 };
        assert(before[ox].state.parent == Some(before[oy].pid_handle.pid));
    }
    assert forall|x: int| 0 <= x < list.len() implies ((#[trigger] list[x]).state.parent matches Some(q)
        ==> b.pid_allocator.in_use(q) && q != list[x].pid_handle.pid && list[x].pid_handle.pid != INIT_PID) by {
        let ox = if x < z { x } else { x + 1 };
        assert(before[ox].state.parent != Some(before[z].pid_handle.pid));
    }
    assert forall|x: int| 0 <= x < list.len() implies {
        let p = #[trigger] list[x];
        &&& p.state.wf(memory)
        &&& b.pid_allocator.in_use(p.pid_handle.pid)
    } by {
        let ox = if x < z { x } else { x + 1 };
        assert(before[ox].pid_handle.pid != before[z].pid_handle.pid);
    }
    assert forall|x: int| 0 <= x < list.len() implies {
        let p = #[trigger] list[x];
        &&& p.state.status == Status::Runnable ==> p.state.thread_list@.len() > 0
        &&& p.state.status == Status::Zombie ==> p.state.thread_list@.len() == 0
            && p.state.child_list@.len() == 0
    } by {
        let ox = if x < z { x } else { x + 1 };
        assert(list[x] == before[ox]);
    }
}

/// A list without any occurrence of a value, order kept.
pub open spec fn drop_value(s: Seq<Pid>, v: Pid) -> Seq<Pid>
    decreases s.len(),
{
    if s.len() == 0 {
        s
    } else if s.last() == v {
        drop_value(s.drop_last(), v)
    } else {
        drop_value(s.drop_last(), v).push(s.last())
    }
}

/// Whether a wait for `target` can reap the child `child` of a map now.
pub open spec fn waitable(map: &ProcessMap, target: i64, child: Pid) -> bool {
    &&& map.live(child)
    &&& wait_matches(target, child)
    &&& child != INIT_PID
    &&& map.processes@[map.index_of(child)].state.status == Status::Zombie
}

/// Returns `list` without `value`, order kept.
pub fn without(list: &Vec<Pid>, value: Pid) -> (r: Vec<Pid>)
    ensures
        r@ == drop_value(list@, value),
        !r@.contains(value),
        forall|v: Pid| v != value ==> (#[trigger] r@.contains(v) == list@.contains(v)),
{
    let mut kept: Vec<Pid> = Vec::new();
    let mut i: usize = 0;
    while i < list.len()
        invariant
            i <= list@.len(),
            kept@ == drop_value(list@.subrange(0, i as int), value),
        decreases list@.len() - i,
    {
        let v = list[i];
        proof {
            assert(list@.subrange(0, i + 1).drop_last() =~= list@.subrange(0, i as int));
        }
        if v != value {
            kept.push(v);
        }
        i = i + 1;
    }
    assert(list@.subrange(0, list@.len() as int) =~= list@);
    proof {
        lemma_drop_value(list@, value);
    }
    kept
}

/// A list without a value does not hold it and holds every other value it held.
pub proof fn lemma_drop_value(s: Seq<Pid>, v: Pid)
    ensures
        !drop_value(s, v).contains(v),
        forall|w: Pid| w != v ==> (#[trigger] drop_value(s, v).contains(w) == s.contains(w)),
    decreases s.len(),
{
    if s.len() > 0 {
        lemma_drop_value(s.drop_last(), v);
        let d = drop_value(s.drop_last(), v);
        assert forall|w: Pid| w != v implies (#[trigger] drop_value(s, v).contains(w) == s.contains(w)) by {
            let r = drop_value(s, v);
            assert forall|k: int| 0 <= k < d.len() implies r[k] == d[k] by {}
            if s.contains(w) {
                let k = choose|k: int| 0 <= k < s.len() && s[k] == w;
                if k < s.len() - 1 {
                    assert(s.drop_last()[k] == w);
                    assert(s.drop_last().contains(w));
                    assert(d.contains(w));
                    let k2 = choose|k2: int| 0 <= k2 < d.len() && d[k2] == w;
                    assert(r[k2] == w);
                } else {
                    assert(r[d.len() as int] == w);
                }
            }
            if r.contains(w) {
                let k = choose|k: int| 0 <= k < r.len() && r[k] == w;
                if k < d.len() {
                    assert(d[k] == w);
                    assert(d.contains(w));
                    assert(s.drop_last().contains(w));
                    let m = choose|m: int| 0 <= m < s.drop_last().len() && s.drop_last()[m] == w;
                    assert(s[m] == w);
                } else {
                    assert(s[s.len() - 1] == w);
                }
            }
        }
        if drop_value(s, v).contains(v) {
            let k = choose|k: int| 0 <= k < drop_value(s, v).len() && drop_value(s, v)[k] == v;
            if k < d.len() {
                assert(d[k] == v);
            }
        }
    }
}

impl ProcessMap {
    /// Looks among the children of `pid` for one that has exited and that a wait for `target`
    /// is for; reaps the first such child in child-list order: it leaves the child list and the
    /// map, and its identifier is returned to the allocator.
    pub fn waitpid(
        &mut self,
        pid: Pid,
        target: i64,
        allocator: &mut StackFrameAllocator,
        memory: &mut PhysicalMemory,
    ) -> (r: WaitResult)
        requires
            old(self).wf(old(memory)),
            old(allocator).wf(),
            old(memory).wf(),
            old(allocator).backed_by(old(memory)),
        ensures
            final(self).wf(final(memory)),
            final(allocator).wf(),
            final(memory).wf(),
            final(allocator).backed_by(final(memory)),
            final(memory).start == old(memory).start,
            final(memory).frame_count() == old(memory).frame_count(),
            r == WaitResult::Pending ==> final(self).processes@ == old(self).processes@
                && (old(self).live(pid) ==> forall|c: int| 0 <= c < old(self).processes@[old(self).index_of(pid)].state.child_list@.len()
                    ==> {
                        let child = #[trigger] old(self).processes@[old(self).index_of(pid)].state.child_list@[c];
                        old(self).live(child) && wait_matches(target, child) && child != INIT_PID
                            ==> old(self).processes@[old(self).index_of(child)].state.status == Status::Runnable
                    }),
            r matches WaitResult::Exited { pid: child, exit_code } ==> {
                &&& old(self).live(pid)
                &&& old(self).processes@[old(self).index_of(pid)].state.child_list@.contains(child)
                &&& waitable(old(self), target, child)
                &&& exists|k: int| 0 <= k < old(self).processes@[old(self).index_of(pid)].state.child_list@.len()
                    && old(self).processes@[old(self).index_of(pid)].state.child_list@[k] == child
                    && forall|j: int| 0 <= j < k ==> !waitable(old(self),
                        target, #[trigger] old(self).processes@[old(self).index_of(pid)].state.child_list@[j])
                &&& final(self).live(pid)
                &&& final(self).processes@[final(self).index_of(pid)].state.child_list@
                    == drop_value(old(self).processes@[old(self).index_of(pid)].state.child_list@, child)
                &&& old(self).live(child)
                &&& wait_matches(target, child)
                &&& old(self).processes@[old(self).index_of(child)].state.status == Status::Zombie
                &&& old(self).processes@[old(self).index_of(child)].state.exit_code == exit_code
                &&& !final(self).live(child)
                &&& final(self).processes@.len() == old(self).processes@.len() - 1
            },
    {
        let i = match self.find_process(pid) {
            None => return WaitResult::Pending,
            Some(i) => i,
        };
        let count = self.processes[i].state.child_list.len();
        let mut c: usize = 0;
        while c < count
            invariant
                self.wf(memory),
                *self == *old(self),
                *memory == *old(memory),
                *allocator == *old(allocator),
                allocator.wf(),
                memory.wf(),
                allocator.backed_by(memory),
                i < self.processes@.len(),
                i == self.index_of(pid),
                self.processes@[i as int].pid_handle.pid == pid,
                count == self.processes@[i as int].state.child_list@.len(),
                c <= count,
                forall|k: int| 0 <= k < c ==> {
                    let child = #[trigger] self.processes@[i as int].state.child_list@[k];
                    self.live(child) && wait_matches(target, child) && child != INIT_PID
                        ==> self.processes@[self.index_of(child)].state.status == Status::Runnable
                },
            decreases count - c,
        {
            let child = self.processes[i].state.child_list[c];
            let matches: bool = child != INIT_PID && (target == -1 || target == 0 || (target > 0 && child == target as u64));
            match self.find_process(child) {
                Some(ci) => {
                    if matches && self.processes[ci].state.status == Status::Zombie {
                        let exit_code = self.processes[ci].state.exit_code;
                        proof {
                            assert(self.processes@[i as int].state.child_list@.contains(child));
                            assert forall|x: int| 0 <= x < self.processes@.len() implies
                                #[trigger] self.processes@[x].state.parent != Some(child) by {
                                if self.processes@[x].state.parent == Some(child) {
                                    assert(self.processes@[ci as int].state.child_list@.len() == 0);
                                    assert(self.processes@[ci as int].state.child_list@.contains(self.processes@[x].pid_handle.pid));
                                }
                            }
                        }
                        let ghost before_reap = *self;
                        let reaped = self.processes.remove(ci);
                        self.pid_allocator.deallocate(child);
                        proof {
                            lemma_reap_keeps_wf(&before_reap, self, ci as int, memory);
                            assert forall|x: int| 0 <= x < self.processes@.len() implies #[trigger] self.processes@[x].pid_handle.pid != child by {
                                let ox = if x < ci { x } else { x + 1 };
                                assert(self.processes@[x] == before_reap.processes@[ox]);
                                assert(before_reap.processes@[ox].pid_handle.pid != before_reap.processes@[ci as int].pid_handle.pid);
                            }
                            lemma_pid_index(old(self).processes@, ci as int);
                        }
                        let parent_index: usize = if ci < i { i - 1 } else { i };
                        assert(self.processes@[parent_index as int] == before_reap.processes@[i as int]);
                        let kept = without(&self.processes[parent_index].state.child_list, child);
                        let ghost before_list = *self;
                        self.processes[parent_index].state.child_list = kept;
                        proof {
                            lemma_pid_index(self.processes@, parent_index as int);
                            assert forall|j: int| 0 <= j < c implies !waitable(old(self), target,
                                #[trigger] old(self).processes@[i as int].state.child_list@[j]) by {
                            }
                            lemma_child_list_shrinks(&before_list, self, parent_index as int, child, memory);
                            reveal(ProcessState::wf);
                            assert(before_reap.processes@[ci as int].state.wf(memory));
                        }
                        let ghost released_from = *memory;
                        reaped.state.page_set.release(allocator, memory);
                        proof {
                            lemma_map_same_window(self, &released_from, memory);
                        }
                        return WaitResult::Exited { pid: child, exit_code };
                    }
                    proof {
                        lemma_pid_index(self.processes@, ci as int);
                    }
                },
                None => {},
            }
            c = c + 1;
        }
        WaitResult::Pending
    }
}

/// Dropping from a child list a child that no longer matters to the tree keeps a map consistent.
pub proof fn lemma_child_list_shrinks(a: &ProcessMap, b: &ProcessMap, i: int, child: Pid, memory: &PhysicalMemory)
    requires
        a.wf(memory),
        0 <= i < a.processes@.len(),
        b.pid_allocator == a.pid_allocator,
        b.processes@.len() == a.processes@.len(),
        forall|x: int| 0 <= x < a.processes@.len() && x != i ==> #[trigger] b.processes@[x] == a.processes@[x],
        b.processes@[i].pid_handle == a.processes@[i].pid_handle,
        b.processes@[i].state.parent == a.processes@[i].state.parent,
        b.processes@[i].state.page_set == a.processes@[i].state.page_set,
        b.processes@[i].state.tid_allocator == a.processes@[i].state.tid_allocator,
        b.processes@[i].state.status == a.processes@[i].state.status,
        b.processes@[i].state.thread_list@ == a.processes@[i].state.thread_list@,
        a.processes@[i].state.status == Status::Runnable,
        forall|v: Pid| v != child ==> (#[trigger] b.processes@[i].state.child_list@.contains(v)
            == a.processes@[i].state.child_list@.contains(v)),
        forall|x: int| 0 <= x < a.processes@.len() ==> #[trigger] a.processes@[x].pid_handle.pid != child,
    ensures
        b.wf(memory),
{
    let list = b.processes@;
    let before = a.processes@;
    assert forall|x: int, y: int| 0 <= x < y < list.len() implies list[x].pid_handle.pid != list[y].pid_handle.pid by {
        assert(before[x].pid_handle.pid != before[y].pid_handle.pid);
    }
    assert forall|x: int, y: int| 0 <= x < list.len() && 0 <= y < list.len()
        && #[trigger] list[x].state.parent == Some(#[trigger] list[y].pid_handle.pid)
        implies list[y].pid_handle.pid == INIT_PID
        || list[y].state.child_list@.contains(list[x].pid_handle.pid) by {
        assert(before[x].state.parent == Some(before[y].pid_handle.pid));
        assert(before[x].pid_handle.pid != child);
    }
    assert forall|x: int| 0 <= x < list.len() implies ((#[trigger] list[x]).state.parent matches Some(q)
        ==> b.pid_allocator.in_use(q) && q != list[x].pid_handle.pid && list[x].pid_handle.pid != INIT_PID) by {
        assert(before[x].state.parent == list[x].state.parent);
    }
    assert forall|x: int| 0 <= x < list.len() implies {
        let p = #[trigger] list[x];
        &&& p.state.wf(memory)
        &&& b.pid_allocator.in_use(p.pid_handle.pid)
    } by {
        if x == i {
            lemma_state_wf_kept(&before[x].state, &list[x].state, memory);
        }
    }
    assert forall|x: int| 0 <= x < list.len() implies {
        let p = #[trigger] list[x];
        &&& p.state.status == Status::Runnable ==> p.state.thread_list@.len() > 0
        &&& p.state.status == Status::Zombie ==> p.state.thread_list@.len() == 0
            && p.state.child_list@.len() == 0
    } by {
    }
}

/// Replacing the address space of one process with another consistent one, or changing its
/// threads' trap frames, keeps a map consistent.
pub proof fn lemma_state_replaced(a: &ProcessMap, b: &ProcessMap, i: int, memory: &PhysicalMemory)
    requires
        a.wf(memory),
        0 <= i < a.processes@.len(),
        b.pid_allocator == a.pid_allocator,
        b.processes@.len() == a.processes@.len(),
        forall|x: int| 0 <= x < a.processes@.len() && x != i ==> #[trigger] b.processes@[x] == a.processes@[x],
        b.processes@[i].pid_handle == a.processes@[i].pid_handle,
        b.processes@[i].state.parent == a.processes@[i].state.parent,
        b.processes@[i].state.status == a.processes@[i].state.status,
        b.processes@[i].state.child_list@ == a.processes@[i].state.child_list@,
        b.processes@[i].state.thread_list@.len() == a.processes@[i].state.thread_list@.len()
            || (a.processes@[i].state.status == Status::Runnable && b.processes@[i].state.thread_list@.len() > 0),
        b.processes@[i].state.wf(memory),
    ensures
        b.wf(memory),
{
    let list = b.processes@;
    let before = a.processes@;
    assert forall|x: int, y: int| 0 <= x < y < list.len() implies list[x].pid_handle.pid != list[y].pid_handle.pid by {
        assert(before[x].pid_handle.pid != before[y].pid_handle.pid);
    }
    assert forall|x: int, y: int| 0 <= x < list.len() && 0 <= y < list.len()
        && #[trigger] list[x].state.parent == Some(#[trigger] list[y].pid_handle.pid)
        implies list[y].pid_handle.pid == INIT_PID
        || list[y].state.child_list@.contains(list[x].pid_handle.pid) by {
        assert(before[x].state.parent == Some(before[y].pid_handle.pid));
    }
    assert forall|x: int| 0 <= x < list.len() implies ((#[trigger] list[x]).state.parent matches Some(q)
        ==> b.pid_allocator.in_use(q) && q != list[x].pid_handle.pid && list[x].pid_handle.pid != INIT_PID) by {
        assert(before[x].state.parent == list[x].state.parent);
    }
    assert forall|x: int| 0 <= x < list.len() implies {
        let p = #[trigger] list[x];
        &&& p.state.wf(memory)
        &&& b.pid_allocator.in_use(p.pid_handle.pid)
    } by {
    }
    assert forall|x: int| 0 <= x < list.len() implies {
        let p = #[trigger] list[x];
        &&& p.state.status == Status::Runnable ==> p.state.thread_list@.len() > 0
        &&& p.state.status == Status::Zombie ==> p.state.thread_list@.len() == 0
            && p.state.child_list@.len() == 0
    } by {
    }
}

/// Adding a forked child, listed as a child of its runnable parent, keeps a map consistent.
pub proof fn lemma_map_push_child(a: &ProcessMap, b: &ProcessMap, i: int, memory: &PhysicalMemory)
    requires
        a.wf(memory),
        0 <= i < a.processes@.len(),
        a.processes@[i].state.status == Status::Runnable,
        b.processes@.len() == a.processes@.len() + 1,
        forall|x: int| 0 <= x < a.processes@.len() && x != i ==> #[trigger] b.processes@[x] == a.processes@[x],
        b.processes@[i].pid_handle == a.processes@[i].pid_handle,
        b.processes@[i].state.parent == a.processes@[i].state.parent,
        b.processes@[i].state.status == a.processes@[i].state.status,
        b.processes@[i].state.thread_list@ == a.processes@[i].state.thread_list@,
        b.processes@[i].state.page_set == a.processes@[i].state.page_set,
        b.processes@[i].state.tid_allocator == a.processes@[i].state.tid_allocator,
        b.processes@[i].state.child_list@ == a.processes@[i].state.child_list@.push(b.processes@.last().pid_handle.pid),
        b.pid_allocator.wf(),
        !a.pid_allocator.in_use(b.processes@.last().pid_handle.pid),
        b.pid_allocator.in_use(b.processes@.last().pid_handle.pid),
        forall|q: Pid| #[trigger] a.pid_allocator.in_use(q) ==> b.pid_allocator.in_use(q),
        b.processes@.last().pid_handle.pid != INIT_PID,
        b.processes@.last().state.parent == Some(a.processes@[i].pid_handle.pid),
        b.processes@.last().state.status == Status::Runnable,
        b.processes@.last().state.thread_list@.len() > 0,
        b.processes@.last().state.wf(memory),
    ensures
        b.wf(memory),
{
    let list = b.processes@;
    let before = a.processes@;
    let n = before.len() as int;
    let c = list[n];
    assert forall|x: int, y: int| 0 <= x < y < list.len() implies list[x].pid_handle.pid != list[y].pid_handle.pid by {
        if y == n {
            assert(a.pid_allocator.in_use(before[x].pid_handle.pid));
        } else {
            assert(before[x].pid_handle.pid != before[y].pid_handle.pid);
        }
    }
    assert forall|x: int, y: int| 0 <= x < list.len() && 0 <= y < list.len()
        && #[trigger] list[x].state.parent == Some(#[trigger] list[y].pid_handle.pid)
        implies list[y].pid_handle.pid == INIT_PID
        || list[y].state.child_list@.contains(list[x].pid_handle.pid) by {
        if x == n {
            if y != i {
                assert(before[y].pid_handle.pid != before[i].pid_handle.pid);
            }
            assert(list[i].state.child_list@[list[i].state.child_list@.len() - 1] == c.pid_handle.pid);
        } else if y == n {
            assert(before[x].state.parent matches Some(q) && a.pid_allocator.in_use(q));
        } else {
            assert(before[x].state.parent == Some(before[y].pid_handle.pid));
            if before[y].pid_handle.pid != INIT_PID {
                assert(before[y].state.child_list@.contains(before[x].pid_handle.pid));
                if y == i {
                    let w = choose|w: int| 0 <= w < before[y].state.child_list@.len() && before[y].state.child_list@[w] == before[x].pid_handle.pid;
                    assert(list[y].state.child_list@[w] == before[x].pid_handle.pid);
                }
            }
        }
    }
    assert forall|x: int| 0 <= x < list.len() implies ((#[trigger] list[x]).state.parent matches Some(q)
        ==> b.pid_allocator.in_use(q) && q != list[x].pid_handle.pid && list[x].pid_handle.pid != INIT_PID) by {
        if x == n {
            assert(a.pid_allocator.in_use(before[i].pid_handle.pid));
        } else {
            assert(before[x].state.parent == list[x].state.parent);
        }
    }
    assert forall|x: int| 0 <= x < list.len() implies {
        let p = #[trigger] list[x];
        &&& p.state.wf(memory)
        &&& b.pid_allocator.in_use(p.pid_handle.pid)
    } by {
        if x < n {
            assert(a.pid_allocator.in_use(before[x].pid_handle.pid));
            if x == i {
                lemma_state_wf_kept(&before[x].state, &list[x].state, memory);
            }
        }
    }
    assert forall|x: int| 0 <= x < list.len() implies {
        let p = #[trigger] list[x];
        &&& p.state.status == Status::Runnable ==> p.state.thread_list@.len() > 0
        &&& p.state.status == Status::Zombie ==> p.state.thread_list@.len() == 0
            && p.state.child_list@.len() == 0
    } by {
    }
}

impl ProcessMap {
    /// Forks the runnable process `pid`: the child gets a new identifier, the parent as its
    /// parent, a copy-on-write clone of the parent's address space, and one thread whose trap
    /// frame is the parent's main trap frame with the return value register set to zero. The
    /// parent lists the child. Returns the child's identifier, or `None` when the process is not
    /// runnable, no identifier or frame is left, or the child's thread cannot be set up.
    pub fn fork(
        &mut self,
        pid: Pid,
        allocator: &mut StackFrameAllocator,
        memory: &mut PhysicalMemory,
    ) -> (r: Option<Pid>)
        requires
            old(self).wf(old(memory)),
            old(allocator).wf(),
            old(memory).wf(),
            old(allocator).backed_by(old(memory)),
        ensures
            final(self).wf(final(memory)),
            final(allocator).wf(),
            final(memory).wf(),
            final(allocator).backed_by(final(memory)),
            final(memory).start == old(memory).start,
            final(memory).frame_count() == old(memory).frame_count(),
            r is Some <==> old(self).fork_possible(pid, old(allocator)),
            r matches Some(child) ==> child == old(self).pid_allocator.next(),
            r matches Some(child) ==> {
                let i = old(self).index_of(pid);
                let c = final(self).processes@.last();
                let parent_thread = old(self).processes@[i].state.thread_list@[0];
                let child_thread = c.state.thread_list@[0];
                &&& old(self).live(pid)
                &&& old(self).processes@[i].state.status == Status::Runnable
                &&& !old(self).pid_allocator.in_use(child)
                &&& final(self).processes@.len() == old(self).processes@.len() + 1
                &&& c.pid_handle.pid == child
                &&& c.state.parent == Some(pid)
                &&& c.state.status == Status::Runnable
                &&& final(self).processes@[i].state.child_list@ == old(self).processes@[i].state.child_list@.push(child)
                &&& c.state.child_list@.len() == 0
                &&& c.state.thread_list@.len() == 1
                &&& child_thread.user_stack_base == parent_thread.user_stack_base
                &&& child_thread.state.trap_context.user_register@ == parent_thread.state.trap_context.user_register@.update(
                    REGISTER_A0 as int, 0)
                &&& child_thread.state.trap_context.user_sepc == parent_thread.state.trap_context.user_sepc
                &&& child_thread.state.trap_context.user_sstatus == parent_thread.state.trap_context.user_sstatus
                &&& child_thread.state.trap_context.kernel_sp == parent_thread.state.trap_context.kernel_sp
                &&& child_thread.state.trap_context.kernel_satp == parent_thread.state.trap_context.kernel_satp
                &&& forall|k: int, p: int| 0 <= k < old(self).processes@[i].state.page_set.segment_list@.len()
                    && old(self).processes@[i].state.page_set.segment_list@[k].page_range.start.bits < crate::page_set::TRAP_CONTEXT_PAGE
                    && #[trigger] old(self).processes@[i].state.page_set.segment_list@[k].page_range.contains(p) ==> {
                    &&& final(self).processes@[i].state.page_set.page_table.lookup(p) == Some(crate::page_set::cow_entry(
                        old(self).processes@[i].state.page_set.page_table.lookup(p).unwrap()))
                    &&& c.state.page_set.page_table.lookup(p) == final(self).processes@[i].state.page_set.page_table.lookup(p)
                }
            },
    {
        let i = match self.find_process(pid) {
            None => return None,
            Some(i) => i,
        };
        if self.processes[i].state.status != Status::Runnable || self.pid_allocator.state == u64::MAX {
            return None;
        }
        let child_pid = self.pid_allocator.peek();
        if child_pid == INIT_PID {
            return None;
        }
        proof {
            reveal(ProcessState::wf);
        }
        let ghost before_clone = *self;
        let child_set = match PageSet::clone_from(&mut self.processes[i].state.page_set, allocator, memory) {
            Some(set) => set,
            None => {
                proof {
                    lemma_map_same_window(&before_clone, old(memory), memory);
                    lemma_state_wf_changed_set(&before_clone.processes@[i as int].state, &self.processes@[i as int].state, old(memory), memory);
                    lemma_state_replaced(&before_clone, self, i as int, memory);
                }
                return None;
            },
        };
        proof {
            lemma_map_same_window(&before_clone, old(memory), memory);
            lemma_state_wf_changed_set(&before_clone.processes@[i as int].state, &self.processes@[i as int].state, old(memory), memory);
            lemma_state_replaced(&before_clone, self, i as int, memory);
        }
        let user_stack_base = self.processes[i].state.thread_list[0].user_stack_base;
        let context = self.processes[i].state.thread_list[0].state.trap_context.copy();
        let mut child_state = ProcessState::new(child_set, Some(pid));
        proof {
            reveal(ProcessState::wf);
        }
        let ghost before_thread = *self;
        proof {
            let old_parent = before_clone.processes@[i as int].state.page_set;
            let t = crate::page_set::TRAP_CONTEXT_PAGE as int;
            assert(child_state.tid_allocator.next() == 0);
            if old_parent.page_table.lookup(t) is Some {
                let k = choose|k: int| 0 <= k < old_parent.segment_list@.len() && old_parent.segment_list@[k].page_range.contains(t);
                assert(child_state.page_set.segment_list@[k].page_range == old_parent.segment_list@[k].page_range);
                assert(child_state.page_set.segment_list@[k].mapped_in(&child_state.page_set.page_table));
            }
            if child_state.page_set.page_table.lookup(t) is Some {
                let k = choose|k: int| 0 <= k < child_state.page_set.segment_list@.len()
                    && child_state.page_set.segment_list@[k].page_range.contains(t);
                assert(child_state.page_set.segment_list@[k].page_range == old_parent.segment_list@[k].page_range);
                assert(old_parent.segment_list@[k].mapped_in(&old_parent.page_table));
            }
        }
        let mut thread = match Thread::new(&mut child_state, child_pid, user_stack_base, false, allocator, memory) {
            Some(thread) => thread,
            None => {
                proof {
                    lemma_map_same_window(&before_thread, memory, memory);
                }
                return None;
            },
        };
        thread.state.trap_context = context;
        thread.state.trap_context.set_user_register(REGISTER_A0, 0);
        child_state.thread_list.push(thread);
        proof {
            reveal(ProcessState::wf);
        }
        let ghost before_push = *self;
        let handle = self.pid_allocator.allocate();
        assert(handle.pid == child_pid);
        self.processes[i].state.child_list.push(child_pid);
        self.processes.push(Process { pid_handle: handle, state: child_state, event_bus: EventBus::new() });
        proof {
            lemma_map_same_window(&before_push, old(memory), memory);
            lemma_map_push_child(&before_push, self, i as int, memory);
            let c = self.processes@.last();
            assert(c.pid_handle.pid == child_pid);
            assert(c.state.parent == Some(pid));
            assert(c.state.thread_list@.len() == 1);
            assert(self.processes@[i as int].state.child_list@ == old(self).processes@[i as int].state.child_list@.push(child_pid));
            assert(c.state.thread_list@[0].user_stack_base == old(self).processes@[i as int].state.thread_list@[0].user_stack_base);
            assert(c.state.thread_list@[0].state.trap_context.user_sepc == old(self).processes@[i as int].state.thread_list@[0].state.trap_context.user_sepc);
        }
        Some(child_pid)
    }
}

/// Replacing the address space of a state with another consistent one keeps it consistent.
pub proof fn lemma_state_wf_changed_set(a: &ProcessState, b: &ProcessState, before: &PhysicalMemory, memory: &PhysicalMemory)
    requires
        a.wf(before),
        b.page_set.wf(),
        b.page_set.backed_by(memory),
        b.tid_allocator == a.tid_allocator,
        b.thread_list@ == a.thread_list@,
    ensures
        b.wf(memory),
{
    reveal(ProcessState::wf);
}

impl Thread {
    /// Gives the thread a user stack above `user_stack_base` and its trap-frame page in a new
    /// address space, as after an exec. Returns `false`, changing nothing, when the stack would
    /// pass the sign bit, the pages are taken, or the allocator lacks their frames.
    pub fn reallocate_resource(
        &mut self,
        page_set: &mut PageSet,
        user_stack_base: VirtualAddress,
        allocator: &mut StackFrameAllocator,
        memory: &mut PhysicalMemory,
    ) -> (r: bool)
        requires
            old(page_set).wf(),
            old(page_set).backed_by(old(memory)),
            old(self).state.wf(),
            old(allocator).wf(),
            old(memory).wf(),
            old(allocator).backed_by(old(memory)),
        ensures
            final(page_set).wf(),
            final(page_set).backed_by(final(memory)),
            final(self).state.wf(),
            final(allocator).wf(),
            final(memory).wf(),
            final(allocator).backed_by(final(memory)),
            final(memory).start == old(memory).start,
            final(memory).frame_count() == old(memory).frame_count(),
            final(page_set).trampoline_frame == old(page_set).trampoline_frame,
            final(self).tid == old(self).tid,
            final(self).process == old(self).process,
            final(self).state.trap_context == old(self).state.trap_context,
            r <==> pages_fit(old(page_set), user_stack_base, old(self).tid, true, old(allocator)),
            !r ==> *final(self) == *old(self) && final(page_set).segment_list@ == old(page_set).segment_list@,
            r ==> {
                let list = final(page_set).segment_list@;
                let n = old(page_set).segment_list@.len();
                &&& final(self).user_stack_base == user_stack_base
                &&& final(self).state.user_stack_bottom.bits == user_stack_bottom_of(user_stack_base.bits as int, old(self).tid as int)
                &&& final(self).state.trap_context_page.bits == trap_context_page_of(old(self).tid as int)
                &&& final(page_set).page_table.lookup(final(self).state.trap_context_page.bits as int) is Some
                &&& final(self).state.trap_context_frame.bits == final(page_set).page_table.lookup(
                    final(self).state.trap_context_page.bits as int).unwrap().frame_of()
                &&& list.len() == n + 2
                &&& list.subrange(0, n as int) == old(page_set).segment_list@
                &&& list[n as int].page_range == stack_range(final(self).state.user_stack_bottom.bits as int)
                &&& list[n as int].map_permission == MAP_R | MAP_W | MAP_U
                &&& list[n + 1int].page_range == trap_range(old(self).tid as int)
                &&& list[n + 1int].map_permission == MAP_R | MAP_W
            },
    {
        let tid = self.tid;
        let (bottom, page) = match thread_layout(user_stack_base, tid) {
            Some(layout) => layout,
            None => return false,
        };
        let top = VirtualAddress { bits: bottom.bits + USER_STACK_SIZE };
        let trap_bottom = VirtualAddress { bits: TRAP_CONTEXT_BASE + tid * PAGE_SIZE };
        let trap_top = VirtualAddress { bits: TRAP_CONTEXT_BASE + tid * PAGE_SIZE + PAGE_SIZE };
        proof {
            crate::thread::lemma_trap_page_address(tid as int);
            crate::address::lemma_floor_le_ceil(bottom.bits as int, top.bits as int);
        }
        let stack_start = bottom.floor();
        let stack_end = top.ceil();
        let stack = PageRange { start: stack_start, end: stack_end };
        let trap = PageRange { start: page, end: PageNumber { bits: page.bits + 1 } };
        if !page_set.fits_range(stack) || !page_set.fits_range(trap) {
            return false;
        }
        let stack_frames: u128 = if stack_start.bits < stack_end.bits {
            (stack_end.bits - stack_start.bits) as u128 + 2 * ((stack_end.bits - 1) / 512 - stack_start.bits / 512 + 1) as u128
        } else {
            0
        };
        proof {
            if stack_start.bits < stack_end.bits {
                crate::page_table::lemma_leaf_key_monotonic(stack_start.bits as int, stack_end.bits - 1);
            }
        }
        assert(stack_frames == frame_budget(MapType::Framed, stack.start.bits as int, stack.end.bits as int));
        if !allocator.has_frames(stack_frames + 3) {
            return false;
        }
        assert(MAP_R | MAP_W | MAP_U == 22u64 && MAP_R | MAP_W == 6u64) by (bit_vector);
        let ghost before = page_set.segment_list@;
        let ok = page_set.insert_frame(bottom, top, MAP_R | MAP_W | MAP_U, allocator, memory);
        assert(ok);
        let ghost middle = page_set.segment_list@;
        proof {
            assert(stack.end.bits <= 0x400_0000) by {
                let q = top.bits as int / 4096 + if top.bits % 4096 == 0 { 0int } else { 1int };
                assert(q <= 0x400_0000);
                vstd::arithmetic::div_mod::lemma_small_mod(q as nat, PAGE_NUMBER_LIMIT as nat);
            }
            assert forall|i: int| 0 <= i < middle.len() implies crate::page_set::ranges_disjoint(
                #[trigger] middle[i].page_range, trap) by {
                if i < before.len() {
                    assert(middle[i] == before[i]);
                }
            }
        }
        let ok = page_set.insert_frame(trap_bottom, trap_top, MAP_R | MAP_W, allocator, memory);
        assert(ok);
        proof {
            let list = page_set.segment_list@;
            let s = list[before.len() + 1int];
            assert(s.page_range.contains(page.bits as int));
            assert(s.mapped_in(&page_set.page_table));
            assert(list.subrange(0, before.len() as int) =~= before);
        }
        let entry = match page_set.translate(page) {
            Some(entry) => entry,
            None => {
                assert(false);
                return false;
            },
        };
        self.user_stack_base = user_stack_base;
        self.state.user_stack_bottom = bottom;
        self.state.trap_context_page = page;
        self.state.trap_context_frame = entry.frame_number();
        true
    }
}

impl ProcessMap {
    /// Replaces the program of the runnable process `pid` with the one of an ELF image: a new
    /// address space, the main thread moved into it with a new user stack and trap-frame page,
    /// its stack pointer at the top of the new stack and `sepc` at the new entry; other threads
    /// are dropped. The identifier, the parent and the children stay.
    pub fn exec(
        &mut self,
        pid: Pid,
        elf_data: &[u8],
        allocator: &mut StackFrameAllocator,
        memory: &mut PhysicalMemory,
    ) -> (r: Result<(), ProcessError>)
        requires
            old(self).wf(old(memory)),
            old(allocator).wf(),
            old(memory).wf(),
            old(allocator).backed_by(old(memory)),
        ensures
            final(self).wf(final(memory)),
            final(allocator).wf(),
            final(memory).wf(),
            final(allocator).backed_by(final(memory)),
            final(memory).start == old(memory).start,
            final(memory).frame_count() == old(memory).frame_count(),
            final(self).processes@.len() == old(self).processes@.len(),
            !crate::elf::has_elf_magic(elf_data@) ==> r is Err && final(self).processes@ == old(self).processes@,
            old(self).live(pid) && old(self).processes@[old(self).index_of(pid)].state.status == Status::Runnable
                && crate::elf::has_elf_magic(elf_data@) && crate::page_set::elf_loadable(elf_data@)
                && load_thread_fits(crate::page_set::elf_loads(elf_data@),
                    old(self).processes@[old(self).index_of(pid)].state.thread_list@[0].tid)
                && old(allocator).available() >= load_thread_budget(crate::page_set::elf_loads(elf_data@),
                    old(self).processes@[old(self).index_of(pid)].state.thread_list@[0].tid)
                ==> r is Ok,
            r is Ok ==> {
                let i = old(self).index_of(pid);
                let p = final(self).processes@[i];
                let t = p.state.thread_list@[0];
                &&& old(self).live(pid)
                &&& p.pid_handle == old(self).processes@[i].pid_handle
                &&& p.state.parent == old(self).processes@[i].state.parent
                &&& p.state.child_list@ == old(self).processes@[i].state.child_list@
                &&& p.state.thread_list@.len() == 1
                &&& t.tid == old(self).processes@[i].state.thread_list@[0].tid
                &&& t.state.trap_context.user_sepc == crate::elf::elf_entry_point(elf_data@)
                &&& t.state.trap_context.user_register@[REGISTER_SP as int] == t.state.user_stack_bottom.bits + USER_STACK_SIZE
                &&& t.state.user_stack_bottom.bits == user_stack_bottom_of(crate::address::address_of_page(
                    crate::page_set::top_page(crate::page_set::elf_loads(elf_data@),
                    crate::page_set::elf_loads(elf_data@).len() as int)) + PAGE_SIZE, t.tid as int)
                &&& p.state.page_set.segment_list@.len() == crate::page_set::elf_loads(elf_data@).len() + 2
                &&& forall|k: int| 0 <= k < crate::page_set::elf_loads(elf_data@).len() ==>
                    (#[trigger] p.state.page_set.segment_list@[k]).page_range == crate::page_set::load_range(crate::page_set::elf_loads(elf_data@)[k])
                &&& p.state.page_set.segment_list@[crate::page_set::elf_loads(elf_data@).len() as int].page_range
                    == stack_range(t.state.user_stack_bottom.bits as int)
                &&& p.state.page_set.segment_list@[crate::page_set::elf_loads(elf_data@).len() + 1int].page_range
                    == trap_range(t.tid as int)
            },
    {
        let i = match self.find_process(pid) {
            None => {
                if !crate::elf::has_magic_prefix(elf_data) {
                    return Err(ProcessError::Load(ElfError::BadMagic));
                }
                return Err(ProcessError::Thread);
            },
            Some(i) => i,
        };
        if self.processes[i].state.status != Status::Runnable {
            if !crate::elf::has_magic_prefix(elf_data) {
                return Err(ProcessError::Load(ElfError::BadMagic));
            }
            return Err(ProcessError::Thread);
        }
        let trampoline_frame = self.processes[i].state.page_set.trampoline_frame;
        proof {
            lemma_load_thread_budget(crate::page_set::elf_loads(elf_data@),
                self.processes@[i as int].state.thread_list@[0].tid);
        }
        proof {
            reveal(ProcessState::wf);
        }
        if !crate::elf::has_magic_prefix(elf_data) {
            return Err(ProcessError::Load(ElfError::BadMagic));
        }
        let (mut page_set, user_stack_base, entry_point) = match PageSet::from_elf(
            elf_data, trampoline_frame, allocator, memory) {
            Ok(loaded) => loaded,
            Err(e) => {
                proof {
                    lemma_map_same_window(self, old(memory), memory);
                }
                return Err(ProcessError::Load(e));
            },
        };
        let ghost before = *self;
        let ghost loaded_segments = page_set.segment_list@;
        proof {
            lemma_map_same_window(&before, old(memory), memory);
            assert(self.processes@[i as int].state.thread_list@[0].state.wf());
            let loads = crate::page_set::elf_loads(elf_data@);
            let tid = self.processes@[i as int].state.thread_list@[0].tid;
            if crate::page_set::elf_loadable(elf_data@) && load_thread_fits(loads, tid) {
                lemma_thread_fits_after_load(&page_set, loads, user_stack_base, tid);
            }
        }
        let ok = self.processes[i].state.thread_list[0].reallocate_resource(&mut page_set, user_stack_base, allocator, memory);
        if !ok {
            proof {
                assert(self.processes@[i as int].state.thread_list@ =~= before.processes@[i as int].state.thread_list@);
                lemma_state_wf_kept(&before.processes@[i as int].state, &self.processes@[i as int].state, memory);
                lemma_state_replaced(&before, self, i as int, memory);
            }
            return Err(ProcessError::Thread);
        }
        let top = self.processes[i].state.thread_list[0].state.user_stack_top();
        self.processes[i].state.thread_list[0].state.trap_context.set_user_register(REGISTER_SP, top.bits);
        self.processes[i].state.thread_list[0].state.trap_context.set_user_sepc(entry_point.bits);
        self.processes[i].state.thread_list.truncate(1);
        let replaced = self.processes[i].state.set_page_set(page_set);
        proof {
            lemma_map_same_window(&before, old(memory), memory);
            lemma_state_wf_exec(&before.processes@[i as int].state, &self.processes@[i as int].state, memory);
            lemma_state_replaced(&before, self, i as int, memory);
            reveal(ProcessState::wf);
            assert(before.processes@[i as int].state.wf(memory));
            let loads = crate::page_set::elf_loads(elf_data@);
            let ps = self.processes@[i as int].state.page_set;
            assert(ps.segment_list@.subrange(0, loads.len() as int) == loaded_segments);
            assert forall|k: int| 0 <= k < loads.len() implies (#[trigger] ps.segment_list@[k]).page_range
                == crate::page_set::load_range(loads[k]) by {
                assert(ps.segment_list@.subrange(0, loads.len() as int)[k] == ps.segment_list@[k]);
            }
        }
        let ghost released_from = *memory;
        replaced.release(allocator, memory);
        proof {
            lemma_map_same_window(self, &released_from, memory);
        }
        Ok(())
    }
}

/// A state with a consistent new space and one consistent thread is consistent.
pub proof fn lemma_state_wf_exec(a: &ProcessState, b: &ProcessState, memory: &PhysicalMemory)
    requires
        a.wf(memory),
        b.page_set.wf(),
        b.page_set.backed_by(memory),
        b.tid_allocator == a.tid_allocator,
        b.thread_list@.len() == 1,
        b.thread_list@[0].state.wf(),
    ensures
        b.wf(memory),
{
    reveal(ProcessState::wf);
}

/// After a segment holding a page is removed from a space, no segment holds that page.
proof fn lemma_page_gone(before: &PageSet, after: &PageSet, page: int)
    requires
        before.wf(),
        (forall|i: int| 0 <= i < before.segment_list@.len() ==> !(#[trigger] before.segment_list@[i]).page_range.contains(page))
            ==> after.segment_list@ == before.segment_list@,
        forall|i: int| 0 <= i < before.segment_list@.len() && (#[trigger] before.segment_list@[i]).page_range.contains(page)
            ==> after.segment_list@ == before.segment_list@.remove(i),
    ensures
        forall|i: int| 0 <= i < after.segment_list@.len() ==> !(#[trigger] after.segment_list@[i]).page_range.contains(page),
{
    if exists|i: int| 0 <= i < before.segment_list@.len() && before.segment_list@[i].page_range.contains(page) {
        let i = choose|i: int| 0 <= i < before.segment_list@.len() && before.segment_list@[i].page_range.contains(page);
        assert forall|j: int| 0 <= j < after.segment_list@.len() implies !(#[trigger] after.segment_list@[j]).page_range.contains(page) by {
            let o = if j < i { j } else { j + 1 };
            assert(after.segment_list@[j] == before.segment_list@[o]);
            crate::page_set::lemma_segments_disjoint(before, o, i);
        }
    }
}

/// After a segment is removed, a page that no segment held is still held by none.
proof fn lemma_page_still_gone(before: &PageSet, after: &PageSet, page: int, removed: int)
    requires
        forall|i: int| 0 <= i < before.segment_list@.len() ==> !(#[trigger] before.segment_list@[i]).page_range.contains(page),
        after.segment_list@ == before.segment_list@ || (0 <= removed < before.segment_list@.len()
            && after.segment_list@ == before.segment_list@.remove(removed)),
    ensures
        forall|i: int| 0 <= i < after.segment_list@.len() ==> !(#[trigger] after.segment_list@[i]).page_range.contains(page),
{
    if after.segment_list@ != before.segment_list@ {
        assert forall|j: int| 0 <= j < after.segment_list@.len() implies !(#[trigger] after.segment_list@[j]).page_range.contains(page) by {
            let o = if j < removed { j } else { j + 1 };
            assert(after.segment_list@[j] == before.segment_list@[o]);
        }
    }
}

impl Thread {
    /// Drops the thread: the segments that hold its user stack and its trap-frame page leave its
    /// process's space, and its identifier goes back to the process.
    pub fn release(
        &self,
        process: &mut ProcessState,
        allocator: &mut StackFrameAllocator,
        memory: &mut PhysicalMemory,
    )
        requires
            old(process).wf(old(memory)),
            old(process).tid_allocator.in_use(self.tid),
            old(allocator).wf(),
            old(memory).wf(),
            old(allocator).backed_by(old(memory)),
        ensures
            final(process).wf(final(memory)),
            final(allocator).wf(),
            final(memory).wf(),
            final(allocator).backed_by(final(memory)),
            final(memory).start == old(memory).start,
            final(memory).frame_count() == old(memory).frame_count(),
            !final(process).tid_allocator.in_use(self.tid),
            final(process).tid_allocator.next() == self.tid,
            forall|t: Tid| t != self.tid ==> #[trigger] final(process).tid_allocator.in_use(t)
                == old(process).tid_allocator.in_use(t),
            forall|i: int| 0 <= i < final(process).page_set.segment_list@.len() ==> {
                let s = #[trigger] final(process).page_set.segment_list@[i];
                &&& !s.page_range.contains(page_of_address(self.state.user_stack_bottom.bits as int))
                &&& !s.page_range.contains(page_of_address(
                    crate::address::address_of_page(self.state.trap_context_page.bits as int)))
            },
            final(process).status == old(process).status,
            final(process).parent == old(process).parent,
            final(process).child_list@ == old(process).child_list@,
            final(process).thread_list@ == old(process).thread_list@,
    {
        proof {
            reveal(ProcessState::wf);
        }
        let stack = self.state.user_stack_bottom;
        let trap = VirtualAddress::from_page(PageNumber { bits: self.state.trap_context_page.bits % crate::address::PAGE_NUMBER_LIMIT });
        let ghost p1 = page_of_address(stack.bits as int);
        let ghost p2 = page_of_address(trap.bits as int);
        let ghost s0 = process.page_set;
        process.page_set.remove_segment(stack, allocator, memory);
        let ghost s1 = process.page_set;
        proof {
            lemma_page_gone(&s0, &s1, p1);
        }
        process.page_set.remove_segment(trap, allocator, memory);
        proof {
            let s2 = process.page_set;
            lemma_page_gone(&s1, &s2, p2);
            let removed = choose|i: int| 0 <= i < s1.segment_list@.len() && s1.segment_list@[i].page_range.contains(p2);
            lemma_page_still_gone(&s1, &s2, p1, removed);
        }
        process.deallocated_tid(self.tid);
        proof {
            reveal(ProcessState::wf);
        }
    }
}

} // verus!
