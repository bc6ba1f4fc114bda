use kernel::address::FrameNumber;
use kernel::event_bus::{wait_for_event, EventBus, CHILD_PROCESS_QUIT};
use kernel::executor::{spawn_thread, yield_now, ControlFlow, TaskQueue, YieldFuture};
use kernel::frame_allocator::StackFrameAllocator;
use kernel::memory::PhysicalMemory;
use kernel::page_set::{ElfError, TRAP_CONTEXT_PAGE};
use kernel::pid::PidAllocator;
use kernel::process::{KernelContext, Process, ProcessError, ProcessMap, Status, WaitResult, INIT_PID};
use kernel::syscall::{finish_system_call, ReadStep, SystemCall, SystemCallKind};
use kernel::tid::TidAllocator;
use kernel::timer::{get_time, set_trigger};
use kernel::trap::{trap_action, TrapAction, TrapCause, handle_store_fault};
use kernel::trap_context::TrapContext;

const KERNEL: KernelContext = KernelContext {
    trampoline_frame: FrameNumber { bits: 0x80100 },
    kernel_satp: 0x8000_0000_0008_0000,
    kernel_stack: 0x8030_0000,
    user_sstatus: 0x20,
};

fn machine(frames: u64) -> (StackFrameAllocator, PhysicalMemory) {
    let memory = PhysicalMemory::new(FrameNumber { bits: 0x80200 }, frames);
    let mut allocator = StackFrameAllocator::new();
    allocator.init(FrameNumber { bits: 0x80200 }, FrameNumber { bits: 0x80200 + frames });
    (allocator, memory)
}

fn push_u16(v: &mut Vec<u8>, x: u16) {
    v.extend_from_slice(&x.to_le_bytes());
}

fn push_u32(v: &mut Vec<u8>, x: u32) {
    v.extend_from_slice(&x.to_le_bytes());
}

fn push_u64(v: &mut Vec<u8>, x: u64) {
    v.extend_from_slice(&x.to_le_bytes());
}

/// An ELF64 image with one loadable segment per entry of `segments`: (vaddr, flags, bytes, memsz).
fn elf_image(entry: u64, segments: &[(u64, u32, Vec<u8>, u64)]) -> Vec<u8> {
    let mut v = vec![0x7f, b'E', b'L', b'F', 2, 1, 1, 0, 0, 0, 0, 0, 0, 0, 0, 0];
    push_u16(&mut v, 2);
    push_u16(&mut v, 0xf3);
    push_u32(&mut v, 1);
    push_u64(&mut v, entry);
    push_u64(&mut v, 64);
    push_u64(&mut v, 0);
    push_u32(&mut v, 0);
    push_u16(&mut v, 64);
    push_u16(&mut v, 56);
    push_u16(&mut v, segments.len() as u16);
    push_u16(&mut v, 64);
    push_u16(&mut v, 0);
    push_u16(&mut v, 0);
    let mut offset = 64 + 56 * segments.len() as u64;
    for (vaddr, flags, bytes, memsz) in segments {
        push_u32(&mut v, 1);
        push_u32(&mut v, *flags);
        push_u64(&mut v, offset);
        push_u64(&mut v, *vaddr);
        push_u64(&mut v, *vaddr);
        push_u64(&mut v, bytes.len() as u64);
        push_u64(&mut v, *memsz);
        push_u64(&mut v, 0x1000);
        offset += bytes.len() as u64;
    }
    for (_, _, bytes, _) in segments {
        v.extend_from_slice(bytes);
    }
    v
}

fn program() -> Vec<u8> {
    elf_image(0x10000, &[(0x10000, 5, vec![0x13, 0, 0, 0], 0x1000), (0x11000, 6, vec![0xAB; 8], 0x1000)])
}

fn spawn(map: &mut ProcessMap, allocator: &mut StackFrameAllocator, memory: &mut PhysicalMemory) -> u64 {
    Process::new(map, &program(), KERNEL, allocator, memory).unwrap()
}

fn process(map: &ProcessMap, pid: u64) -> &Process {
    &map.processes[map.find_process(pid).unwrap()]
}

#[test]
fn pid_allocator_reuses_freed_pids() {
    let mut allocator = PidAllocator::new();
    assert_eq!(allocator.allocate().pid(), 0);
    assert_eq!(allocator.allocate().pid(), 1);
    assert_eq!(allocator.allocate().pid(), 2);
    allocator.deallocate(1);
    assert_eq!(allocator.peek(), 1);
    assert_eq!(allocator.allocate().pid(), 1);
    assert_eq!(allocator.allocate().pid(), 3);
}

#[test]
fn tid_allocator_reuses_freed_tids() {
    let mut allocator = TidAllocator::new();
    assert_eq!(allocator.allocate(), 0);
    assert_eq!(allocator.allocate(), 1);
    allocator.deallocate(0);
    assert_eq!(allocator.allocate(), 0);
    assert_eq!(allocator.allocate(), 2);
}

#[test]
fn new_process_starts_at_entry() {
    let (mut allocator, mut memory) = machine(128);
    let mut map = ProcessMap::new();
    let pid = spawn(&mut map, &mut allocator, &mut memory);
    assert_eq!(pid, 0);
    let p = process(&map, pid);
    assert_eq!(p.state().status(), Status::Runnable);
    assert_eq!(p.state().thread_list().len(), 1);
    let thread = p.state().main_thread();
    assert_eq!(thread.tid(), 0);
    assert_eq!(thread.user_stack_base().bits, 0x13000);
    let context = thread.state().kernel_trap_context();
    assert_eq!(context.user_sepc(), 0x10000);
    assert_eq!(context.user_register(2), 0x13000 + 0x2000);
    assert_eq!(context.kernel_satp, KERNEL.kernel_satp);
    assert_eq!(context.kernel_sp, KERNEL.kernel_stack);
    assert_eq!(thread.state().trap_context_page.bits, TRAP_CONTEXT_PAGE);
    let trap = p.state().page_set().translate(thread.state().trap_context_page).unwrap();
    assert_eq!(trap.frame_number(), thread.state().trap_context_frame);
    assert!(!trap.is_cow() && trap.is_writable() && trap.flags() & 16 == 0);
}

#[test]
fn thread_release_unmaps_its_pages() {
    let (mut allocator, mut memory) = machine(128);
    let mut map = ProcessMap::new();
    let pid = spawn(&mut map, &mut allocator, &mut memory);
    let index = map.find(pid).unwrap();
    let thread = map.processes[index].state.thread_list.pop().unwrap();
    let trap_page = thread.state().trap_context_page;
    thread.release(&mut map.processes[index].state, &mut allocator, &mut memory);
    let state = &map.processes[index].state;
    assert!(state.page_set().translate(trap_page).is_none());
    assert!(state.page_set().translate(kernel::address::PageNumber { bits: 0x13 }).is_none());
    assert_eq!(state.page_set().segment_list().len(), 2);
    assert_eq!(state.tid_allocator.peek(), 0);
}

#[test]
fn new_process_rejects_bad_image() {
    let (mut allocator, mut memory) = machine(64);
    let mut map = ProcessMap::new();
    let result = Process::new(&mut map, b"not an elf", KERNEL, &mut allocator, &mut memory);
    assert_eq!(result, Err(ProcessError::Load(ElfError::BadMagic)));
    assert_eq!(map.len(), 0);
}

#[test]
fn fork_registers_child_with_zero_return() {
    let (mut allocator, mut memory) = machine(256);
    let mut map = ProcessMap::new();
    let init = spawn(&mut map, &mut allocator, &mut memory);
    let child = map.fork(init, &mut allocator, &mut memory).unwrap();
    assert_eq!(child, 1);
    assert_eq!(process(&map, init).state().child_list(), &vec![child]);
    let c = process(&map, child);
    assert_eq!(c.state().parent(), Some(init));
    assert_eq!(c.state().status(), Status::Runnable);
    let context = c.state().main_thread().state().kernel_trap_context();
    assert_eq!(context.user_register(10), 0);
    assert_eq!(context.user_sepc(), 0x10000);
    let data = kernel::address::PageNumber { bits: 0x11 };
    let p_entry = process(&map, init).state().page_set().translate(data).unwrap();
    let c_entry = c.state().page_set().translate(data).unwrap();
    assert_eq!(p_entry, c_entry);
    assert!(p_entry.is_cow() && !p_entry.is_writable());
}

#[test]
fn exit_reparents_children_to_init() {
    let (mut allocator, mut memory) = machine(512);
    let mut map = ProcessMap::new();
    let init = spawn(&mut map, &mut allocator, &mut memory);
    let shell = map.fork(init, &mut allocator, &mut memory).unwrap();
    let grandchild = map.fork(shell, &mut allocator, &mut memory).unwrap();
    let woken = map.exit(shell, 3, &memory);
    assert!(woken.is_empty());
    assert!(map.find(shell).is_none());
    assert!(map.find_process(shell).is_some());
    let s = process(&map, shell);
    assert_eq!(s.state().status(), Status::Zombie);
    assert_eq!(s.state().exit_code(), 3);
    assert!(s.state().thread_list().is_empty());
    assert!(s.state().child_list().is_empty());
    assert_eq!(process(&map, grandchild).state().parent(), Some(INIT_PID));
    assert_eq!(process(&map, init).state().child_list(), &vec![shell, grandchild]);
}

#[test]
fn waitpid_reaps_exited_children() {
    let (mut allocator, mut memory) = machine(1024);
    let mut map = ProcessMap::new();
    let init = spawn(&mut map, &mut allocator, &mut memory);
    let mut children = Vec::new();
    for _ in 0..8 {
        children.push(map.fork(init, &mut allocator, &mut memory).unwrap());
    }
    assert_eq!(map.waitpid(init, -1, &mut allocator, &mut memory), WaitResult::Pending);
    for child in &children {
        map.exit(*child, 0, &memory);
    }
    let mut reaped = Vec::new();
    for _ in 0..8 {
        match map.waitpid(init, -1, &mut allocator, &mut memory) {
            WaitResult::Exited { pid, exit_code } => {
                assert_eq!(exit_code, 0);
                assert!(map.find(pid).is_none());
                reaped.push(pid);
            }
            WaitResult::Pending => panic!("a child is left"),
        }
    }
    reaped.sort();
    assert_eq!(reaped, (1..=8).collect::<Vec<u64>>());
    assert_eq!(map.waitpid(init, 0, &mut allocator, &mut memory), WaitResult::Pending);
    assert_eq!(map.len(), 1);
}

#[test]
fn waitpid_for_one_child() {
    let (mut allocator, mut memory) = machine(512);
    let mut map = ProcessMap::new();
    let init = spawn(&mut map, &mut allocator, &mut memory);
    let a = map.fork(init, &mut allocator, &mut memory).unwrap();
    let b = map.fork(init, &mut allocator, &mut memory).unwrap();
    map.exit(a, 7, &memory);
    assert_eq!(map.waitpid(init, b as i64, &mut allocator, &mut memory), WaitResult::Pending);
    let free_before = allocator.deallocated_page.len() as u64 + allocator.frame_end - allocator.frame_start;
    assert_eq!(map.waitpid(init, a as i64, &mut allocator, &mut memory), WaitResult::Exited { pid: a, exit_code: 7 });
    let free_after = allocator.deallocated_page.len() as u64 + allocator.frame_end - allocator.frame_start;
    assert!(free_after > free_before);
    assert_eq!(map.pid_allocator.peek(), a);
}

#[test]
fn exit_wakes_parent_waiter() {
    let (mut allocator, mut memory) = machine(512);
    let mut map = ProcessMap::new();
    let init = spawn(&mut map, &mut allocator, &mut memory);
    let child = map.fork(init, &mut allocator, &mut memory).unwrap();
    let index = map.find(init).unwrap();
    assert!(!wait_for_event(&mut map.processes[index].event_bus, 99, CHILD_PROCESS_QUIT));
    let woken = map.exit(child, 0, &memory);
    assert_eq!(woken, vec![99]);
    assert!(process(&map, init).event_bus().contains(CHILD_PROCESS_QUIT));
}

#[test]
fn exec_replaces_program() {
    let (mut allocator, mut memory) = machine(512);
    let mut map = ProcessMap::new();
    let init = spawn(&mut map, &mut allocator, &mut memory);
    let other = elf_image(0x40000, &[(0x40000, 5, vec![1, 2, 3, 4], 0x3000)]);
    assert!(map.exec(init, &other, &mut allocator, &mut memory).is_ok());
    let p = process(&map, init);
    let thread = p.state().main_thread();
    assert_eq!(thread.user_stack_base().bits, 0x44000);
    let context = thread.state().kernel_trap_context();
    assert_eq!(context.user_sepc(), 0x40000);
    assert_eq!(context.user_register(2), 0x44000 + 0x2000);
    assert!(p.state().page_set().translate(kernel::address::PageNumber { bits: 0x11 }).is_none());
    assert!(map.exec(init, b"junk", &mut allocator, &mut memory).is_err());
}

#[test]
fn event_bus_wakes_matching_subscribers_once() {
    let mut bus = EventBus::new();
    bus.subscribe(1, CHILD_PROCESS_QUIT);
    bus.subscribe(2, 2);
    assert_eq!(bus.push(CHILD_PROCESS_QUIT), vec![1]);
    assert!(bus.contains(CHILD_PROCESS_QUIT));
    assert_eq!(bus.callback_list.len(), 1);
    assert!(wait_for_event(&mut bus, 3, CHILD_PROCESS_QUIT));
    bus.clear(CHILD_PROCESS_QUIT);
    assert!(!bus.contains(CHILD_PROCESS_QUIT));
    assert!(bus.push(CHILD_PROCESS_QUIT).is_empty());
}

#[test]
fn yields_rotate_the_queue() {
    let mut queue = TaskQueue::new();
    for task in [10u64, 11, 12, 13] {
        spawn_thread(&mut queue, task);
    }
    assert_eq!(yield_now(&mut queue), Some(10));
    assert_eq!(yield_now(&mut queue), Some(11));
    assert_eq!(yield_now(&mut queue), Some(12));
    assert_eq!(queue.len(), 4);
    let mut order = Vec::new();
    while let Some(task) = queue.task() {
        order.push(task);
    }
    assert_eq!(order, vec![13, 10, 11, 12]);
    assert_eq!(yield_now(&mut queue), None);
}

#[test]
fn yield_future_is_pending_then_ready() {
    let mut queue = TaskQueue::new();
    let mut future = YieldFuture::new();
    assert!(!future.poll(5, &mut queue));
    assert_eq!(queue.len(), 1);
    assert!(future.poll(5, &mut queue));
    assert_eq!(queue.len(), 1);
}

#[test]
fn system_call_decoding() {
    let mut context = TrapContext::new();
    context.set_user_register(17, 64);
    context.set_user_register(10, 1);
    context.set_user_register(11, 0x1000);
    context.set_user_register(12, 5);
    context.set_user_sepc(0x100);
    let call = SystemCall::new(&mut context);
    assert_eq!(context.user_sepc(), 0x104);
    assert_eq!(call.kind(), SystemCallKind::Write { fd: 1, buffer: 0x1000, length: 5 });
    let unknown = SystemCall { id: 999, argument_0: 0, argument_1: 0, argument_2: 0 };
    assert_eq!(unknown.kind(), SystemCallKind::Unknown { id: 999 });
    let wait = SystemCall { id: 260, argument_0: u64::MAX, argument_1: 8, argument_2: 0 };
    assert_eq!(wait.kind(), SystemCallKind::Waitpid { pid: -1, status: 8 });
}

#[test]
fn system_call_results() {
    let call = SystemCall { id: 0, argument_0: 0, argument_1: 0, argument_2: 0 };
    assert_eq!(call.sys_exit(4), (0, ControlFlow::Exit(4)));
    assert_eq!(call.sys_sched_yield(), (0, ControlFlow::Yield));
    assert_eq!(call.sys_get_time(12_500_000), (1000, ControlFlow::Continue));
    assert_eq!(call.sys_write(1, 5), (5, ControlFlow::Continue));
    assert_eq!(call.sys_write(2, 5), (-1, ControlFlow::Continue));
    assert_eq!(call.sys_read(0, 0x61), ReadStep::Store(0x61));
    assert_eq!(call.sys_read(0, 0), ReadStep::Retry);
    assert_eq!(call.sys_read(0, -1), ReadStep::Retry);
    assert_eq!(call.sys_read(3, 0x61), ReadStep::BadDescriptor);
}

#[test]
fn return_value_written_unless_exit() {
    let mut context = TrapContext::new();
    finish_system_call(&mut context, -1, ControlFlow::Continue);
    assert_eq!(context.user_register(10), u64::MAX);
    finish_system_call(&mut context, 3, ControlFlow::Exit(1));
    assert_eq!(context.user_register(10), u64::MAX);
    finish_system_call(&mut context, 7, ControlFlow::Yield);
    assert_eq!(context.user_register(10), 7);
}

#[test]
fn trap_frame_layout() {
    let context = TrapContext::init_context(0x10000, 0x15000, 0x20, 0x8000_0000_0008_0000, 0x8030_0000);
    let words = context.words();
    assert_eq!(words.len(), 36);
    assert_eq!(words[2], 0x15000);
    assert_eq!(words[32], 0x20);
    assert_eq!(words[33], 0x10000);
    assert_eq!(words[34], 0x8030_0000);
    assert_eq!(words[35], 0x8000_0000_0008_0000);
}

#[test]
fn trap_causes() {
    assert_eq!(trap_action(TrapCause::UserEnvCall), TrapAction::SystemCall);
    assert_eq!(trap_action(TrapCause::IllegalInstruction), TrapAction::Exit(1));
    assert_eq!(trap_action(TrapCause::InstructionMisaligned), TrapAction::Exit(1));
    assert_eq!(trap_action(TrapCause::LoadPageFault), TrapAction::Exit(1));
    assert_eq!(trap_action(TrapCause::StorePageFault), TrapAction::StoreFault);
    assert_eq!(trap_action(TrapCause::SupervisorTimer), TrapAction::Tick);
    assert_eq!(trap_action(TrapCause::Other), TrapAction::Unsupported);
}

#[test]
fn store_fault_at_null_exits() {
    let (mut allocator, mut memory) = machine(128);
    let mut map = ProcessMap::new();
    let pid = spawn(&mut map, &mut allocator, &mut memory);
    let index = map.find(pid).unwrap();
    let flow = handle_store_fault(&mut map.processes[index].state.page_set, 0, &mut allocator, &mut memory);
    assert_eq!(flow, ControlFlow::Exit(1));
}

#[test]
fn timer_ticks() {
    assert_eq!(get_time(25_000), 2);
    assert_eq!(set_trigger(1_000), 126_000);
}
