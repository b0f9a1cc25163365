use kernel_core::config::{DEFAULT_PRIORITY, MAX_SYSCALL_NUM, PAGE_SIZE, TRAMPOLINE};
use kernel_core::fs::{FileHandle, OpenFlags, CREATE, RDONLY, RDWR, TRUNC, WRONLY};
use kernel_core::loader::{get_app_data_by_name, same_bytes, App};
use kernel_core::mm::address::{PhysPageNum, VirtAddr};
use kernel_core::mm::image::{ProgramImage, Segment};
use kernel_core::mm::page_table::MapPermission;
use kernel_core::syscall::fs::{
    complete_read, current_file, install_file, sys_close, sys_fstat, sys_linkat, sys_open, sys_read,
    sys_unlinkat, sys_write, ReadRequest,
};
use kernel_core::syscall::info::{
    current_task_info, encode_task_info, encode_time_val, status_code, sys_get_time, sys_task_info,
    update_syscall_times, TASK_INFO_SIZE,
};
use kernel_core::syscall::process::{
    sys_exit, sys_getpid, sys_mmap, sys_munmap, sys_sbrk, sys_set_priority, sys_yield, va_to_pa, TimeVal,
};
use kernel_core::syscall::spawn::{find_requested_app, sys_exec, sys_fork, sys_spawn};
use kernel_core::syscall::wait::sys_waitpid;
use kernel_core::syscall::{
    as_register, as_signed, low_i32, supported, syscall, SyscallResult, SYSCALL_EXIT, SYSCALL_FORK,
    SYSCALL_GETPID, SYSCALL_GET_TIME, SYSCALL_MMAP, SYSCALL_READ, SYSCALL_SET_PRIORITY, SYSCALL_WAITPID,
    SYSCALL_WRITE, SYSCALL_YIELD,
};
use kernel_core::task::context::TaskContext;
use kernel_core::task::family::find_free_pid;
use kernel_core::task::id::kernel_stack_position;
use kernel_core::task::kernel::{Kernel, IDLE_PID};
use kernel_core::task::manager::{add_task, fetch_task, pass_of};
use kernel_core::task::processor::{current_task, schedule, take_current_task, Processor};
use kernel_core::task::task::{Platform, TaskControlBlock, TaskStatus};
use kernel_core::task::{
    add_initproc, exit_current, exit_current_and_run_next, suspend_current_and_run_next,
};
use kernel_core::timer::{get_time_ms, get_time_us, set_time};
use kernel_core::trap::context::{TrapContext, REG_A0, REG_A1, REG_A2, REG_A7, REG_SP};
use kernel_core::trap::{
    can_handle, is_fault, next_instruction, trap_cause, trap_handler, TrapCause, TrapOutcome,
};
use kernel_core::user::syscall as user;

const INTERRUPT: usize = 1 << (usize::BITS - 1);
const STACK: usize = 0x14000;
const USER_SP: usize = 0x16000;

fn perm(r: bool, w: bool, x: bool) -> MapPermission {
    MapPermission { r, w, x, u: false }
}

fn image(mark: u8) -> ProgramImage {
    ProgramImage {
        entry: 0x10000,
        segments: vec![
            Segment { start: 0x10000, size: 0x2000, perm: perm(true, false, true), data: vec![mark; 16] },
            Segment { start: 0x12000, size: 0x1000, perm: perm(true, true, false), data: vec![mark] },
        ],
    }
}

fn platform() -> Platform {
    Platform {
        trampoline: PhysPageNum(0x80_000),
        kernel_satp: 0x8000_0000_0008_0123,
        trap_handler: 0x8020_1000,
        trap_return: 0x8020_2000,
        user_sstatus: 0x20,
    }
}

fn apps() -> Vec<App> {
    let mut broken = image(3);
    broken.entry = 0;
    vec![
        App { name: b"hello".to_vec(), image: image(1) },
        App { name: b"shell".to_vec(), image: image(2) },
        App { name: b"broken".to_vec(), image: broken },
        App { name: b"hello".to_vec(), image: image(9) },
    ]
}

fn boot(frames: usize) -> Kernel {
    let mut kernel = Kernel::new(platform(), 0x100, 0x100 + frames, apps());
    assert!(add_initproc(&mut kernel, &image(0)));
    assert_eq!(schedule(&mut kernel), Some(IDLE_PID));
    kernel
}

fn task(kernel: &Kernel, pid: usize) -> &TaskControlBlock {
    kernel.tasks[pid].as_ref().unwrap()
}

fn task_mut(kernel: &mut Kernel, pid: usize) -> &mut TaskControlBlock {
    kernel.tasks[pid].as_mut().unwrap()
}

fn put(kernel: &mut Kernel, at: usize, bytes: &[u8]) {
    let pid = kernel.processor.current.unwrap();
    assert!(task_mut(kernel, pid).memory_set.write_bytes(at, &bytes.to_vec()));
}

fn get(kernel: &Kernel, pid: usize, at: usize, len: usize) -> Vec<u8> {
    task(kernel, pid).memory_set.read_bytes(at, len).unwrap()
}

fn layout(kernel: &Kernel, pid: usize) -> Vec<(usize, usize, MapPermission)> {
    let space = &task(kernel, pid).memory_set;
    (0..space.area_count()).map(|i| space.area(i)).collect()
}

fn queue(kernel: &Kernel) -> usize {
    kernel.manager.len()
}

/// Forks the running task and lets the child run: the parent goes back into
/// the queue.
fn fork_and_switch(kernel: &mut Kernel) -> usize {
    let child = sys_fork(kernel);
    assert!(child > 0);
    let mut guard = 0;
    while kernel.processor.current != Some(child as usize) {
        suspend_current_and_run_next(kernel);
        guard += 1;
        assert!(guard < 100);
    }
    child as usize
}

fn switch_to(kernel: &mut Kernel, pid: usize) {
    let mut guard = 0;
    while kernel.processor.current != Some(pid) {
        suspend_current_and_run_next(kernel);
        guard += 1;
        assert!(guard < 100);
    }
}

#[test]
fn a_new_kernel_has_no_tasks() {
    let kernel = Kernel::new(platform(), 0x100, 0x140, apps());
    assert!(kernel.tasks.is_empty());
    assert_eq!(queue(&kernel), 0);
    assert_eq!(kernel.processor.current, None);
    assert_eq!(kernel.frames.free_frames(), 0x40);
    assert_eq!(kernel.time_us, 0);
    assert_eq!(kernel.processor.idle_task_cx.sp, 0);
    assert_eq!(current_task(&kernel), None);
}

#[test]
fn the_first_task_is_set_up_ready() {
    let mut kernel = Kernel::new(platform(), 0x100, 0x140, apps());
    set_time(&mut kernel, 5_000);
    assert!(add_initproc(&mut kernel, &image(0)));
    assert_eq!(kernel.tasks.len(), 1);
    assert_eq!(queue(&kernel), 1);
    assert_eq!(kernel.frames.free_frames(), 0x40 - 6);
    let first = task(&kernel, IDLE_PID);
    let (bottom, top) = kernel_stack_position(IDLE_PID);
    assert_eq!((bottom, top), (TRAMPOLINE - 0x2000, TRAMPOLINE));
    assert_eq!(first.pid, 0);
    assert_eq!(first.kernel_stack_top, top);
    assert_eq!(first.task_status, TaskStatus::Ready);
    assert_eq!(first.parent, None);
    assert!(first.children.is_empty());
    assert_eq!(first.priority, DEFAULT_PRIORITY);
    assert_eq!(first.pass, pass_of(16));
    assert_eq!(first.stride, 0);
    assert_eq!(first.start_time, 5);
    assert_eq!((first.base_size, first.heap_bottom, first.program_brk), (USER_SP, USER_SP, USER_SP));
    assert_eq!(first.trap_cx.sepc, 0x10000);
    assert_eq!(first.trap_cx.x[REG_SP], USER_SP);
    assert_eq!(first.trap_cx.x[REG_A0], 0);
    assert_eq!(first.trap_cx.sstatus, 0x20);
    assert_eq!(first.trap_cx.kernel_satp, platform().kernel_satp);
    assert_eq!(first.trap_cx.kernel_sp, top);
    assert_eq!(first.trap_cx.trap_handler, 0x8020_1000);
    assert_eq!((first.task_cx.ra, first.task_cx.sp, first.task_cx.s), (0x8020_2000, top, [0; 12]));
    assert_eq!(first.syscall_times, [0; MAX_SYSCALL_NUM]);
    assert_eq!(
        first.fd_table,
        vec![
            Some(FileHandle { id: 0, readable: true, writable: false }),
            Some(FileHandle { id: 1, readable: false, writable: true }),
            Some(FileHandle { id: 2, readable: false, writable: true }),
        ]
    );
    assert_eq!(first.memory_set.area_count(), 5);
    assert_eq!(first.getpid(), 0);
    assert!(!first.is_zombie());
    assert_eq!(first.ready_entry().pass, first.pass);
}

#[test]
fn the_first_task_is_not_set_up_from_a_bad_image_or_without_frames() {
    let mut kernel = Kernel::new(platform(), 0x100, 0x105, apps());
    assert!(!add_initproc(&mut kernel, &image(0)));
    assert!(kernel.tasks.is_empty());
    assert_eq!(kernel.frames.free_frames(), 5);
    let mut kernel = Kernel::new(platform(), 0x100, 0x140, apps());
    let mut bad = image(0);
    bad.entry = 0x12000;
    assert!(!add_initproc(&mut kernel, &bad));
    assert!(kernel.tasks.is_empty());
    assert_eq!(queue(&kernel), 0);
}

#[test]
fn schedule_puts_the_front_of_the_queue_on_the_hart() {
    let mut kernel = Kernel::new(platform(), 0x100, 0x140, apps());
    assert_eq!(schedule(&mut kernel), None);
    assert!(add_initproc(&mut kernel, &image(0)));
    assert_eq!(schedule(&mut kernel), Some(0));
    assert_eq!(kernel.processor.current, Some(0));
    assert_eq!(current_task(&kernel), Some(0));
    assert_eq!(task(&kernel, 0).task_status, TaskStatus::Running);
    assert_eq!(task(&kernel, 0).stride, pass_of(16));
    assert_eq!(queue(&kernel), 0);
}

#[test]
fn the_processor_gives_its_task_up_once() {
    let mut processor = Processor::new();
    assert_eq!(processor.current(), None);
    let placeholder = processor.idle_task_cx;
    assert_eq!((placeholder.ra, placeholder.sp, placeholder.s), (0, 0, [0; 12]));
    processor.current = Some(4);
    assert_eq!(processor.current(), Some(4));
    assert_eq!(processor.take_current(), Some(4));
    assert_eq!(processor.take_current(), None);
    let idle = TaskContext::zero_init();
    assert_eq!((idle.ra, idle.sp, idle.s), (0, 0, [0; 12]));
    let fresh = TaskContext::goto_trap_return(0x9000, 0x8020_2000);
    assert_eq!((fresh.ra, fresh.sp, fresh.s), (0x8020_2000, 0x9000, [0; 12]));
}

#[test]
fn a_task_in_transit_is_added_and_fetched() {
    let mut kernel = boot(0x40);
    assert_eq!(take_current_task(&mut kernel), Some(0));
    assert_eq!(kernel.processor.current, None);
    assert_eq!(fetch_task(&mut kernel), None);
    task_mut(&mut kernel, 0).task_status = TaskStatus::Ready;
    task_mut(&mut kernel, 0).stride = 77;
    add_task(&mut kernel, 0);
    assert_eq!(queue(&kernel), 1);
    assert_eq!(fetch_task(&mut kernel), Some(0));
    assert_eq!(task(&kernel, 0).stride, pass_of(16));
    assert_eq!(queue(&kernel), 0);
}

#[test]
fn getpid_is_the_pid_of_the_running_task() {
    let mut kernel = boot(0x40);
    assert_eq!(sys_getpid(&kernel), 0);
    let child = fork_and_switch(&mut kernel);
    assert_eq!(sys_getpid(&kernel), child as isize);
}

#[test]
fn fork_makes_a_child_that_is_a_copy() {
    let mut kernel = boot(0x40);
    set_time(&mut kernel, 9_000);
    put(&mut kernel, STACK, b"from the parent");
    task_mut(&mut kernel, 0).trap_cx.x[REG_A0] = 99;
    task_mut(&mut kernel, 0).trap_cx.x[REG_A1] = 5;
    task_mut(&mut kernel, 0).trap_cx.sepc = 0x10008;
    task_mut(&mut kernel, 0).syscall_times[3] = 4;
    assert_eq!(sys_set_priority(&mut kernel, 4), 4);
    let free = kernel.frames.free_frames();
    assert_eq!(sys_fork(&mut kernel), 1);
    assert_eq!(kernel.frames.free_frames(), free - 6);
    assert_eq!(kernel.processor.current, Some(0));
    assert_eq!(queue(&kernel), 1);
    let (parent, child) = (task(&kernel, 0), task(&kernel, 1));
    assert_eq!(parent.children, vec![1]);
    assert_eq!(parent.trap_cx.x[REG_A0], 99);
    assert_eq!(child.pid, 1);
    assert_eq!(child.parent, Some(0));
    assert!(child.children.is_empty());
    assert_eq!(child.task_status, TaskStatus::Ready);
    assert_eq!(child.trap_cx.x[REG_A0], 0);
    assert_eq!(child.trap_cx.x[REG_A1], 5);
    assert_eq!(child.trap_cx.x[REG_SP], USER_SP);
    assert_eq!(child.trap_cx.sepc, 0x10008);
    assert_eq!(child.trap_cx.kernel_sp, kernel_stack_position(1).1);
    assert_eq!(child.kernel_stack_top, TRAMPOLINE - 0x3000);
    assert_eq!(child.task_cx.ra, platform().trap_return);
    assert_eq!(child.task_cx.sp, child.kernel_stack_top);
    assert_eq!((child.priority, child.pass, child.stride), (4, pass_of(4), parent.stride));
    assert_eq!(child.fd_table, parent.fd_table);
    assert_eq!(child.syscall_times, [0; MAX_SYSCALL_NUM]);
    assert_eq!(child.start_time, 9);
    assert_eq!(child.exit_code, 0);
    assert_eq!((child.base_size, child.heap_bottom, child.program_brk), (USER_SP, USER_SP, USER_SP));
    assert_eq!(layout(&kernel, 1), layout(&kernel, 0));
    assert_eq!(get(&kernel, 1, STACK, 15), b"from the parent".to_vec());
    assert_eq!(get(&kernel, 1, 0x10000, 17), [vec![0u8; 16], vec![0]].concat());
}

#[test]
fn fork_fails_cleanly_without_frames() {
    let mut kernel = boot(11);
    assert_eq!(kernel.frames.free_frames(), 5);
    assert_eq!(sys_fork(&mut kernel), -1);
    assert_eq!(kernel.frames.free_frames(), 5);
    assert_eq!(kernel.tasks.len(), 1);
    assert!(task(&kernel, 0).children.is_empty());
    assert_eq!(queue(&kernel), 0);
}

#[test]
fn the_lowest_free_pid_is_taken() {
    let mut kernel = boot(0x80);
    assert_eq!(find_free_pid(&kernel), Some(1));
    assert_eq!(sys_fork(&mut kernel), 1);
    assert_eq!(sys_fork(&mut kernel), 2);
    assert_eq!(sys_fork(&mut kernel), 3);
    switch_to(&mut kernel, 2);
    assert_eq!(sys_exit(&mut kernel, 0), Some(3));
    switch_to(&mut kernel, 0);
    assert_eq!(sys_waitpid(&mut kernel, 2, STACK), 2);
    assert!(kernel.tasks[2].is_none());
    assert_eq!(find_free_pid(&kernel), Some(2));
    assert_eq!(sys_fork(&mut kernel), 2);
    assert_eq!(sys_fork(&mut kernel), 4);
    assert_eq!(task(&kernel, 0).children, vec![1, 3, 2, 4]);
}

#[test]
fn parent_and_child_do_not_see_what_the_other_maps() {
    let mut kernel = boot(0x80);
    let before = layout(&kernel, 0);
    let child = fork_and_switch(&mut kernel);
    assert_eq!(sys_mmap(&mut kernel, 0x1000_0000, PAGE_SIZE, 3), 0);
    put(&mut kernel, STACK, b"child");
    assert_eq!(layout(&kernel, 0), before);
    assert_eq!(layout(&kernel, child).len(), before.len() + 1);
    switch_to(&mut kernel, 0);
    assert_eq!(get(&kernel, 0, STACK, 5), vec![0; 5]);
    assert_eq!(sys_mmap(&mut kernel, 0x2000_0000, PAGE_SIZE, 1), 0);
    assert_eq!(sys_munmap(&mut kernel, 0x1000_0000, PAGE_SIZE), -1);
    assert_eq!(layout(&kernel, child).len(), before.len() + 1);
    assert!(task(&kernel, child).memory_set.translate(VirtAddr(0x2000_0000).floor()).is_none());
    assert!(task(&kernel, child).memory_set.translate(VirtAddr(0x1000_0000).floor()).is_some());
}

#[test]
fn waitpid_without_children_is_minus_one() {
    let mut kernel = boot(0x40);
    assert_eq!(sys_waitpid(&mut kernel, -1, STACK), -1);
    assert_eq!(sys_waitpid(&mut kernel, 1, STACK), -1);
    assert_eq!(sys_waitpid(&mut kernel, 0, STACK), -1);
}

#[test]
fn waitpid_for_a_child_that_runs_on_is_minus_two() {
    let mut kernel = boot(0x80);
    assert_eq!(sys_fork(&mut kernel), 1);
    put(&mut kernel, STACK, &[0x55; 4]);
    assert_eq!(sys_waitpid(&mut kernel, 1, STACK), -2);
    assert_eq!(sys_waitpid(&mut kernel, -1, STACK), -2);
    assert_eq!(sys_waitpid(&mut kernel, 2, STACK), -1);
    assert_eq!(sys_waitpid(&mut kernel, -2, STACK), -1);
    assert_eq!(get(&kernel, 0, STACK, 4), vec![0x55; 4]);
    assert_eq!(task(&kernel, 0).children, vec![1]);
    assert!(kernel.tasks[1].is_some());
}

#[test]
fn waitpid_collects_a_zombie_and_its_exit_code() {
    let mut kernel = boot(0x80);
    let child = fork_and_switch(&mut kernel);
    let free = kernel.frames.free_frames();
    assert_eq!(sys_exit(&mut kernel, -7), Some(0));
    assert_eq!(kernel.frames.free_frames(), free + 6);
    assert_eq!(task(&kernel, child).task_status, TaskStatus::Zombie);
    assert!(task(&kernel, child).is_zombie());
    assert_eq!(task(&kernel, child).exit_code, -7);
    assert_eq!(task(&kernel, child).memory_set.area_count(), 0);
    put(&mut kernel, STACK, &[0x55; 8]);
    assert_eq!(sys_waitpid(&mut kernel, child as isize, STACK + 2), child as isize);
    assert_eq!(get(&kernel, 0, STACK, 8), vec![0x55, 0x55, 0xf9, 0xff, 0xff, 0xff, 0x55, 0x55]);
    assert!(kernel.tasks[child].is_none());
    assert!(task(&kernel, 0).children.is_empty());
    assert_eq!(sys_waitpid(&mut kernel, child as isize, STACK), -1);
    assert_eq!(sys_waitpid(&mut kernel, -1, STACK), -1);
}

#[test]
fn waitpid_for_any_child_takes_the_first_zombie() {
    let mut kernel = boot(0x100);
    assert_eq!(sys_fork(&mut kernel), 1);
    assert_eq!(sys_fork(&mut kernel), 2);
    assert_eq!(sys_fork(&mut kernel), 3);
    switch_to(&mut kernel, 3);
    sys_exit(&mut kernel, 33);
    switch_to(&mut kernel, 2);
    sys_exit(&mut kernel, 22);
    switch_to(&mut kernel, 0);
    assert_eq!(sys_waitpid(&mut kernel, 1, STACK), -2);
    assert_eq!(sys_waitpid(&mut kernel, -1, STACK), 2);
    assert_eq!(get(&kernel, 0, STACK, 4), vec![22, 0, 0, 0]);
    assert_eq!(task(&kernel, 0).children, vec![1, 3]);
    assert_eq!(sys_waitpid(&mut kernel, -1, STACK), 3);
    assert_eq!(get(&kernel, 0, STACK, 4), vec![33, 0, 0, 0]);
    assert_eq!(sys_waitpid(&mut kernel, -1, STACK), -2);
}

#[test]
fn waitpid_does_not_collect_where_the_code_cannot_be_written() {
    let mut kernel = boot(0x80);
    let child = fork_and_switch(&mut kernel);
    assert_eq!(sys_exit(&mut kernel, 1), Some(0));
    assert_eq!(sys_waitpid(&mut kernel, -1, 0x10000), -1);
    assert_eq!(sys_waitpid(&mut kernel, -1, 0), -1);
    assert_eq!(sys_waitpid(&mut kernel, -1, USER_SP - 2), -1);
    assert!(kernel.tasks[child].is_some());
    assert_eq!(task(&kernel, 0).children, vec![child]);
    assert_eq!(sys_waitpid(&mut kernel, -1, USER_SP - 4), child as isize);
}

#[test]
fn orphans_become_children_of_the_first_task() {
    let mut kernel = boot(0x100);
    let middle = fork_and_switch(&mut kernel);
    assert_eq!(sys_fork(&mut kernel), 2);
    assert_eq!(sys_fork(&mut kernel), 3);
    assert_eq!(task(&kernel, middle).children, vec![2, 3]);
    switch_to(&mut kernel, 0);
    assert_eq!(sys_fork(&mut kernel), 4);
    switch_to(&mut kernel, middle);
    assert!(sys_exit(&mut kernel, 5).is_some());
    assert!(task(&kernel, middle).children.is_empty());
    assert_eq!(task(&kernel, middle).parent, Some(0));
    assert_eq!(task(&kernel, 2).parent, Some(0));
    assert_eq!(task(&kernel, 3).parent, Some(0));
    assert_eq!(task(&kernel, 4).parent, Some(0));
    assert_eq!(task(&kernel, 0).children, vec![middle, 4, 2, 3]);
    assert_eq!(task(&kernel, 0).parent, None);
    switch_to(&mut kernel, 3);
    sys_exit(&mut kernel, 3);
    switch_to(&mut kernel, 0);
    assert_eq!(sys_waitpid(&mut kernel, 3, STACK), 3);
    assert_eq!(sys_waitpid(&mut kernel, -1, STACK), middle as isize);
    assert_eq!(task(&kernel, 0).children, vec![4, 2]);
}

#[test]
fn exit_current_leaves_the_hart_idle() {
    let mut kernel = boot(0x80);
    let child = fork_and_switch(&mut kernel);
    assert_eq!(exit_current(&mut kernel, 8), child);
    assert_eq!(task(&kernel, child).task_status, TaskStatus::Zombie);
    assert_eq!(kernel.processor.current, None);
    assert_eq!(task(&kernel, child).exit_code, 8);
    assert_eq!(queue(&kernel), 1);
    assert_eq!(schedule(&mut kernel), Some(0));
}

#[test]
fn exit_runs_the_task_that_has_run_least() {
    let mut kernel = boot(0x100);
    assert_eq!(sys_fork(&mut kernel), 1);
    assert_eq!(sys_fork(&mut kernel), 2);
    switch_to(&mut kernel, 1);
    let front = suspend_current_and_run_next(&mut kernel);
    switch_to(&mut kernel, 1);
    assert_eq!(exit_current_and_run_next(&mut kernel, 4), Some(front));
    assert_eq!(kernel.processor.current, Some(front));
    assert_eq!(task(&kernel, front).task_status, TaskStatus::Running);
    assert_eq!(task(&kernel, 1).exit_code, 4);
    assert_eq!(queue(&kernel), 1);
}

#[test]
fn yield_puts_the_task_back_and_runs_the_next() {
    let mut kernel = boot(0x80);
    assert_eq!(sys_yield(&mut kernel), 0);
    assert_eq!(kernel.processor.current, Some(0));
    assert_eq!(sys_fork(&mut kernel), 1);
    assert_eq!(sys_yield(&mut kernel), 0);
    assert_eq!(kernel.processor.current, Some(1));
    assert_eq!(task(&kernel, 0).task_status, TaskStatus::Ready);
    assert_eq!(task(&kernel, 1).task_status, TaskStatus::Running);
    assert_eq!(suspend_current_and_run_next(&mut kernel), 0);
    assert_eq!(task(&kernel, 1).task_status, TaskStatus::Ready);
}

#[test]
fn tasks_run_in_proportion_to_their_priority() {
    let mut kernel = boot(0x100);
    assert_eq!(sys_fork(&mut kernel), 1);
    assert_eq!(sys_fork(&mut kernel), 2);
    switch_to(&mut kernel, 1);
    assert_eq!(sys_set_priority(&mut kernel, 32), 32);
    switch_to(&mut kernel, 2);
    assert_eq!(sys_set_priority(&mut kernel, 16), 16);
    switch_to(&mut kernel, 0);
    assert_eq!(sys_set_priority(&mut kernel, 2), 2);
    let mut runs = [0usize; 3];
    for _ in 0..1700 {
        runs[suspend_current_and_run_next(&mut kernel)] += 1;
    }
    assert!((67..=69).contains(&runs[0]), "{runs:?}");
    assert!((1087..=1089).contains(&runs[1]), "{runs:?}");
    assert!((543..=545).contains(&runs[2]), "{runs:?}");
}

#[test]
fn set_priority_wants_two_at_least() {
    let mut kernel = boot(0x40);
    for bad in [1isize, 0, -1, isize::MIN] {
        assert_eq!(sys_set_priority(&mut kernel, bad), -1);
        assert_eq!(task(&kernel, 0).priority, 16);
        assert_eq!(task(&kernel, 0).pass, pass_of(16));
    }
    assert_eq!(sys_set_priority(&mut kernel, 2), 2);
    assert_eq!((task(&kernel, 0).priority, task(&kernel, 0).pass), (2, u64::MAX / 2));
    assert_eq!(sys_set_priority(&mut kernel, isize::MAX), isize::MAX);
    assert_eq!(task(&kernel, 0).pass, 2);
}

#[test]
fn mmap_and_munmap_act_on_the_running_task() {
    let mut kernel = boot(0x40);
    let before = layout(&kernel, 0);
    let free = kernel.frames.free_frames();
    assert_eq!(sys_mmap(&mut kernel, 0x1000_0000, 2 * PAGE_SIZE, 3), 0);
    assert_eq!(kernel.frames.free_frames(), free - 2);
    assert_eq!(layout(&kernel, 0).len(), before.len() + 1);
    assert_eq!(*layout(&kernel, 0).last().unwrap(), (0x10000, 0x10002, MapPermission { r: true, w: true, x: false, u: true }));
    put(&mut kernel, 0x1000_0ffe, &[1, 2, 3, 4]);
    assert_eq!(get(&kernel, 0, 0x1000_0ffe, 4), vec![1, 2, 3, 4]);
    assert_eq!(sys_mmap(&mut kernel, 0x1000_1000, PAGE_SIZE, 3), -1);
    assert_eq!(sys_mmap(&mut kernel, 0x1000_2000, PAGE_SIZE, 0), -1);
    assert_eq!(sys_mmap(&mut kernel, 0x10000, PAGE_SIZE, 1), -1);
    assert_eq!(sys_mmap(&mut kernel, 0x13000, 2 * PAGE_SIZE, 1), -1);
    assert_eq!(layout(&kernel, 0).len(), before.len() + 1);
    assert_eq!(sys_munmap(&mut kernel, 0x1000_0000, PAGE_SIZE), -1);
    assert_eq!(sys_munmap(&mut kernel, 0x1000_0000, 2 * PAGE_SIZE), 0);
    assert_eq!(layout(&kernel, 0), before);
    assert_eq!(kernel.frames.free_frames(), free);
    assert_eq!(sys_mmap(&mut kernel, 0x13000, PAGE_SIZE, 1), 0);
    assert_eq!(sys_munmap(&mut kernel, 0x12000, 2 * PAGE_SIZE), 0);
    assert_eq!(layout(&kernel, 0).len(), before.len() - 1);
}

#[test]
fn mmap_fails_cleanly_without_frames() {
    let mut kernel = boot(8);
    assert_eq!(sys_mmap(&mut kernel, 0x1000_0000, 3 * PAGE_SIZE, 3), -1);
    assert_eq!(kernel.frames.free_frames(), 2);
    assert_eq!(layout(&kernel, 0).len(), 5);
    assert_eq!(sys_mmap(&mut kernel, 0x1000_0000, 2 * PAGE_SIZE, 3), 0);
    assert_eq!(kernel.frames.free_frames(), 0);
}

#[test]
fn sbrk_moves_the_break_and_maps_whole_pages() {
    let mut kernel = boot(0x40);
    let free = kernel.frames.free_frames();
    assert_eq!(sys_sbrk(&mut kernel, 0), USER_SP as isize);
    assert_eq!(sys_sbrk(&mut kernel, 1), USER_SP as isize);
    assert_eq!(task(&kernel, 0).program_brk, USER_SP + 1);
    assert_eq!(kernel.frames.free_frames(), free - 1);
    assert_eq!(layout(&kernel, 0)[3].0, 0x16);
    assert_eq!(layout(&kernel, 0)[3].1, 0x17);
    put(&mut kernel, USER_SP, &[7]);
    assert_eq!(sys_sbrk(&mut kernel, 0x1fff), (USER_SP + 1) as isize);
    assert_eq!(task(&kernel, 0).program_brk, USER_SP + 0x2000);
    assert_eq!(kernel.frames.free_frames(), free - 2);
    assert_eq!(sys_sbrk(&mut kernel, -0x1000), (USER_SP + 0x2000) as isize);
    assert_eq!(kernel.frames.free_frames(), free - 1);
    assert_eq!(get(&kernel, 0, USER_SP, 1), vec![7]);
    assert_eq!(sys_sbrk(&mut kernel, -0x1001), -1);
    assert_eq!(task(&kernel, 0).program_brk, USER_SP + 0x1000);
    assert_eq!(sys_sbrk(&mut kernel, -0x1000), (USER_SP + 0x1000) as isize);
    assert_eq!(kernel.frames.free_frames(), free);
    assert_eq!(layout(&kernel, 0)[3].1, 0x16);
    assert_eq!(sys_sbrk(&mut kernel, -1), -1);
}

#[test]
fn sbrk_fails_where_the_heap_meets_a_mapping_or_runs_out_of_frames() {
    let mut kernel = boot(0x10);
    assert_eq!(sys_mmap(&mut kernel, USER_SP + PAGE_SIZE, PAGE_SIZE, 3), 0);
    assert_eq!(sys_sbrk(&mut kernel, 0x1000), USER_SP as isize);
    assert_eq!(sys_sbrk(&mut kernel, 1), -1);
    assert_eq!(task(&kernel, 0).program_brk, USER_SP + 0x1000);
    assert_eq!(sys_munmap(&mut kernel, USER_SP + PAGE_SIZE, PAGE_SIZE), 0);
    let free = kernel.frames.free_frames();
    assert_eq!(sys_sbrk(&mut kernel, ((free + 1) * PAGE_SIZE) as i32), -1);
    assert_eq!(kernel.frames.free_frames(), free);
    assert_eq!(sys_sbrk(&mut kernel, (free * PAGE_SIZE) as i32), (USER_SP + 0x1000) as isize);
    assert_eq!(kernel.frames.free_frames(), 0);
    assert_eq!(sys_munmap(&mut kernel, USER_SP, (free + 1) * PAGE_SIZE), 0);
    assert_eq!(sys_sbrk(&mut kernel, 0), -1);
}

#[test]
fn exec_replaces_the_program_and_keeps_the_task() {
    let mut kernel = boot(0x80);
    assert_eq!(sys_fork(&mut kernel), 1);
    put(&mut kernel, STACK, b"shell\0");
    assert_eq!(install_file(&mut kernel, FileHandle { id: 7, readable: true, writable: true }), 3);
    assert_eq!(sys_mmap(&mut kernel, 0x1000_0000, PAGE_SIZE, 3), 0);
    assert_eq!(sys_sbrk(&mut kernel, 0x1000), USER_SP as isize);
    task_mut(&mut kernel, 0).trap_cx.x[REG_A1] = 5;
    let free = kernel.frames.free_frames();
    assert_eq!(sys_exec(&mut kernel, STACK), 0);
    assert_eq!(kernel.frames.free_frames(), free + 2);
    let me = task(&kernel, 0);
    assert_eq!(me.pid, 0);
    assert_eq!(me.children, vec![1]);
    assert_eq!(me.fd_table.len(), 4);
    assert_eq!(me.task_status, TaskStatus::Running);
    assert_eq!(me.trap_cx.sepc, 0x10000);
    assert_eq!(me.trap_cx.x[REG_SP], USER_SP);
    assert_eq!(me.trap_cx.x[REG_A1], 0);
    assert_eq!(me.program_brk, USER_SP);
    assert_eq!(me.memory_set.area_count(), 5);
    assert_eq!(get(&kernel, 0, 0x10000, 17), [vec![2u8; 16], vec![0]].concat());
    assert_eq!(get(&kernel, 0, STACK, 6), vec![0; 6]);
    assert_eq!(get(&kernel, 1, STACK, 6), vec![0; 6]);
    assert_eq!(get(&kernel, 1, 0x10000, 1), vec![0]);
}

#[test]
fn exec_of_the_first_app_of_a_name() {
    let mut kernel = boot(0x80);
    put(&mut kernel, STACK, b"hello\0");
    assert_eq!(find_requested_app(&kernel, STACK), Some(0));
    assert_eq!(sys_exec(&mut kernel, STACK), 0);
    assert_eq!(get(&kernel, 0, 0x12000, 1), vec![1]);
    assert_eq!(get_app_data_by_name(&kernel.apps, &b"hello".to_vec()), Some(0));
    assert_eq!(get_app_data_by_name(&kernel.apps, &b"shell".to_vec()), Some(1));
    assert_eq!(get_app_data_by_name(&kernel.apps, &b"hell".to_vec()), None);
    assert!(same_bytes(&vec![1, 2], &vec![1, 2]));
    assert!(!same_bytes(&vec![1, 2], &vec![1, 3]));
    assert!(!same_bytes(&vec![1, 2], &vec![1]));
}

#[test]
fn a_failed_exec_leaves_the_address_space_intact() {
    let mut kernel = boot(0x10);
    put(&mut kernel, STACK, b"nothing\0broken\0shell\0");
    assert_eq!(sys_mmap(&mut kernel, 0x1000_0000, 5 * PAGE_SIZE, 3), 0);
    put(&mut kernel, 0x1000_0000, b"kept");
    let before = layout(&kernel, 0);
    let free = kernel.frames.free_frames();
    assert_eq!(free, 5);
    assert_eq!(sys_exec(&mut kernel, STACK), -1);
    assert_eq!(sys_exec(&mut kernel, STACK + 8), -1);
    assert_eq!(sys_exec(&mut kernel, STACK + 15), -1);
    assert_eq!(sys_exec(&mut kernel, 0x9000_0000), -1);
    assert_eq!(sys_exec(&mut kernel, 0), -1);
    assert_eq!(layout(&kernel, 0), before);
    assert_eq!(kernel.frames.free_frames(), free);
    assert_eq!(get(&kernel, 0, 0x1000_0000, 4), b"kept".to_vec());
    assert_eq!(task(&kernel, 0).trap_cx.sepc, 0x10000);
    assert_eq!(sys_munmap(&mut kernel, 0x1000_0000, 5 * PAGE_SIZE), 0);
    assert_eq!(sys_exec(&mut kernel, STACK + 15), 0);
}

#[test]
fn spawn_makes_a_child_that_runs_an_app() {
    let mut kernel = boot(0x80);
    put(&mut kernel, STACK, b"shell\0nothing\0broken\0");
    set_time(&mut kernel, 3_999);
    let free = kernel.frames.free_frames();
    assert_eq!(sys_spawn(&mut kernel, STACK + 6), -1);
    assert_eq!(sys_spawn(&mut kernel, STACK + 14), -1);
    assert_eq!(sys_spawn(&mut kernel, 0x9000_0000), -1);
    assert_eq!(kernel.frames.free_frames(), free);
    assert_eq!(kernel.tasks.len(), 1);
    assert_eq!(sys_spawn(&mut kernel, STACK), 1);
    assert_eq!(kernel.frames.free_frames(), free - 6);
    let child = task(&kernel, 1);
    assert_eq!(child.parent, Some(0));
    assert_eq!(child.task_status, TaskStatus::Ready);
    assert_eq!(child.trap_cx.sepc, 0x10000);
    assert_eq!(child.trap_cx.x[REG_SP], USER_SP);
    assert_eq!(child.priority, DEFAULT_PRIORITY);
    assert_eq!(child.stride, 0);
    assert_eq!(child.start_time, 3);
    assert_eq!(child.fd_table.len(), 3);
    assert_eq!(get(&kernel, 1, 0x12000, 1), vec![2]);
    assert_eq!(get(&kernel, 1, STACK, 5), vec![0; 5]);
    assert_eq!(task(&kernel, 0).children, vec![1]);
    assert_eq!(queue(&kernel), 1);
    assert_eq!(sys_yield(&mut kernel), 0);
    assert_eq!(kernel.processor.current, Some(1));
}

#[test]
fn the_time_is_written_as_seconds_and_microseconds() {
    let mut kernel = boot(0x40);
    set_time(&mut kernel, 3_000_042);
    assert_eq!(get_time_us(&kernel), 3_000_042);
    assert_eq!(get_time_ms(&kernel), 3_000);
    put(&mut kernel, STACK, &[0xee; 24]);
    assert_eq!(sys_get_time(&mut kernel, STACK + 4, 0), 0);
    let mut expected = vec![0xee; 4];
    expected.extend_from_slice(&3u64.to_le_bytes());
    expected.extend_from_slice(&42u64.to_le_bytes());
    expected.extend_from_slice(&[0xee; 4]);
    assert_eq!(get(&kernel, 0, STACK, 24), expected);
    assert_eq!(encode_time_val(&TimeVal { sec: 1, usec: 0x0203 }), [1u64.to_le_bytes(), 0x0203u64.to_le_bytes()].concat());
    assert_eq!(sys_get_time(&mut kernel, USER_SP - 15, 0), -1);
    assert_eq!(sys_get_time(&mut kernel, 0x10000, 0), -1);
    assert_eq!(sys_get_time(&mut kernel, 0, 0), -1);
    assert_eq!(sys_get_time(&mut kernel, USER_SP - 16, 0), 0);
}

#[test]
fn task_info_tells_status_calls_and_time() {
    let mut kernel = boot(0x40);
    set_time(&mut kernel, 2_000);
    assert_eq!(sys_fork(&mut kernel), 1);
    switch_to(&mut kernel, 1);
    set_time(&mut kernel, 7_500);
    update_syscall_times(&mut kernel, 64);
    update_syscall_times(&mut kernel, 64);
    update_syscall_times(&mut kernel, 499);
    update_syscall_times(&mut kernel, 500);
    update_syscall_times(&mut kernel, usize::MAX);
    task_mut(&mut kernel, 1).syscall_times[3] = u32::MAX;
    update_syscall_times(&mut kernel, 3);
    let info = current_task_info(&kernel);
    assert_eq!(info.status, TaskStatus::Running);
    assert_eq!(info.time, 5);
    assert_eq!(info.syscall_times[64], 2);
    assert_eq!(info.syscall_times[499], 1);
    assert_eq!(info.syscall_times[3], u32::MAX);
    assert_eq!(info.syscall_times.iter().filter(|&&n| n != 0).count(), 3);
    let bytes = encode_task_info(&info);
    assert_eq!(bytes.len(), TASK_INFO_SIZE);
    assert_eq!(&bytes[..4], &[2, 0, 0, 0]);
    assert_eq!(&bytes[4 + 4 * 64..4 + 4 * 65], &[2, 0, 0, 0]);
    assert_eq!(&bytes[4 + 4 * 3..4 + 4 * 4], &[0xff; 4]);
    assert_eq!(&bytes[2004..2008], &[0; 4]);
    assert_eq!(&bytes[2008..], &5u64.to_le_bytes());
    assert_eq!(sys_task_info(&mut kernel, 0), -1);
    assert_eq!(sys_task_info(&mut kernel, 0x10000), -1);
    assert_eq!(sys_task_info(&mut kernel, USER_SP - TASK_INFO_SIZE + 1), -1);
    assert_eq!(sys_task_info(&mut kernel, STACK + 8), 0);
    assert_eq!(get(&kernel, 1, STACK + 8, TASK_INFO_SIZE), bytes);
    assert_eq!(get(&kernel, 1, STACK, 8), vec![0; 8]);
    assert_eq!(
        [TaskStatus::UnInit, TaskStatus::Ready, TaskStatus::Running, TaskStatus::Zombie].map(status_code),
        [0, 1, 2, 3]
    );
}

#[test]
fn va_to_pa_walks_the_running_tasks_table() {
    let kernel = boot(0x40);
    let entry = task(&kernel, 0).memory_set.translate(VirtAddr(0x10000).floor()).unwrap();
    assert_eq!(va_to_pa(&kernel, VirtAddr(0x10123)).map(|pa| pa.0), Some(entry.ppn.0 * PAGE_SIZE + 0x123));
    assert_eq!(va_to_pa(&kernel, VirtAddr(0x13000)), None);
    assert_eq!(va_to_pa(&kernel, VirtAddr(TRAMPOLINE + 8)).map(|pa| pa.0), Some(0x80_000 * PAGE_SIZE + 8));
}

#[test]
fn open_flags_tell_reading_from_writing() {
    assert_eq!(RDONLY, 0);
    assert_eq!(OpenFlags::from_bits(RDONLY).unwrap().read_write(), (true, false));
    assert_eq!(OpenFlags::from_bits(WRONLY).unwrap().read_write(), (false, true));
    assert_eq!(OpenFlags::from_bits(RDWR).unwrap().read_write(), (true, true));
    assert_eq!(OpenFlags::from_bits(CREATE).unwrap().read_write(), (true, true));
    assert_eq!(OpenFlags::from_bits(CREATE | WRONLY).unwrap().read_write(), (false, true));
    assert_eq!(OpenFlags::from_bits(RDWR | WRONLY).unwrap().read_write(), (false, true));
    let flags = OpenFlags::from_bits(CREATE | TRUNC | RDWR).unwrap();
    assert_eq!(flags.bits(), 0x602);
    assert!(flags.contains(CREATE) && flags.contains(TRUNC) && flags.contains(RDWR));
    assert!(!flags.contains(WRONLY));
    assert!(!flags.is_empty());
    assert!(OpenFlags::from_bits(0).unwrap().is_empty());
    for bad in [4u32, 8, 256, 2048, 0x603 | 4, u32::MAX] {
        assert_eq!(OpenFlags::from_bits(bad), None);
    }
}

#[test]
fn files_are_opened_into_the_first_free_slot_and_closed() {
    let mut kernel = boot(0x40);
    put(&mut kernel, STACK, b"notes.txt\0");
    let request = sys_open(&kernel, STACK, CREATE | WRONLY).unwrap();
    assert_eq!(request.name, b"notes.txt".to_vec());
    assert_eq!(request.flags.bits(), CREATE | WRONLY);
    assert_eq!((request.readable, request.writable), (false, true));
    assert!(sys_open(&kernel, STACK, 4).is_none());
    assert!(sys_open(&kernel, 0x9000_0000, 0).is_none());
    let file = FileHandle { id: 40, readable: false, writable: true };
    assert_eq!(install_file(&mut kernel, file), 3);
    assert_eq!(current_file(&kernel, 3), Some(file));
    assert_eq!(current_file(&kernel, 4), None);
    assert_eq!(sys_close(&mut kernel, 1), 0);
    assert_eq!(sys_close(&mut kernel, 1), -1);
    assert_eq!(sys_close(&mut kernel, 4), -1);
    assert_eq!(current_file(&kernel, 1), None);
    let other = FileHandle { id: 41, readable: true, writable: false };
    assert_eq!(install_file(&mut kernel, other), 1);
    assert_eq!(install_file(&mut kernel, other), 4);
    assert_eq!(task(&kernel, 0).fd_table.len(), 5);
    assert_eq!(task_mut(&mut kernel, 0).alloc_fd(), 5);
}

#[test]
fn write_hands_out_the_bytes_of_the_task() {
    let mut kernel = boot(0x40);
    put(&mut kernel, USER_SP - 3, b"abc");
    let request = sys_write(&kernel, 1, USER_SP - 3, 3).unwrap();
    assert_eq!(request.file, FileHandle { id: 1, readable: false, writable: true });
    assert_eq!(request.data, b"abc".to_vec());
    assert_eq!(sys_write(&kernel, 1, 0x10000, 16).unwrap().data, vec![0; 16]);
    assert!(sys_write(&kernel, 0, USER_SP - 3, 3).is_none());
    assert!(sys_write(&kernel, 3, USER_SP - 3, 3).is_none());
    assert!(sys_write(&kernel, 1, USER_SP - 3, 4).is_none());
    assert!(sys_write(&kernel, 1, 0x13000, 1).is_none());
}

#[test]
fn read_fills_the_range_of_the_task() {
    let mut kernel = boot(0x40);
    let request = sys_read(&kernel, 0, STACK + 1, 8).unwrap();
    assert_eq!(request, ReadRequest { file: FileHandle { id: 0, readable: true, writable: false }, buf: STACK + 1, len: 8 });
    assert!(sys_read(&kernel, 1, STACK, 8).is_none());
    assert!(sys_read(&kernel, 9, STACK, 8).is_none());
    assert!(sys_read(&kernel, 0, 0x10000, 8).is_none());
    assert!(sys_read(&kernel, 0, USER_SP - 7, 8).is_none());
    assert_eq!(complete_read(&mut kernel, &request, &b"hi!".to_vec()), 3);
    assert_eq!(get(&kernel, 0, STACK, 5), vec![0, b'h', b'i', b'!', 0]);
    assert_eq!(complete_read(&mut kernel, &request, &vec![7; 8]), 8);
    assert_eq!(complete_read(&mut kernel, &request, &vec![9; 9]), -1);
    assert_eq!(get(&kernel, 0, STACK, 10), [vec![0], vec![7; 8], vec![0]].concat());
    let astray = ReadRequest { file: request.file, buf: 0x10000, len: 8 };
    assert_eq!(complete_read(&mut kernel, &astray, &b"hi!".to_vec()), -1);
    assert_eq!(complete_read(&mut kernel, &astray, &vec![]), 0);
    let short = ReadRequest { file: request.file, buf: STACK, len: 0 };
    assert_eq!(complete_read(&mut kernel, &short, &vec![]), 0);
    assert_eq!(complete_read(&mut kernel, &short, &vec![1]), -1);
}

#[test]
fn fstat_fills_in_inode_mode_and_links() {
    let mut kernel = boot(0x40);
    put(&mut kernel, STACK, &[0xee; 32]);
    assert_eq!(sys_fstat(&mut kernel, 2, STACK, 0x0102_0304_0506_0708, 0o100000, 3), 0);
    let mut expected = vec![0xee; 8];
    expected.extend_from_slice(&0x0102_0304_0506_0708u64.to_le_bytes());
    expected.extend_from_slice(&0o100000u32.to_le_bytes());
    expected.extend_from_slice(&3u32.to_le_bytes());
    expected.extend_from_slice(&[0xee; 8]);
    assert_eq!(get(&kernel, 0, STACK, 32), expected);
    assert_eq!(sys_fstat(&mut kernel, 3, STACK, 1, 2, 3), -1);
    assert_eq!(sys_fstat(&mut kernel, 2, 0x10000, 1, 2, 3), -1);
    assert_eq!(sys_fstat(&mut kernel, 2, USER_SP - 23, 1, 2, 3), -1);
    assert_eq!(sys_fstat(&mut kernel, 2, usize::MAX - 4, 1, 2, 3), -1);
    assert_eq!(sys_fstat(&mut kernel, 2, USER_SP - 24, 1, 2, 3), 0);
    assert_eq!(get(&kernel, 0, STACK, 32), expected);
}

#[test]
fn link_and_unlink_hand_out_the_names() {
    let mut kernel = boot(0x40);
    put(&mut kernel, STACK, b"old\0new\0");
    assert_eq!(sys_linkat(&kernel, STACK, STACK + 4), Some((b"old".to_vec(), b"new".to_vec())));
    assert_eq!(sys_linkat(&kernel, STACK, STACK), Some((b"old".to_vec(), b"old".to_vec())));
    assert_eq!(sys_linkat(&kernel, 0x9000_0000, STACK), None);
    assert_eq!(sys_linkat(&kernel, STACK, 0x9000_0000), None);
    assert_eq!(sys_unlinkat(&kernel, STACK + 5), Some(b"ew".to_vec()));
    assert_eq!(sys_unlinkat(&kernel, 0), None);
}

#[test]
fn registers_are_read_as_signed_numbers() {
    assert_eq!(as_signed(0), 0);
    assert_eq!(as_signed(usize::MAX), -1);
    assert_eq!(as_signed(usize::MAX - 1), -2);
    assert_eq!(as_signed(isize::MAX as usize), isize::MAX);
    assert_eq!(as_signed(isize::MAX as usize + 1), isize::MIN);
    assert_eq!(as_register(-1), usize::MAX);
    assert_eq!(as_register(-2), usize::MAX - 1);
    assert_eq!(as_register(isize::MIN), 1 << (usize::BITS - 1));
    assert_eq!(as_register(5), 5);
    assert_eq!(low_i32(5), 5);
    assert_eq!(low_i32(usize::MAX), -1);
    assert_eq!(low_i32(0xffff_fff9), -7);
    assert_eq!(low_i32(0x1_0000_0003), 3);
    assert_eq!(low_i32(0x7fff_ffff), i32::MAX);
    assert_eq!(low_i32(0x8000_0000), i32::MIN);
}

#[test]
fn the_kernel_knows_fifteen_system_calls() {
    let known = [63usize, 64, 93, 124, 140, 169, 172, 214, 215, 220, 221, 222, 260, 400, 410];
    for id in 0..600 {
        assert_eq!(supported(id), known.contains(&id), "{id}");
    }
    assert!(!supported(usize::MAX));
}

#[test]
fn a_system_call_is_counted_and_handled() {
    let mut kernel = boot(0x80);
    assert!(matches!(syscall(&mut kernel, SYSCALL_GETPID, [0, 0, 0]), SyscallResult::Done(0)));
    assert!(matches!(syscall(&mut kernel, SYSCALL_FORK, [0, 0, 0]), SyscallResult::Done(1)));
    assert!(matches!(
        syscall(&mut kernel, SYSCALL_MMAP, [0x1000_0000, PAGE_SIZE, 3]),
        SyscallResult::Done(0)
    ));
    assert!(matches!(
        syscall(&mut kernel, SYSCALL_MMAP, [0x1000_0000, PAGE_SIZE, 3]),
        SyscallResult::Done(-1)
    ));
    assert!(matches!(
        syscall(&mut kernel, SYSCALL_SET_PRIORITY, [usize::MAX, 0, 0]),
        SyscallResult::Done(-1)
    ));
    assert!(matches!(
        syscall(&mut kernel, SYSCALL_WAITPID, [usize::MAX, STACK, 0]),
        SyscallResult::Done(-2)
    ));
    set_time(&mut kernel, 1_000_001);
    assert!(matches!(syscall(&mut kernel, SYSCALL_GET_TIME, [STACK, 0, 0]), SyscallResult::Done(0)));
    assert_eq!(get(&kernel, 0, STACK, 9), vec![1, 0, 0, 0, 0, 0, 0, 0, 1]);
    put(&mut kernel, STACK, b"out");
    match syscall(&mut kernel, SYSCALL_WRITE, [1, STACK, 3]) {
        SyscallResult::Write(request) => assert_eq!(request.data, b"out".to_vec()),
        _ => panic!("the call hands out the bytes"),
    }
    assert!(matches!(syscall(&mut kernel, SYSCALL_WRITE, [0, STACK, 3]), SyscallResult::Done(-1)));
    match syscall(&mut kernel, SYSCALL_READ, [0, STACK, 3]) {
        SyscallResult::Read(request) => assert_eq!((request.buf, request.len), (STACK, 3)),
        _ => panic!("the call hands out the range"),
    }
    assert!(matches!(syscall(&mut kernel, SYSCALL_READ, [1, STACK, 3]), SyscallResult::Done(-1)));
    let times = task(&kernel, 0).syscall_times;
    assert_eq!(times[SYSCALL_MMAP], 2);
    assert_eq!(times[SYSCALL_WRITE], 2);
    assert_eq!(times[SYSCALL_READ], 2);
    assert_eq!(times[SYSCALL_GETPID], 1);
    assert_eq!(times.iter().map(|&n| n as usize).sum::<usize>(), 11);
    assert!(matches!(syscall(&mut kernel, SYSCALL_YIELD, [0, 0, 0]), SyscallResult::Done(0)));
    assert_eq!(kernel.processor.current, Some(1));
    assert!(matches!(
        syscall(&mut kernel, SYSCALL_EXIT, [(-3isize) as usize, 0, 0]),
        SyscallResult::Exited(Some(0))
    ));
    assert_eq!(task(&kernel, 1).exit_code, -3);
    assert_eq!(task(&kernel, 1).syscall_times[SYSCALL_EXIT], 1);
}

#[test]
fn an_unknown_system_call_fails_and_the_kernel_goes_on() {
    let mut kernel = boot(0x80);
    assert_eq!(sys_fork(&mut kernel), 1);
    let free = kernel.frames.free_frames();
    for id in [9999usize, 0, 1, 62, 65, 499, 500, usize::MAX] {
        assert!(matches!(syscall(&mut kernel, id, [0, 0, 0]), SyscallResult::Done(-1)), "{id}");
        assert!(matches!(syscall(&mut kernel, id, [1, STACK, usize::MAX]), SyscallResult::Done(-1)));
    }
    assert_eq!(task(&kernel, 0).syscall_times, [0; MAX_SYSCALL_NUM]);
    assert_eq!(kernel.processor.current, Some(0));
    assert_eq!(task(&kernel, 0).task_status, TaskStatus::Running);
    assert_eq!(kernel.frames.free_frames(), free);
    assert_eq!(queue(&kernel), 1);
    assert_eq!(task(&kernel, 0).memory_set.area_count(), 5);
    assert!(matches!(syscall(&mut kernel, SYSCALL_GETPID, [0, 0, 0]), SyscallResult::Done(0)));
}

#[test]
fn a_trap_for_an_unknown_system_call_returns_minus_one() {
    let mut kernel = boot(0x80);
    let cx = &mut task_mut(&mut kernel, 0).trap_cx;
    cx.x[REG_A7] = 9999;
    cx.x[REG_A0] = 5;
    cx.sepc = 0x10020;
    assert!(can_handle(&kernel, 8));
    assert!(matches!(trap_handler(&mut kernel, 8), TrapOutcome::Syscall(SyscallResult::Done(-1))));
    assert_eq!(task(&kernel, 0).trap_cx.x[REG_A0], usize::MAX);
    assert_eq!(task(&kernel, 0).trap_cx.x[REG_A7], 9999);
    assert_eq!(task(&kernel, 0).trap_cx.sepc, 0x10024);
    assert_eq!(kernel.processor.current, Some(0));
    assert_eq!(task(&kernel, 0).syscall_times, [0; MAX_SYSCALL_NUM]);
    task_mut(&mut kernel, 0).trap_cx.x[REG_A7] = SYSCALL_GETPID;
    assert!(matches!(trap_handler(&mut kernel, 8), TrapOutcome::Syscall(SyscallResult::Done(0))));
}

#[test]
fn a_forked_pair_maps_and_execs_apart() {
    let mut kernel = boot(0x100);
    let areas = layout(&kernel, 0);
    let child = fork_and_switch(&mut kernel);
    assert_eq!(sys_mmap(&mut kernel, 0x1000_0000, 2 * PAGE_SIZE, 3), 0);
    assert_eq!(layout(&kernel, 0), areas);
    assert!(task(&kernel, 0).memory_set.translate(VirtAddr(0x1000_0000).floor()).is_none());
    assert!(task(&kernel, 0).memory_set.translate(VirtAddr(0x1000_1000).floor()).is_none());
    assert!(task(&kernel, child).memory_set.translate(VirtAddr(0x1000_1000).floor()).is_some());
    switch_to(&mut kernel, 0);
    put(&mut kernel, STACK, b"parent");
    assert_eq!(sys_mmap(&mut kernel, 0x3000_0000, PAGE_SIZE, 3), 0);
    assert!(task(&kernel, child).memory_set.translate(VirtAddr(0x3000_0000).floor()).is_none());
    assert_eq!(layout(&kernel, child).len(), areas.len() + 1);
    let parent_areas = layout(&kernel, 0);
    switch_to(&mut kernel, child);
    put(&mut kernel, STACK, b"shell\0");
    assert_eq!(sys_exec(&mut kernel, STACK), 0);
    assert_eq!(layout(&kernel, 0), parent_areas);
    assert_eq!(task(&kernel, 0).pid, 0);
    assert_eq!(get(&kernel, 0, STACK, 6), b"parent".to_vec());
    assert_eq!(get(&kernel, 0, 0x12000, 1), vec![0]);
    assert_eq!(get(&kernel, child, 0x12000, 1), vec![2]);
}

#[test]
fn the_cause_register_is_decoded() {
    assert_eq!(trap_cause(8), TrapCause::UserEnvCall);
    assert_eq!(trap_cause(2), TrapCause::IllegalInstruction);
    assert_eq!(trap_cause(5), TrapCause::LoadFault);
    assert_eq!(trap_cause(7), TrapCause::StoreFault);
    assert_eq!(trap_cause(13), TrapCause::LoadPageFault);
    assert_eq!(trap_cause(15), TrapCause::StorePageFault);
    assert_eq!(trap_cause(INTERRUPT | 5), TrapCause::SupervisorTimer);
    for other in [0usize, 1, 3, 4, 6, 9, 10, 11, 12, 14, 16, 100, INTERRUPT - 1] {
        assert_eq!(trap_cause(other), TrapCause::Other, "{other}");
    }
    for other in [0usize, 1, 2, 7, 8, 9, 13, 15, INTERRUPT - 1] {
        assert_eq!(trap_cause(INTERRUPT | other), TrapCause::Other, "{other}");
    }
    assert!(is_fault(TrapCause::StoreFault) && is_fault(TrapCause::StorePageFault));
    assert!(is_fault(TrapCause::LoadFault) && is_fault(TrapCause::LoadPageFault));
    assert!(is_fault(TrapCause::IllegalInstruction));
    assert!(!is_fault(TrapCause::UserEnvCall) && !is_fault(TrapCause::SupervisorTimer));
    assert!(!is_fault(TrapCause::Other));
}

#[test]
fn a_trap_for_a_system_call_writes_the_result_into_a0() {
    let mut kernel = boot(0x80);
    let cx = &mut task_mut(&mut kernel, 0).trap_cx;
    cx.x[REG_A7] = SYSCALL_MMAP;
    cx.x[REG_A0] = 0x1000_0000;
    cx.x[REG_A1] = PAGE_SIZE;
    cx.x[REG_A2] = 3;
    cx.sepc = 0x10010;
    assert!(can_handle(&kernel, 8));
    assert!(matches!(trap_handler(&mut kernel, 8), TrapOutcome::Syscall(SyscallResult::Done(0))));
    assert_eq!(task(&kernel, 0).trap_cx.sepc, 0x10014);
    assert_eq!(task(&kernel, 0).trap_cx.x[REG_A0], 0);
    assert_eq!(task(&kernel, 0).memory_set.area_count(), 6);
    task_mut(&mut kernel, 0).trap_cx.x[REG_A0] = 0x1000_0000;
    assert!(matches!(trap_handler(&mut kernel, 8), TrapOutcome::Syscall(SyscallResult::Done(-1))));
    assert_eq!(task(&kernel, 0).trap_cx.x[REG_A0], usize::MAX);
    assert_eq!(task(&kernel, 0).trap_cx.sepc, 0x10018);
    assert_eq!(task(&kernel, 0).syscall_times[SYSCALL_MMAP], 2);
    assert_eq!(next_instruction(usize::MAX - 3), 0);
    assert_eq!(next_instruction(usize::MAX), 3);
}

#[test]
fn a_trap_for_fork_returns_in_parent_and_child() {
    let mut kernel = boot(0x80);
    task_mut(&mut kernel, 0).trap_cx.x[REG_A7] = SYSCALL_FORK;
    task_mut(&mut kernel, 0).trap_cx.x[REG_A0] = 77;
    assert!(matches!(trap_handler(&mut kernel, 8), TrapOutcome::Syscall(SyscallResult::Done(1))));
    assert_eq!(task(&kernel, 0).trap_cx.x[REG_A0], 1);
    assert_eq!(task(&kernel, 1).trap_cx.x[REG_A0], 0);
    assert_eq!(task(&kernel, 1).trap_cx.sepc, 0x10004);
    task_mut(&mut kernel, 0).trap_cx.x[REG_A7] = SYSCALL_YIELD;
    assert!(matches!(trap_handler(&mut kernel, 8), TrapOutcome::Syscall(SyscallResult::Done(0))));
    assert_eq!(kernel.processor.current, Some(1));
    assert_eq!(task(&kernel, 0).trap_cx.x[REG_A0], 0);
    assert_eq!(task(&kernel, 1).trap_cx.x[REG_A0], 0);
    task_mut(&mut kernel, 1).trap_cx.x[REG_A7] = SYSCALL_EXIT;
    task_mut(&mut kernel, 1).trap_cx.x[REG_A0] = 12;
    assert!(can_handle(&kernel, 8));
    assert!(matches!(trap_handler(&mut kernel, 8), TrapOutcome::Syscall(SyscallResult::Exited(Some(0)))));
    assert_eq!(task(&kernel, 1).exit_code, 12);
    assert_eq!(task(&kernel, 1).trap_cx.x[REG_A0], 12);
}

#[test]
fn the_kernel_refuses_what_it_cannot_handle() {
    let mut kernel = boot(0x80);
    task_mut(&mut kernel, 0).trap_cx.x[REG_A7] = 1234;
    assert!(can_handle(&kernel, 8));
    task_mut(&mut kernel, 0).trap_cx.x[REG_A7] = SYSCALL_EXIT;
    assert!(!can_handle(&kernel, 8));
    assert!(!can_handle(&kernel, 13));
    assert!(!can_handle(&kernel, 2));
    assert!(!can_handle(&kernel, 3));
    assert!(!can_handle(&kernel, INTERRUPT | 9));
    assert!(can_handle(&kernel, INTERRUPT | 5));
    let child = fork_and_switch(&mut kernel);
    assert_eq!(child, 1);
    assert!(can_handle(&kernel, 8));
    assert!(can_handle(&kernel, 13));
    assert!(can_handle(&kernel, 2));
    assert!(!can_handle(&kernel, 12));
}

#[test]
fn a_fault_ends_the_task_and_spares_its_sibling() {
    for cause in [2usize, 5, 7, 13, 15] {
        let mut kernel = boot(0x100);
        assert_eq!(sys_fork(&mut kernel), 1);
        assert_eq!(sys_fork(&mut kernel), 2);
        switch_to(&mut kernel, 2);
        put(&mut kernel, STACK, b"sibling");
        switch_to(&mut kernel, 1);
        let sibling = layout(&kernel, 2);
        assert!(can_handle(&kernel, cause));
        let next = match trap_handler(&mut kernel, cause) {
            TrapOutcome::Killed(next) => next.unwrap(),
            _ => panic!("a fault ends the task"),
        };
        assert_eq!(kernel.processor.current, Some(next));
        assert_eq!(task(&kernel, 1).task_status, TaskStatus::Zombie);
        assert_eq!(task(&kernel, 1).exit_code, -1);
        assert_eq!(task(&kernel, 1).memory_set.area_count(), 0);
        assert_eq!(layout(&kernel, 2), sibling);
        assert_eq!(get(&kernel, 2, STACK, 7), b"sibling".to_vec());
        switch_to(&mut kernel, 2);
        assert_eq!(task(&kernel, 2).task_status, TaskStatus::Running);
        switch_to(&mut kernel, 0);
        assert_eq!(sys_waitpid(&mut kernel, 1, STACK), 1);
        assert_eq!(get(&kernel, 0, STACK, 4), vec![0xff; 4]);
    }
}

#[test]
fn the_timer_takes_the_hart_from_the_task() {
    let mut kernel = boot(0x80);
    assert_eq!(sys_fork(&mut kernel), 1);
    let sepc = task(&kernel, 0).trap_cx.sepc;
    assert!(matches!(trap_handler(&mut kernel, INTERRUPT | 5), TrapOutcome::Preempted(1)));
    assert_eq!(kernel.processor.current, Some(1));
    assert_eq!(task(&kernel, 0).task_status, TaskStatus::Ready);
    assert_eq!(task(&kernel, 0).trap_cx.sepc, sepc);
    assert!(matches!(trap_handler(&mut kernel, INTERRUPT | 5), TrapOutcome::Preempted(0)));
}

#[test]
fn a_trap_context_starts_a_program() {
    let mut cx = TrapContext::app_init_context(0x10000, 0x16000, 0x20, 1, 2, 3);
    assert_eq!(cx.sepc, 0x10000);
    assert_eq!((cx.sstatus, cx.kernel_satp, cx.kernel_sp, cx.trap_handler), (0x20, 1, 2, 3));
    for (i, x) in cx.x.iter().enumerate() {
        assert_eq!(*x, if i == 2 { 0x16000 } else { 0 });
    }
    cx.set_sp(0x15000);
    assert_eq!(cx.x[REG_SP], 0x15000);
    assert_eq!((REG_SP, REG_A0, REG_A1, REG_A2, REG_A7), (2, 10, 11, 12, 17));
}

#[test]
fn a_task_asks_with_the_numbers_that_the_kernel_knows() {
    let write = user::sys_write(1, 0x14000, 3);
    assert_eq!((write.id, write.args), (64, [1, 0x14000, 3]));
    let read = user::sys_read(0, 0x14000, 8);
    assert_eq!((read.id, read.args), (63, [0, 0x14000, 8]));
    let exit = user::sys_exit(-5);
    assert_eq!((exit.id, exit.args), (93, [usize::MAX - 4, 0, 0]));
    assert_eq!(low_i32(exit.args[0]), -5);
    let yielded = user::sys_yield();
    assert_eq!((yielded.id, yielded.args), (124, [0, 0, 0]));
    let time = user::sys_get_time(0x14000, 0);
    assert_eq!((time.id, time.args), (169, [0x14000, 0, 0]));
    let info = user::sys_task_info(0x15000);
    assert_eq!((info.id, info.args), (410, [0x15000, 0, 0]));
    let raw = user::syscall(172, [1, 2, 3]);
    assert_eq!((raw.id, raw.args), (172, [1, 2, 3]));
    for request in [write, read, exit, yielded, time, info, raw] {
        assert!(supported(request.id));
    }
}

#[test]
fn a_request_of_a_task_is_served_as_asked() {
    let mut kernel = boot(0x80);
    assert_eq!(sys_fork(&mut kernel), 1);
    switch_to(&mut kernel, 1);
    let request = user::sys_exit(-9);
    let cx = &mut task_mut(&mut kernel, 1).trap_cx;
    cx.x[REG_A7] = request.id;
    cx.x[REG_A0] = request.args[0];
    cx.x[REG_A1] = request.args[1];
    cx.x[REG_A2] = request.args[2];
    assert!(matches!(trap_handler(&mut kernel, 8), TrapOutcome::Syscall(SyscallResult::Exited(Some(0)))));
    assert_eq!(task(&kernel, 1).exit_code, -9);
}
