//! The system calls on processes and their memory.

use vstd::prelude::*;
use crate::config::{MAX_SYSCALL_NUM, PAGE_SIZE};
use crate::mm::address::{PhysAddr, VirtAddr};
use crate::mm::lifecycle::{area_at, total_pages};
use crate::mm::memory_set::{zero_page, AreaView};
use crate::mm::mmap::{drop_inside, end_page, first_page, port_ok, spec_page_range, spec_port_permission};
use crate::mm::page_table::MapPermission;
use crate::task::kernel::{Kernel, IDLE_PID};
use crate::task::manager::{dequeue, enqueue, spec_pass_of};
use crate::task::task::{page_ceil, TaskControlBlock, TaskStatus};
use crate::task::{exit_current_and_run_next, suspend_current_and_run_next};
use crate::task::kernel::{with_status, with_stride};

verus! {

/// A time as seconds and microseconds.
#[derive(Clone, Copy, Debug, PartialEq, Eq, Structural)]
pub struct TimeVal {
    /// Whole seconds.
    pub sec: usize,
    /// Microseconds above the whole seconds.
    pub usec: usize,
}

/// What a task can learn of itself.
#[derive(Clone, Copy, Debug)]
pub struct TaskInfo {
    /// Where the task stands in its life.
    pub status: TaskStatus,
    /// How often the task made each system call.
    pub syscall_times: [u32; MAX_SYSCALL_NUM],
    /// Milliseconds since the task was set up.
    pub time: usize,
}

/// No permission: what a walk needs that only asks where a page lies.
pub open spec fn spec_no_permission() -> MapPermission {
    MapPermission { r: false, w: false, x: false, u: false }
}

/// The physical address behind the virtual address `va` of the running
/// task, or `None` where its page is unmapped.
pub fn va_to_pa(kernel: &Kernel, va: VirtAddr) -> (pa: Option<PhysAddr>)
    requires
        kernel.serving(),
    ensures
        pa == kernel.task(kernel.current()).memory_set.spec_translate_va(va, spec_no_permission()),
{
    let pid = kernel.processor.current.unwrap();
    match &kernel.tasks[pid] {
        Some(task) => task.memory_set.translate_va(
            va,
            MapPermission { r: false, w: false, x: false, u: false },
        ),
        None => None,
    }
}

/// What the exit of the running task with the exit code `xstate` makes of
/// the kernel, with `next` the task that runs next.
pub open spec fn sys_exit_post(new: &Kernel, old: &Kernel, xstate: i32, next: Option<usize>) -> bool {
    &&& new.wf()
    &&& new.settled()
    &&& new.processor.current == next
    &&& match next {
        Some(pid) => {
            &&& old.manager@.len() > 0
            &&& pid == old.manager@[0].pid
            &&& new.manager@ == dequeue(old.manager@)
            &&& new.exited(
                old,
                old.current(),
                xstate,
                next,
                old.manager@[0].pass,
            )
        },
        None => {
            &&& old.manager@.len() == 0
            &&& new.manager == old.manager
            &&& new.exited(old, old.current(), xstate, None, 0)
        },
    }
}

/// The running task exits with the exit code `xstate`; the task that has
/// run least runs next. Returns its process id, or `None` where the hart is
/// left idle.
pub fn sys_exit(kernel: &mut Kernel, xstate: i32) -> (next: Option<usize>)
    requires
        old(kernel).serving(),
        old(kernel).current() != IDLE_PID,
    ensures
        sys_exit_post(final(kernel), old(kernel), xstate, next),
{
    exit_current_and_run_next(kernel, xstate)
}

/// What a yield of the running task makes of the kernel and returns.
pub open spec fn sys_yield_post(new: &Kernel, old: &Kernel, ret: isize) -> bool {
    &&& ret == 0
    &&& new.serving()
    &&& ({
        let pid = old.current();
        let readied = with_status(old.tasks@, pid, TaskStatus::Ready);
        let queue = enqueue(old.manager@, old.task(pid).spec_ready_entry());
        let next = queue[0].pid;
        &&& new.manager@ == dequeue(queue)
        &&& new.tasks@ == with_status(
            with_stride(readied, next, queue[0].pass),
            next,
            TaskStatus::Running,
        )
        &&& new.processor.current == Some(next)
    })
    &&& new.processor.idle_task_cx == old.processor.idle_task_cx
    &&& new.frames == old.frames
    &&& new.apps == old.apps
    &&& new.platform == old.platform
    &&& new.time_us == old.time_us
}

/// The running task gives the hart up: it goes back into the ready queue
/// and the task that has run least runs next. Returns 0.
pub fn sys_yield(kernel: &mut Kernel) -> (ret: isize)
    requires
        old(kernel).serving(),
    ensures
        sys_yield_post(final(kernel), old(kernel), ret),
{
    let _ = suspend_current_and_run_next(kernel);
    0
}

/// What the call for the process id returns.
pub open spec fn sys_getpid_post(kernel: &Kernel, ret: isize) -> bool {
    &&& ret == kernel.current()
}

/// The process id of the running task.
pub fn sys_getpid(kernel: &Kernel) -> (ret: isize)
    requires
        kernel.serving(),
    ensures
        sys_getpid_post(kernel, ret),
{
    let pid = kernel.processor.current.unwrap();
    proof {
        assert(kernel.alive(pid));
    }
    pid as isize
}

/// The running task's address space changed, and the allocator with it:
/// every page that the address space gained took a frame from the
/// allocator, and every page that it lost gave one back. All else is as it
/// was.
pub open spec fn memory_changed(new: &Kernel, old: &Kernel) -> bool {
    let pid = old.current();
    &&& new.same_but_task(old, pid)
    &&& new.task(pid) == (TaskControlBlock { memory_set: new.task(pid).memory_set, ..old.task(pid) })
    &&& new.task(pid).memory_set.trampoline_frame() == old.task(pid).memory_set.trampoline_frame()
    &&& new.frames.available() + total_pages(new.task(pid).memory_set.layout())
        == old.frames.available() + total_pages(old.task(pid).memory_set.layout())
}

/// What the call to map memory makes of the kernel and returns.
pub open spec fn sys_mmap_post(new: &Kernel, old: &Kernel, start: usize, len: usize, port: usize,
    ret: isize) -> bool {
    &&& new.serving()
    &&& ret == 0 || ret == -1
    &&& ret == 0 <==> spec_page_range(start, len) && port_ok(port) && old.task(
        old.current(),
    ).memory_set.range_free(first_page(start), end_page(start, len)) && old.frames.available() >=
        len / PAGE_SIZE
    &&& ret == -1 ==> new.unchanged(old)
    &&& ret == 0 ==> {
        let space = new.task(old.current()).memory_set;
        let before = old.task(old.current()).memory_set;
        &&& memory_changed(new, old)
        &&& space.layout() == before.layout().push(
            AreaView {
                start: first_page(start),
                end: end_page(start, len),
                perm: spec_port_permission(port),
            },
        )
        &&& forall|vpn: usize|
            space.page_data(vpn) == if first_page(start) <= vpn < end_page(start, len) {
                zero_page()
            } else {
                before.page_data(vpn)
            }
        &&& new.frames.available() == old.frames.available() - len / PAGE_SIZE
    }
}

/// Maps `len` bytes of fresh, zeroed memory at `start` into the address
/// space of the running task, with the permission that `port` asks for.
/// Returns 0, or -1, and nothing changed, where the range is not one of
/// whole pages, `port` asks for nothing or for more than reading, writing
/// and executing, a page of the range is mapped already, or the allocator
/// has too few frames.
pub fn sys_mmap(kernel: &mut Kernel, start: usize, len: usize, port: usize) -> (ret: isize)
    requires
        old(kernel).serving(),
    ensures
        sys_mmap_post(final(kernel), old(kernel), start, len, port, ret),
{
    let pid = kernel.processor.current.unwrap();
    proof {
        assert(kernel.alive(pid));
        assert(kernel.task(pid).wf());
        assert(kernel.task(pid).memory_set.owned_under(&kernel.frames));
    }
    let ret = match &mut kernel.tasks[pid] {
        Some(task) => task.memory_set.mmap(start, len, port, &mut kernel.frames),
        None => -1,
    };
    proof {
        if ret == 0 {
            assert(kernel.task(pid).task_status != TaskStatus::Zombie);
            kernel.lemma_task_memory_changed(old(kernel), pid);
        } else {
            assert(kernel.tasks@ =~= old(kernel).tasks@);
            kernel.lemma_unchanged(old(kernel));
        }
    }
    ret
}

/// What the call to unmap memory makes of the kernel and returns.
pub open spec fn sys_munmap_post(new: &Kernel, old: &Kernel, start: usize, len: usize, ret: isize) -> bool {
    &&& new.serving()
    &&& ret == 0 || ret == -1
    &&& ret == 0 <==> spec_page_range(start, len) && old.task(
        old.current(),
    ).memory_set.unmappable(first_page(start), end_page(start, len))
    &&& ret == -1 ==> new.unchanged(old)
    &&& ret == 0 ==> {
        let space = new.task(old.current()).memory_set;
        let before = old.task(old.current()).memory_set;
        &&& memory_changed(new, old)
        &&& space.layout() == drop_inside(before.layout(), first_page(start), end_page(start, len))
        &&& forall|vpn: usize|
            space.page_data(vpn) == if first_page(start) <= vpn < end_page(start, len) {
                Seq::<u8>::empty()
            } else {
                before.page_data(vpn)
            }
        &&& forall|vpn: usize|
            first_page(start) <= vpn < end_page(start, len) ==>
                !new.frames.allocated().contains(#[trigger] before.mapping()[vpn].ppn.0)
        &&& new.frames.available() >= old.frames.available()
    }
}

/// Unmaps the `len` bytes at `start` from the address space of the running
/// task and gives their frames back. Returns 0, or -1, and nothing changed,
/// where the range is not one of whole pages or is not made of whole areas
/// of the task.
pub fn sys_munmap(kernel: &mut Kernel, start: usize, len: usize) -> (ret: isize)
    requires
        old(kernel).serving(),
    ensures
        sys_munmap_post(final(kernel), old(kernel), start, len, ret),
{
    let pid = kernel.processor.current.unwrap();
    proof {
        assert(kernel.alive(pid));
        assert(kernel.task(pid).wf());
        assert(kernel.task(pid).memory_set.owned_under(&kernel.frames));
    }
    let ret = match &mut kernel.tasks[pid] {
        Some(task) => task.memory_set.munmap(start, len, &mut kernel.frames),
        None => -1,
    };
    proof {
        if ret == 0 {
            assert(old(kernel).task(pid).task_status != TaskStatus::Zombie) by {
                assert(old(kernel).has_status(pid, TaskStatus::Running));
            }
            kernel.lemma_task_memory_changed(old(kernel), pid);
        } else {
            assert(kernel.tasks@ =~= old(kernel).tasks@);
            kernel.lemma_unchanged(old(kernel));
        }
    }
    ret
}

/// What the call to move the program break makes of the kernel and returns.
pub open spec fn sys_sbrk_post(new: &Kernel, old: &Kernel, size: i32, ret: isize) -> bool {
    &&& new.serving()
    &&& ret != -1 <==> old.task(old.current()).break_movable(size, &old.frames)
        && old.task(old.current()).program_brk <= isize::MAX
    &&& ret == -1 ==> new.unchanged(old)
    &&& ret != -1 ==> {
        let task = new.task(old.current());
        let before = old.task(old.current());
        let heap = area_at(before.memory_set.layout(), before.heap_bottom / PAGE_SIZE)->0;
        &&& ret == before.program_brk
        &&& new.same_but_task(old, old.current())
        &&& task == (TaskControlBlock {
            memory_set: task.memory_set,
            program_brk: task.program_brk,
            ..before
        })
        &&& task.program_brk == before.moved_break(size)
        &&& new.frames.available() + total_pages(task.memory_set.layout())
            == old.frames.available() + total_pages(before.memory_set.layout())
        &&& task.memory_set.layout() == before.memory_set.layout().update(
            heap,
            AreaView {
                start: before.memory_set.layout()[heap].start,
                end: page_ceil(before.moved_break(size)) as usize,
                perm: before.memory_set.layout()[heap].perm,
            },
        )
    }
}

/// Moves the program break of the running task by `size` bytes and returns
/// the break as it was. Returns -1, and nothing changed, where the break
/// cannot be moved so.
pub fn sys_sbrk(kernel: &mut Kernel, size: i32) -> (ret: isize)
    requires
        old(kernel).serving(),
    ensures
        sys_sbrk_post(final(kernel), old(kernel), size, ret),
{
    let pid = kernel.processor.current.unwrap();
    proof {
        assert(kernel.alive(pid));
        assert(kernel.task(pid).wf());
        assert(kernel.task(pid).memory_set.owned_under(&kernel.frames));
    }
    let too_high = match &kernel.tasks[pid] {
        Some(task) => task.program_brk > isize::MAX as usize,
        None => true,
    };
    if too_high {
        proof {
            kernel.lemma_unchanged(old(kernel));
        }
        return -1;
    }
    let moved = match &mut kernel.tasks[pid] {
        Some(task) => task.change_program_brk(size, &mut kernel.frames),
        None => None,
    };
    match moved {
        Some(was) => {
            proof {
                kernel.lemma_task_memory_changed(old(kernel), pid);
            }
            was as isize
        },
        None => {
            proof {
                assert(kernel.tasks@ =~= old(kernel).tasks@);
                kernel.lemma_unchanged(old(kernel));
            }
            -1
        },
    }
}

/// What the call to set the priority makes of the kernel and returns.
pub open spec fn sys_set_priority_post(new: &Kernel, old: &Kernel, prio: isize, ret: isize) -> bool {
    &&& new.serving()
    &&& prio >= 2 ==> ret == prio && new.same_but_task(old, old.current())
        && new.frames == old.frames && new.task(old.current())
        == (TaskControlBlock {
        priority: prio as usize,
        pass: spec_pass_of(prio as usize),
        ..old.task(old.current())
    })
    &&& prio < 2 ==> ret == -1 && new.unchanged(old)
}

/// Sets the priority of the running task. Returns the priority, or -1, and
/// nothing changed, where `prio` is less than 2.
pub fn sys_set_priority(kernel: &mut Kernel, prio: isize) -> (ret: isize)
    requires
        old(kernel).serving(),
    ensures
        sys_set_priority_post(final(kernel), old(kernel), prio, ret),
{
    let pid = kernel.processor.current.unwrap();
    proof {
        assert(kernel.alive(pid));
        assert(kernel.task(pid).wf());
    }
    if prio < 2 {
        proof {
            kernel.lemma_unchanged(old(kernel));
        }
        return -1;
    }
    let ret = match &mut kernel.tasks[pid] {
        Some(task) => task.set_priority(prio),
        None => -1,
    };
    proof {
        kernel.lemma_task_kept(old(kernel), pid);
    }
    ret
}

} // verus!
