//! Laws of the kernel: what follows, for every state, from the contracts of
//! its operations.

use vstd::prelude::*;
use crate::mm::memory_set::AreaView;
use crate::mm::mmap::{end_page, first_page, inside, lemma_round_trip, served, spec_port_permission};
use crate::mm::translated::{le_bytes, spec_i32_bits, spec_user_write};
use crate::syscall::process::{sys_exit_post, sys_mmap_post, sys_munmap_post, sys_sbrk_post};
use crate::config::PAGE_SIZE;
use crate::mm::lifecycle::total_pages;
use crate::mm::mmap::{port_ok, spec_page_range};
use crate::syscall::spawn::{app_image, requested_app, sys_exec_post, sys_fork_post};
use crate::syscall::{spec_supported, SyscallResult};
use crate::syscall::wait::{any_wanted, collectable, first_collectable, none_collectable,
    sys_waitpid_post, wanted};
use crate::task::kernel::{Kernel, IDLE_PID};
use crate::task::manager::{holds, lemma_dequeue_keeps_order};
use crate::task::task::TaskStatus;
use crate::trap::{spec_can_handle, spec_is_fault, spec_trap_cause, trap_handler_post, TrapOutcome,
    FAULT_EXIT_CODE};

verus! {

/// Independence of address spaces, first part. A fork gives the child an
/// address space of its own: the child is another task than its parent, its
/// areas are those of the parent, its frames are none of the parent's, and
/// the address space of the parent is as it was.
pub proof fn lemma_fork_gives_own_space(new: &Kernel, old: &Kernel, child: isize)
    requires
        old.serving(),
        sys_fork_post(new, old, child),
        child != -1,
    ensures
        child != old.current(),
        new.alive(child as usize),
        new.alive(old.current()),
        new.task(child as usize).memory_set.layout() == old.task(old.current()).memory_set.layout(),
        new.task(old.current()).memory_set == old.task(old.current()).memory_set,
        new.task(child as usize).memory_set.frames().disjoint(
            new.task(old.current()).memory_set.frames(),
        ),
{
    let parent = old.current();
    assert(old.alive(parent));
    assert(old.task(parent).memory_set.owned_under(&old.frames));
}

/// Independence of address spaces, second part. Whatever the running task
/// maps into its address space, no other task is touched: the areas of
/// every other task are as they were. So neither a parent nor a child sees
/// what the other maps.
pub proof fn lemma_mmap_touches_one_space(
    new: &Kernel,
    old: &Kernel,
    start: usize,
    len: usize,
    port: usize,
    ret: isize,
    other: usize,
)
    requires
        old.serving(),
        sys_mmap_post(new, old, start, len, port, ret),
        old.alive(other),
        other != old.current(),
    ensures
        new.alive(other),
        new.task(other) == old.task(other),
{
    if ret == 0 {
        assert(new.tasks@[other as int] == old.tasks@[other as int]);
    }
}

/// Independence of address spaces, third part. Whatever the running task
/// unmaps from its address space, no other task is touched.
pub proof fn lemma_munmap_touches_one_space(
    new: &Kernel,
    old: &Kernel,
    start: usize,
    len: usize,
    ret: isize,
    other: usize,
)
    requires
        old.serving(),
        sys_munmap_post(new, old, start, len, ret),
        old.alive(other),
        other != old.current(),
    ensures
        new.alive(other),
        new.task(other) == old.task(other),
{
    if ret == 0 {
        assert(new.tasks@[other as int] == old.tasks@[other as int]);
    }
}

/// Independence of address spaces, fourth part. Wherever the running task
/// moves its program break, no other task is touched.
pub proof fn lemma_sbrk_touches_one_space(new: &Kernel, old: &Kernel, size: i32, ret: isize, other: usize)
    requires
        old.serving(),
        sys_sbrk_post(new, old, size, ret),
        old.alive(other),
        other != old.current(),
    ensures
        new.alive(other),
        new.task(other) == old.task(other),
{
    if ret != -1 {
        assert(new.tasks@[other as int] == old.tasks@[other as int]);
    }
}

/// Independence of address spaces, fifth part. Whatever program the running
/// task takes up in place of its own, no other task is touched.
pub proof fn lemma_exec_touches_one_space(new: &Kernel, old: &Kernel, path: usize, ret: isize, other: usize)
    requires
        old.serving(),
        sys_exec_post(new, old, path, ret),
        old.alive(other),
        other != old.current(),
    ensures
        new.alive(other),
        new.task(other) == old.task(other),
{
    if ret == 0 {
        assert(new.tasks@[other as int] == old.tasks@[other as int]);
    }
}

/// The two tasks of a fork, one on the hart and the other as the fork left
/// its address space.
pub open spec fn forked_pair(
    before: &Kernel,
    forked: &Kernel,
    at_call: &Kernel,
    child: isize,
    other: usize,
) -> bool {
    &&& before.serving()
    &&& sys_fork_post(forked, before, child)
    &&& child != -1
    &&& at_call.serving()
    &&& {
        ||| at_call.current() == child && other == before.current()
        ||| at_call.current() == before.current() && other == child
    }
    &&& at_call.alive(other)
    &&& at_call.task(other).memory_set == forked.task(other).memory_set
}

/// Fork, then a mapping. One of the two tasks of a fork, parent or child,
/// maps a range of whole pages that is free in its address space, with a
/// frame at hand for each page. The call returns 0 and the range is mapped
/// in the address space of the caller alone: the other task is as it was,
/// with the areas that the parent had at the fork, so that no page that it
/// could not translate can be translated now.
pub proof fn lemma_mmap_after_fork(
    before: &Kernel,
    forked: &Kernel,
    at_call: &Kernel,
    after: &Kernel,
    child: isize,
    other: usize,
    start: usize,
    len: usize,
    port: usize,
    ret: isize,
)
    requires
        forked_pair(before, forked, at_call, child, other),
        spec_page_range(start, len),
        port_ok(port),
        at_call.task(at_call.current()).memory_set.range_free(first_page(start), end_page(start, len)),
        at_call.frames.available() >= len / PAGE_SIZE,
        sys_mmap_post(after, at_call, start, len, port, ret),
    ensures
        ret == 0,
        after.alive(other),
        after.task(other) == at_call.task(other),
        after.task(other).memory_set.layout() == before.task(before.current()).memory_set.layout(),
        forall|vpn: usize|
            first_page(start) <= vpn < end_page(start, len) ==> #[trigger] after.task(
                at_call.current(),
            ).memory_set.mapping().contains_key(vpn),
{
    let caller = at_call.current();
    assert(before.alive(before.current()));
    assert(at_call.alive(caller));
    assert(other != caller);
    assert(after.tasks@[other as int] == at_call.tasks@[other as int]);
    assert(after.alive(caller));
    let space = after.task(caller).memory_set;
    let layout = at_call.task(caller).memory_set.layout();
    assert forall|vpn: usize| first_page(start) <= vpn < end_page(start, len) implies #[trigger]
        space.mapping().contains_key(
        vpn,
    ) by {
        assert(space.layout()[layout.len() as int].covers(vpn));
        space.lemma_mapping(vpn);
    }
}

/// Fork, then another program. One of the two tasks of a fork takes up a
/// program that has a valid image, with a frame at hand for each of its
/// pages. The call returns 0, and the other task is as it was: it has its
/// process id and the areas that the parent had at the fork.
pub proof fn lemma_exec_after_fork(
    before: &Kernel,
    forked: &Kernel,
    at_call: &Kernel,
    after: &Kernel,
    child: isize,
    other: usize,
    path: usize,
    ret: isize,
)
    requires
        forked_pair(before, forked, at_call, child, other),
        requested_app(at_call, path) is Some,
        app_image(at_call, requested_app(at_call, path)->0).valid(),
        total_pages(app_image(at_call, requested_app(at_call, path)->0).layout())
            <= at_call.frames.available(),
        sys_exec_post(after, at_call, path, ret),
    ensures
        ret == 0,
        after.alive(other),
        after.task(other) == at_call.task(other),
        after.task(other).pid == other,
        after.task(other).memory_set.layout() == before.task(before.current()).memory_set.layout(),
{
    let caller = at_call.current();
    assert(before.alive(before.current()));
    assert(at_call.alive(caller));
    assert(other != caller);
    assert(after.tasks@[other as int] == at_call.tasks@[other as int]);
}

/// An unknown system call fails and does nothing. Whatever number a task
/// asks for that is the number of no system call, the call returns -1 and
/// the kernel is as it was.
pub proof fn lemma_unknown_call_fails(
    new: &Kernel,
    old: &Kernel,
    counted: &Kernel,
    syscall_id: usize,
    args: [usize; 3],
    result: SyscallResult,
)
    requires
        !spec_supported(syscall_id),
        crate::syscall::served(new, old, counted, syscall_id, args, result),
    ensures
        result matches SyscallResult::Done(ret) && ret == -1,
        new.unchanged(old),
{
}

/// Waiting without children. A task without children that waits, for any
/// child or for one, gets -1.
pub proof fn lemma_wait_without_children(new: &Kernel, old: &Kernel, pid: isize, ptr: usize, ret: isize)
    requires
        old.serving(),
        old.task(old.current()).children@.len() == 0,
        sys_waitpid_post(new, old, pid, ptr, ret),
    ensures
        ret == -1,
        new.unchanged(old),
{
}

/// Waiting for a child that has not exited. A task that waits for a child
/// of its own that is no zombie gets -2, and nothing has changed.
pub proof fn lemma_wait_for_live_child(new: &Kernel, old: &Kernel, child: usize, ptr: usize, ret: isize)
    requires
        old.serving(),
        old.task(old.current()).children@.contains(child),
        !old.has_status(child, TaskStatus::Zombie),
        child <= isize::MAX,
        sys_waitpid_post(new, old, child as isize, ptr, ret),
    ensures
        ret == -2,
        new.unchanged(old),
{
    let kids = old.task(old.current()).children@;
    let i = choose|i: int| 0 <= i < kids.len() && kids[i] == child;
    assert(wanted(child as isize, kids[i]));
    assert(any_wanted(kids, child as isize));
    assert(none_collectable(old, kids, child as isize)) by {
        assert forall|j: int| 0 <= j < kids.len() implies !#[trigger] collectable(
            old,
            kids,
            child as isize,
            j,
        ) by {}
    }
}

/// Waiting for a zombie. A task that waits for a child of its own that is a
/// zombie, with a place for the exit code that it may write, gets the
/// process id of the child; the exit code of the child stands at that
/// place, the child is gone, and the task has lost it from its children.
pub proof fn lemma_wait_for_zombie(new: &Kernel, old: &Kernel, child: usize, ptr: usize, ret: isize)
    requires
        old.serving(),
        old.task(old.current()).children@.contains(child),
        old.has_status(child, TaskStatus::Zombie),
        child <= isize::MAX,
        old.task(old.current()).memory_set.accessible(ptr, 4, spec_user_write()),
        sys_waitpid_post(new, old, child as isize, ptr, ret),
    ensures
        ret == child,
        new.task(old.current()).memory_set.bytes_at(ptr, 4) == le_bytes(
            spec_i32_bits(old.task(child).exit_code) as nat,
            4,
        ),
        !new.alive(child),
        !new.task(old.current()).children@.contains(child),
{
    let pid = old.current();
    let kids = old.task(pid).children@;
    let i = choose|i: int| 0 <= i < kids.len() && kids[i] == child;
    assert(old.alive(pid));
    assert(wanted(child as isize, kids[i]));
    assert(any_wanted(kids, child as isize));
    assert(collectable(old, kids, child as isize, i));
    assert(!none_collectable(old, kids, child as isize));
    let index = choose|index: int|
        first_collectable(old, kids, child as isize, index) && ret == #[trigger] kids[index]
            && crate::syscall::wait::collected(new, old, index, ptr);
    assert(kids[index] == child);
    let left = new.task(pid).children@;
    assert(left == kids.remove(index));
    if left.contains(child) {
        let j = choose|j: int| 0 <= j < left.len() && left[j] == child;
        let k = if j < index { j } else { j + 1 };
        assert(kids[k] == child);
        assert(kids[k] != kids[index]);
    }
}

/// Orphans go to the first task. When a task exits, whoever runs next, each
/// of its children has the first task for its parent and stands among the
/// children of the first task, and the task that exited has no children.
pub proof fn lemma_orphans_reparented(
    new: &Kernel,
    old: &Kernel,
    pid: usize,
    exit_code: i32,
    next: Option<usize>,
    stride: u64,
    i: int,
)
    requires
        old.wf(),
        old.alive(pid),
        pid != IDLE_PID,
        new.exited(old, pid, exit_code, next, stride),
        0 <= i < old.task(pid).children@.len(),
    ensures
        new.alive(old.task(pid).children@[i]),
        new.task(old.task(pid).children@[i]).parent == Some(IDLE_PID),
        new.task(IDLE_PID).children@.contains(old.task(pid).children@[i]),
        new.task(pid).children@.len() == 0,
{
    let kids = old.task(pid).children@;
    let kid = kids[i];
    assert(old.alive(kid));
    assert(old.task(kid).parent == Some(pid));
    assert(kid != pid);
    assert(old.alive(IDLE_PID));
    let first = old.task(IDLE_PID).children@;
    assert((first + kids)[first.len() + i] == kid);
}

/// Mapping and unmapping again. Where the running task has mapped a range
/// and next unmaps the same range, the unmapping succeeds and the areas of
/// its address space are those from before the mapping, in range and
/// permission.
pub proof fn lemma_mmap_munmap_round_trip(
    before: &Kernel,
    mapped: &Kernel,
    after: &Kernel,
    start: usize,
    len: usize,
    port: usize,
    ret: isize,
)
    requires
        before.serving(),
        sys_mmap_post(mapped, before, start, len, port, 0),
        sys_munmap_post(after, mapped, start, len, ret),
    ensures
        ret == 0,
        after.current() == before.current(),
        after.task(before.current()).memory_set.layout() == before.task(
            before.current(),
        ).memory_set.layout(),
{
    let pid = before.current();
    let first = first_page(start);
    let end = end_page(start, len);
    let layout = before.task(pid).memory_set.layout();
    let area = AreaView { start: first, end, perm: spec_port_permission(port) };
    let grown = mapped.task(pid).memory_set.layout();
    assert(before.alive(pid));
    assert(mapped.current() == pid);
    assert(grown == layout.push(area));
    assert(first < end) by {
        assert(len / 4096 > 0);
    }
    assert(mapped.task(pid).memory_set.unmappable(first, end)) by {
        assert forall|vpn: usize| first <= vpn < end implies #[trigger] served(grown, first, end, vpn) by {
            assert(grown[layout.len() as int].covers(vpn));
            assert(inside(grown[layout.len() as int], first, end));
        }
    }
    assert forall|i: int, vpn: usize| 0 <= i < layout.len() && first <= vpn < end implies !(
    #[trigger] layout[i].covers(vpn)) by {
        if layout[i].covers(vpn) {
            before.task(pid).memory_set.lemma_mapping(vpn);
        }
    }
    lemma_round_trip(layout, area);
}

/// No mapping over a mapped page. Where a page of the range that the
/// running task asks to map lies in an area of its address space, the call
/// returns -1 and nothing has changed: the area and the number of areas
/// are as they were.
pub proof fn lemma_mmap_overlap_rejected(
    new: &Kernel,
    old: &Kernel,
    start: usize,
    len: usize,
    port: usize,
    ret: isize,
    vpn: usize,
)
    requires
        old.serving(),
        first_page(start) <= vpn < end_page(start, len),
        old.task(old.current()).memory_set.covered(vpn),
        sys_mmap_post(new, old, start, len, port, ret),
    ensures
        ret == -1,
        new.unchanged(old),
        new.task(old.current()).memory_set.layout() == old.task(old.current()).memory_set.layout(),
{
    assert(old.alive(old.current()));
    old.task(old.current()).memory_set.lemma_mapping(vpn);
}

/// A fault ends one task alone. Where the running task faults, it becomes a
/// zombie with the exit code of a fault. A task that was ready is as it
/// was, with its address space, and the scheduler still reaches it: it
/// runs next, or it waits in the ready queue.
pub proof fn lemma_fault_isolation(
    new: &Kernel,
    old: &Kernel,
    scause: usize,
    outcome: TrapOutcome,
    sibling: usize,
)
    requires
        old.serving(),
        spec_can_handle(old, scause),
        spec_is_fault(spec_trap_cause(scause)),
        trap_handler_post(new, old, scause, outcome),
        old.has_status(sibling, TaskStatus::Ready),
    ensures
        new.has_status(old.current(), TaskStatus::Zombie),
        new.task(old.current()).exit_code == FAULT_EXIT_CODE,
        new.alive(sibling),
        new.task(sibling).memory_set == old.task(sibling).memory_set,
        new.task(sibling).trap_cx == old.task(sibling).trap_cx,
        (new.processor.current == Some(sibling) && new.has_status(sibling, TaskStatus::Running)) || (
        new.has_status(sibling, TaskStatus::Ready) && holds(new.manager@, sibling)),
{
    let pid = old.current();
    assert(old.has_status(pid, TaskStatus::Running));
    assert(sibling != pid);
    assert(holds(old.manager@, sibling));
    let next = outcome->Killed_0;
    assert(sys_exit_post(new, old, FAULT_EXIT_CODE, next));
    assert(old.alive(sibling));
    lemma_dequeue_keeps_order(old.manager@);
    if let Some(n) = next {
        if n != sibling {
            assert(holds(new.manager@, sibling));
        }
    }
}

} // verus!
