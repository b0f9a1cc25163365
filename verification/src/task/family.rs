//! New tasks: a free process id, and a place among the tasks as a child of
//! the running task.

use vstd::prelude::*;
use crate::config::MAX_TASKS;
use crate::task::kernel::{Kernel, IDLE_PID};
use crate::task::manager::{add_task, enqueue, holds};
use crate::task::task::{TaskControlBlock, TaskStatus};

verus! {

/// The process id `pid` is the lowest that no task has.
pub open spec fn is_free_pid(kernel: &Kernel, pid: usize) -> bool {
    &&& pid < MAX_TASKS
    &&& pid <= kernel.tasks@.len()
    &&& !kernel.alive(pid)
    &&& forall|j: usize| j < pid ==> #[trigger] kernel.alive(j)
}

/// Every process id is taken.
pub open spec fn no_free_pid(kernel: &Kernel) -> bool {
    &&& kernel.tasks@.len() >= MAX_TASKS
    &&& forall|j: usize| j < kernel.tasks@.len() ==> #[trigger] kernel.alive(j)
}

/// The lowest process id that no task has, if there is one.
pub fn find_free_pid(kernel: &Kernel) -> (found: Option<usize>)
    requires
        kernel.tasks@.len() <= MAX_TASKS,
    ensures
        match found {
            Some(pid) => is_free_pid(kernel, pid),
            None => no_free_pid(kernel),
        },
{
    let n = kernel.tasks.len();
    let mut pid: usize = 0;
    while pid < n
        invariant
            n == kernel.tasks@.len(),
            n <= MAX_TASKS,
            pid <= n,
            forall|j: usize| j < pid ==> #[trigger] kernel.alive(j),
        decreases n - pid,
    {
        if kernel.tasks[pid].is_none() {
            return Some(pid);
        }
        pid += 1;
    }
    if n < MAX_TASKS {
        Some(n)
    } else {
        None
    }
}

/// The state is `old` with the task `child` born as a child of the running
/// task: the task stands in the slot of its process id, which was free, the
/// running task has it for its last child, it waits in the ready queue, and
/// every other task is as it was.
pub open spec fn born(new: &Kernel, old: &Kernel, child: usize) -> bool {
    let parent = old.current();
    &&& is_free_pid(old, child)
    &&& new.tasks@.len() == if child < old.tasks@.len() {
        old.tasks@.len()
    } else {
        old.tasks@.len() + 1
    }
    &&& new.alive(child)
    &&& new.alive(parent)
    &&& new.task(child).pid == child
    &&& new.task(child).parent == Some(parent)
    &&& forall|p: usize|
        p < old.tasks@.len() && p != child && p != parent ==> #[trigger] new.tasks@[p as int]
            == old.tasks@[p as int]
    &&& new.task(parent) == (TaskControlBlock {
        children: new.task(parent).children,
        ..old.task(parent)
    })
    &&& new.task(parent).children@ == old.task(parent).children@.push(child)
    &&& new.manager@ == enqueue(old.manager@, new.task(child).spec_ready_entry())
    &&& new.processor == old.processor
    &&& new.apps == old.apps
    &&& new.platform == old.platform
    &&& new.time_us == old.time_us
}

/// Where a task was born as a child of the running task, with frames that
/// no other task has, the tasks, the memory and the families are well
/// formed.
proof fn lemma_born(new: &Kernel, old: &Kernel, child: usize)
    requires
        old.serving(),
        is_free_pid(old, child),
        new.tasks@.len() == if child < old.tasks@.len() {
            old.tasks@.len()
        } else {
            old.tasks@.len() + 1
        },
        new.alive(child),
        new.alive(old.current()),
        forall|p: usize|
            p < old.tasks@.len() && p != child && p != old.current() ==> #[trigger] new.tasks@[p as int]
                == old.tasks@[p as int],
        new.task(old.current()) == (TaskControlBlock {
            children: new.task(old.current()).children,
            ..old.task(old.current())
        }),
        new.task(old.current()).children@ == old.task(old.current()).children@.push(child),
        new.task(child).wf(),
        new.task(child).pid == child,
        new.task(child).task_status == TaskStatus::Ready,
        new.task(child).parent == Some(old.current()),
        new.task(child).children@.len() == 0,
        new.task(child).memory_set.trampoline_frame() == old.platform.trampoline,
        new.task(child).memory_set.owned_under(&new.frames),
        forall|p: usize| #[trigger]
            old.alive(p) ==> new.task(child).memory_set.frames().disjoint(
                old.task(p).memory_set.frames(),
            ),
        new.frames == old.frames,
        new.manager == old.manager,
        new.processor == old.processor,
        new.platform == old.platform,
    ensures
        new.wf(),
        new.has_status(child, TaskStatus::Ready),
        !holds(new.manager@, child),
        forall|p: usize| p != child ==> (#[trigger] new.alive(p) <==> old.alive(p)),
        forall|p: usize, status: TaskStatus|
            p != child ==> (#[trigger] new.has_status(p, status) <==> old.has_status(p, status)),
{
    let parent = old.current();
    let kids = old.task(parent).children@;
    assert(old.alive(parent));
    assert(old.alive(IDLE_PID));
    assert(child != parent && child != IDLE_PID);
    assert forall|p: usize| p != child implies (#[trigger] new.alive(p) <==> old.alive(p)) by {
        if p < old.tasks@.len() && p != parent {
            assert(new.tasks@[p as int] == old.tasks@[p as int]);
        }
    }
    assert forall|p: usize| old.alive(p) && p != parent implies new.task(p) == old.task(p) by {
        assert(new.tasks@[p as int] == old.tasks@[p as int]);
    }
    assert forall|p: usize, status: TaskStatus|
        p != child implies (#[trigger] new.has_status(p, status) <==> old.has_status(p, status)) by {
        assert(new.alive(p) <==> old.alive(p));
    }
    assert(new.tasks_wf()) by {
        assert forall|p: usize| #[trigger] new.alive(p) implies new.task(p).wf() && new.task(p).pid == p
            && new.task(p).task_status != TaskStatus::UnInit && new.task(
            p,
        ).memory_set.trampoline_frame() == new.platform.trampoline by {
            if p != child {
                assert(old.alive(p));
                if p == parent {
                    assert(old.task(parent).wf());
                    assert(old.has_status(parent, TaskStatus::Running));
                }
            }
        }
    }
    assert(new.memory_wf()) by {
        assert forall|p: usize| #[trigger] new.alive(p) implies new.task(p).memory_set.owned_under(
            &new.frames,
        ) by {
            if p != child {
                assert(old.alive(p));
            }
        }
        assert forall|p: usize, q: usize|
            #![trigger new.alive(p), new.alive(q)]
            new.alive(p) && new.alive(q) && p != q implies new.task(p).memory_set.frames().disjoint(
            new.task(q).memory_set.frames(),
        ) by {
            if p != child && q != child {
                assert(old.alive(p) && old.alive(q));
            } else if p == child {
                assert(old.alive(q));
            } else {
                assert(old.alive(p));
            }
        }
    }
    let more = kids.push(child);
    assert(!kids.contains(child)) by {
        if kids.contains(child) {
            let j = choose|j: int| 0 <= j < kids.len() && kids[j] == child;
            assert(old.alive(old.task(parent).children@[j]));
        }
    }
    assert(new.family_wf()) by {
        assert forall|p: usize| #[trigger] new.alive(p) implies (p == IDLE_PID <==> new.task(p).parent
            is None) && new.task(p).parent != Some(p) by {
            if p != child {
                assert(old.alive(p));
            }
        }
        assert forall|p: usize| #[trigger]
            new.alive(p) && new.task(p).parent is Some implies new.alive(new.task(p).parent->0)
            && new.task(new.task(p).parent->0).children@.contains(p) by {
            if p == child {
                assert(more[kids.len() as int] == child);
            } else {
                assert(old.alive(p));
                let was = old.task(p).parent->0;
                assert(old.alive(was));
                if was == parent {
                    let j = choose|j: int| 0 <= j < kids.len() && kids[j] == p;
                    assert(more[j] == p);
                }
            }
        }
        assert forall|p: usize, i: int|
            new.alive(p) && 0 <= i < new.task(p).children@.len() implies new.alive(
            #[trigger] new.task(p).children@[i],
        ) && new.task(new.task(p).children@[i]).parent == Some(p) by {
            if p == parent {
                if i < kids.len() {
                    let kid = kids[i];
                    assert(old.alive(kid));
                    assert(more[i] == kid);
                }
            } else if p != child {
                assert(old.alive(p));
                let kid = old.task(p).children@[i];
                assert(old.alive(kid));
            }
        }
        assert forall|p: usize| #[trigger] new.alive(p) implies new.task(p).children@.no_duplicates() by {
            if p == parent {
                assert forall|i: int, j: int|
                    0 <= i < more.len() && 0 <= j < more.len() && i != j implies more[i] != more[j] by {
                    if i < kids.len() && j < kids.len() {
                        assert(kids[i] != kids[j]);
                    } else if i < kids.len() {
                        assert(kids.contains(kids[i]));
                    } else {
                        assert(kids.contains(kids[j]));
                    }
                }
            } else if p != child {
                assert(old.alive(p));
            }
        }
    }
    assert(!holds(new.manager@, child)) by {
        if holds(old.manager@, child) {
            assert(old.has_status(child, TaskStatus::Ready));
        }
    }
    assert(new.sched_wf()) by {
        assert forall|p: usize| #[trigger] holds(new.manager@, p) implies new.has_status(
            p,
            TaskStatus::Ready,
        ) by {
            assert(old.has_status(p, TaskStatus::Ready));
        }
        new.lemma_one_running(old, 0);
        assert(!old.has_status(IDLE_PID, TaskStatus::Zombie));
    }
}

/// Puts the new task `task` among the tasks, as a child of the running
/// task, and into the ready queue.
pub fn install_child(kernel: &mut Kernel, task: TaskControlBlock)
    requires
        old(kernel).serving(),
        is_free_pid(old(kernel), task.pid),
        task.wf(),
        task.task_status == TaskStatus::Ready,
        task.parent == Some(old(kernel).current()),
        task.children@.len() == 0,
        task.memory_set.trampoline_frame() == old(kernel).platform.trampoline,
        task.memory_set.owned_under(&old(kernel).frames),
        forall|p: usize| #[trigger]
            old(kernel).alive(p) ==> task.memory_set.frames().disjoint(
                old(kernel).task(p).memory_set.frames(),
            ),
    ensures
        final(kernel).serving(),
        born(final(kernel), old(kernel), task.pid),
        final(kernel).task(task.pid) == task,
        final(kernel).frames == old(kernel).frames,
{
    let pid = task.pid;
    let parent = kernel.processor.current.unwrap();
    proof {
        assert(kernel.alive(parent));
    }
    if pid == kernel.tasks.len() {
        kernel.tasks.push(Some(task));
    } else {
        kernel.tasks[pid] = Some(task);
    }
    let ghost placed = *kernel;
    match &mut kernel.tasks[parent] {
        Some(first) => {
            first.children.push(pid);
        },
        None => {},
    }
    proof {
        assert(placed.alive(parent) && placed.task(parent) == old(kernel).task(parent));
        assert(kernel.tasks@.len() == placed.tasks@.len());
        assert forall|p: usize|
            p < old(kernel).tasks@.len() && p != pid && p != parent implies #[trigger]
                kernel.tasks@[p as int]
            == old(kernel).tasks@[p as int] by {
            assert(kernel.tasks@[p as int] == placed.tasks@[p as int]);
        }
        assert(kernel.task(pid) == task) by {
            assert(kernel.tasks@[pid as int] == placed.tasks@[pid as int]);
        }
        lemma_born(kernel, old(kernel), pid);
    }
    let ghost grown = *kernel;
    add_task(kernel, pid);
    proof {
        assert forall|p: usize, status: TaskStatus|
            kernel.has_status(p, status) == grown.has_status(p, status) by {}
        assert(kernel.settled()) by {
            assert forall|p: usize| #[trigger] kernel.has_status(p, TaskStatus::Ready) implies holds(
                kernel.manager@,
                p,
            ) by {
                if p != pid {
                    assert(old(kernel).has_status(p, TaskStatus::Ready));
                }
            }
            assert forall|p: usize| #[trigger]
                kernel.has_status(p, TaskStatus::Running) implies kernel.processor.current == Some(
                p,
            ) by {
                assert(p != pid);
                assert(old(kernel).has_status(p, TaskStatus::Running));
            }
        }
    }
}

} // verus!
