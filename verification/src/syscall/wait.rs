//! Waiting for a child: the parent collects the exit code of a zombie, and
//! the zombie is gone.

use vstd::prelude::*;
use crate::mm::translated::{le_bytes, spec_i32_bits, spec_user_write, to_le_bytes, i32_bits,
    touched, user_write};
use crate::config::PAGE_SIZE;
use crate::task::kernel::{Kernel, IDLE_PID};
use crate::task::manager::holds;
use crate::task::task::{TaskControlBlock, TaskStatus};

verus! {

/// The call asks for the child `child`: for it by its process id, or for
/// any child.
pub open spec fn wanted(pid: isize, child: usize) -> bool {
    pid == -1 || pid == child
}

/// The call asks for one of the children.
pub open spec fn any_wanted(kids: Seq<usize>, pid: isize) -> bool {
    exists|i: int| 0 <= i < kids.len() && wanted(pid, #[trigger] kids[i])
}

/// The child at `index` is asked for and is a zombie.
pub open spec fn collectable(kernel: &Kernel, kids: Seq<usize>, pid: isize, index: int) -> bool {
    &&& 0 <= index < kids.len()
    &&& wanted(pid, kids[index])
    &&& kernel.has_status(kids[index], TaskStatus::Zombie)
}

/// The child at `index` is the first that is asked for and is a zombie.
pub open spec fn first_collectable(kernel: &Kernel, kids: Seq<usize>, pid: isize, index: int) -> bool {
    &&& collectable(kernel, kids, pid, index)
    &&& forall|j: int| 0 <= j < index ==> !collectable(kernel, kids, pid, j)
}

/// No child that is asked for is a zombie.
pub open spec fn none_collectable(kernel: &Kernel, kids: Seq<usize>, pid: isize) -> bool {
    forall|j: int| 0 <= j < kids.len() ==> !collectable(kernel, kids, pid, j)
}

/// The state is `old` after the running task collected its child at
/// `index` and had the exit code written at `ptr`: the child is gone and its
/// process id free, the running task has lost it from its children and
/// holds the four bytes of the exit code at `ptr`, and all else is as it
/// was.
pub open spec fn collected(new: &Kernel, old: &Kernel, index: int, ptr: usize) -> bool {
    let pid = old.current();
    let child = old.task(pid).children@[index];
    let code = old.task(child).exit_code;
    let task = new.task(pid);
    let before = old.task(pid);
    &&& new.tasks@.len() == old.tasks@.len()
    &&& new.tasks@[child as int] is None
    &&& forall|p: usize|
        p < new.tasks@.len() && p != pid && p != child ==> #[trigger] new.tasks@[p as int]
            == old.tasks@[p as int]
    &&& new.alive(pid)
    &&& task == (TaskControlBlock { children: task.children, memory_set: task.memory_set, ..before })
    &&& task.children@ == before.children@.remove(index)
    &&& task.memory_set.layout() == before.memory_set.layout()
    &&& task.memory_set.mapping() == before.memory_set.mapping()
    &&& task.memory_set.bytes_at(ptr, 4) == le_bytes(spec_i32_bits(code) as nat, 4)
    &&& forall|vpn: usize, offset: int|
        0 <= offset < PAGE_SIZE && !touched(ptr, 4, vpn, offset) ==> (#[trigger] task.memory_set.page_data(
            vpn,
        )[offset]) == before.memory_set.page_data(vpn)[offset]
    &&& new.manager == old.manager
    &&& new.processor == old.processor
    &&& new.frames == old.frames
    &&& new.apps == old.apps
    &&& new.platform == old.platform
    &&& new.time_us == old.time_us
}

/// Index of the first child of the running task that the call asks for and
/// that is a zombie, and whether the call asks for any child at all.
fn find_zombie(kernel: &Kernel, pid: isize) -> (found: (bool, Option<usize>))
    requires
        kernel.serving(),
    ensures
        found.0 == any_wanted(kernel.task(kernel.current()).children@, pid),
        match found.1 {
            Some(index) => first_collectable(
                kernel,
                kernel.task(kernel.current()).children@,
                pid,
                index as int,
            ),
            None => none_collectable(kernel, kernel.task(kernel.current()).children@, pid),
        },
{
    let current = kernel.processor.current.unwrap();
    proof {
        assert(kernel.alive(current));
    }
    let task = match &kernel.tasks[current] {
        Some(task) => task,
        None => {
            return (false, None);
        },
    };
    let ghost kids = task.children@;
    let n = task.children.len();
    let mut any = false;
    let mut i: usize = 0;
    while i < n
        invariant
            kernel.serving(),
            kernel.alive(current),
            kernel.current() == current,
            kids == kernel.task(current).children@,
            kids == task.children@,
            n == kids.len(),
            i <= n,
            any == any_wanted(kids.subrange(0, i as int), pid),
            forall|j: int| 0 <= j < i ==> !collectable(kernel, kids, pid, j),
        decreases n - i,
    {
        let child = task.children[i];
        proof {
            assert(kernel.alive(child));
            let done = kids.subrange(0, i as int);
            let more = kids.subrange(0, i + 1);
            assert(more[i as int] == child);
            if any_wanted(done, pid) {
                let j = choose|j: int| 0 <= j < done.len() && wanted(pid, #[trigger] done[j]);
                assert(wanted(pid, more[j]));
            }
            if any_wanted(more, pid) && !wanted(pid, child) {
                let j = choose|j: int| 0 <= j < more.len() && wanted(pid, #[trigger] more[j]);
                assert(wanted(pid, done[j]));
            }
        }
        if pid == -1 || (pid >= 0 && pid as usize == child) {
            any = true;
            let zombie = match &kernel.tasks[child] {
                Some(kid) => kid.is_zombie(),
                None => false,
            };
            if zombie {
                proof {
                    assert(kids[i as int] == child);
                    assert(wanted(pid, kids[i as int]));
                    assert(kernel.has_status(child, TaskStatus::Zombie));
                    assert(collectable(kernel, kids, pid, i as int));
                    assert(kernel.current() == current);
                    assert(any_wanted(kids, pid));
                    assert(first_collectable(kernel, kids, pid, i as int));
                }
                return (true, Some(i));
            }
        }
        i += 1;
    }
    proof {
        assert(kids.subrange(0, n as int) =~= kids);
    }
    (any, None)
}

/// Where the running task collected a zombie child, the kernel is still
/// well formed and settled.
proof fn lemma_collected(new: &Kernel, old: &Kernel, index: int, ptr: usize)
    requires
        old.serving(),
        0 <= index < old.task(old.current()).children@.len(),
        old.has_status(old.task(old.current()).children@[index], TaskStatus::Zombie),
        collected(new, old, index, ptr),
        new.task(old.current()).memory_set.wf(),
        new.task(old.current()).memory_set.frames() == old.task(old.current()).memory_set.frames(),
        new.task(old.current()).memory_set.trampoline_frame() == old.task(
            old.current(),
        ).memory_set.trampoline_frame(),
    ensures
        new.wf(),
        new.settled(),
{
    let pid = old.current();
    let kids = old.task(pid).children@;
    let child = kids[index];
    assert(old.alive(pid));
    assert(old.alive(child));
    assert(old.task(child).parent == Some(pid));
    assert(child != pid);
    assert(child != IDLE_PID);
    assert(old.task(child).wf());
    assert forall|p: usize| new.alive(p) <==> old.alive(p) && p != child by {
        if p < new.tasks@.len() && p != pid && p != child {
            assert(new.tasks@[p as int] == old.tasks@[p as int]);
        }
    }
    assert forall|p: usize| new.alive(p) && p != pid implies new.task(p) == old.task(p) by {
        assert(new.tasks@[p as int] == old.tasks@[p as int]);
    }
    assert(new.tasks_wf()) by {
        assert forall|p: usize| #[trigger] new.alive(p) implies new.task(p).wf() && new.task(p).pid == p
            && new.task(p).task_status != TaskStatus::UnInit && new.task(
            p,
        ).memory_set.trampoline_frame() == new.platform.trampoline by {
            assert(old.alive(p));
            if p == pid {
                assert(old.task(pid).wf());
                assert(old.has_status(pid, TaskStatus::Running));
            }
        }
    }
    assert(new.memory_wf()) by {
        assert forall|p: usize| #[trigger] new.alive(p) implies new.task(p).memory_set.owned_under(
            &new.frames,
        ) by {
            assert(old.alive(p));
        }
        assert forall|p: usize, q: usize|
            #![trigger new.alive(p), new.alive(q)]
            new.alive(p) && new.alive(q) && p != q implies new.task(p).memory_set.frames().disjoint(
            new.task(q).memory_set.frames(),
        ) by {
            assert(old.alive(p) && old.alive(q));
        }
    }
    let left = kids.remove(index);
    assert forall|p: usize| left.contains(p) <==> kids.contains(p) && p != child by {
        if left.contains(p) {
            let j = choose|j: int| 0 <= j < left.len() && left[j] == p;
            if j < index {
                assert(kids[j] == p);
            } else {
                assert(kids[j + 1] == p);
            }
        }
        if kids.contains(p) && p != child {
            let j = choose|j: int| 0 <= j < kids.len() && kids[j] == p;
            if j < index {
                assert(left[j] == p);
            } else {
                assert(left[j - 1] == p);
            }
        }
    }
    assert(new.family_wf()) by {
        assert(old.alive(IDLE_PID));
        assert forall|p: usize| #[trigger] new.alive(p) implies (p == IDLE_PID <==> new.task(p).parent
            is None) && new.task(p).parent != Some(p) by {
            assert(old.alive(p));
        }
        assert forall|p: usize| #[trigger]
            new.alive(p) && new.task(p).parent is Some implies new.alive(new.task(p).parent->0)
            && new.task(new.task(p).parent->0).children@.contains(p) by {
            assert(old.alive(p));
            let parent = old.task(p).parent->0;
            assert(old.alive(parent));
            if parent == child {
                assert(old.task(child).children@.contains(p));
            }
        }
        assert forall|p: usize, i: int|
            new.alive(p) && 0 <= i < new.task(p).children@.len() implies new.alive(
            #[trigger] new.task(p).children@[i],
        ) && new.task(new.task(p).children@[i]).parent == Some(p) by {
            assert(old.alive(p));
            if p == pid {
                let k = if i < index { i } else { i + 1 };
                assert(left[i] == kids[k]);
                assert(old.alive(kids[k]));
            } else {
                let kid = old.task(p).children@[i];
                assert(old.alive(kid));
                assert(old.task(kid).parent == Some(p));
            }
        }
        assert forall|p: usize| #[trigger] new.alive(p) implies new.task(p).children@.no_duplicates() by {
            assert(old.alive(p));
            if p == pid {
                assert forall|i: int, j: int|
                    0 <= i < left.len() && 0 <= j < left.len() && i != j implies left[i] != left[j] by {
                    let ki = if i < index { i } else { i + 1 };
                    let kj = if j < index { j } else { j + 1 };
                    assert(kids[ki] != kids[kj]);
                }
            }
        }
    }
    assert forall|p: usize, status: TaskStatus|
        p != child implies new.has_status(p, status) == old.has_status(p, status) by {}
    assert(new.sched_wf()) by {
        assert forall|p: usize| #[trigger] holds(new.manager@, p) implies new.has_status(
            p,
            TaskStatus::Ready,
        ) by {
            assert(old.has_status(p, TaskStatus::Ready));
        }
        new.lemma_one_running(old, 0);
    }
    assert(new.settled()) by {
        assert forall|p: usize| #[trigger] new.has_status(p, TaskStatus::Ready) implies holds(
            new.manager@,
            p,
        ) by {
            assert(old.has_status(p, TaskStatus::Ready));
        }
        assert forall|p: usize| #[trigger]
            new.has_status(p, TaskStatus::Running) implies new.processor.current == Some(p) by {
            assert(old.has_status(p, TaskStatus::Running));
        }
    }
}

/// What the call to wait for a child makes of the kernel and returns.
pub open spec fn sys_waitpid_post(new: &Kernel, old: &Kernel, pid: isize, exit_code_ptr: usize,
    ret: isize) -> bool {
    &&& new.serving()
    &&& ({
        let task = old.task(old.current());
        let kids = task.children@;
        if !any_wanted(kids, pid) {
            ret == -1 && new.unchanged(old)
        } else if none_collectable(old, kids, pid) {
            ret == -2 && new.unchanged(old)
        } else if !task.memory_set.accessible(exit_code_ptr, 4, spec_user_write()) {
            ret == -1 && new.unchanged(old)
        } else {
            exists|index: int|
                first_collectable(old, kids, pid, index) && ret == #[trigger] kids[index]
                    && collected(new, old, index, exit_code_ptr)
        }
    })
}

/// Waits for a child of the running task: for the child `pid`, or for any
/// child where `pid` is -1. Returns -1 where the task has no such child, -2
/// where no such child is a zombie, and -1 where the task may not write the
/// four bytes at `exit_code_ptr`; nothing has changed then. Else the first
/// such zombie among the children is collected: its exit code is written at
/// `exit_code_ptr`, the zombie is gone, and its process id is returned.
pub fn sys_waitpid(kernel: &mut Kernel, pid: isize, exit_code_ptr: usize) -> (ret: isize)
    requires
        old(kernel).serving(),
    ensures
        sys_waitpid_post(final(kernel), old(kernel), pid, exit_code_ptr, ret),
{
    let current = kernel.processor.current.unwrap();
    proof {
        assert(kernel.alive(current));
        assert(kernel.task(current).wf());
    }
    let (any, found) = find_zombie(kernel, pid);
    if !any {
        proof {
            kernel.lemma_unchanged(old(kernel));
        }
        return -1;
    }
    let index = match found {
        Some(index) => index,
        None => {
            proof {
                kernel.lemma_unchanged(old(kernel));
            }
            return -2;
        },
    };
    let allowed = match &kernel.tasks[current] {
        Some(task) => task.memory_set.can_access(exit_code_ptr, 4, user_write()),
        None => false,
    };
    if !allowed {
        proof {
            kernel.lemma_unchanged(old(kernel));
            assert(collectable(old(kernel), old(kernel).task(current).children@, pid, index as int));
        }
        return -1;
    }
    let ghost kids = old(kernel).task(current).children@;
    let child = match &mut kernel.tasks[current] {
        Some(task) => task.children.remove(index),
        None => 0,
    };
    proof {
        assert(child == kids[index as int]);
        assert(old(kernel).alive(child));
        assert(old(kernel).task(child).parent == Some(current));
        assert(child != current);
    }
    let code = match &kernel.tasks[child] {
        Some(kid) => kid.exit_code,
        None => 0,
    };
    kernel.tasks[child] = None;
    let bytes = to_le_bytes(i32_bits(code) as u64, 4);
    let ghost removed = *kernel;
    let done = match &mut kernel.tasks[current] {
        Some(task) => task.memory_set.write_bytes(exit_code_ptr, &bytes),
        None => false,
    };
    proof {
        assert(removed.alive(current));
        assert(removed.task(current).memory_set == old(kernel).task(current).memory_set);
        assert(done);
        assert(collected(kernel, old(kernel), index as int, exit_code_ptr));
        lemma_collected(kernel, old(kernel), index as int, exit_code_ptr);
        assert(child < crate::config::MAX_TASKS);
    }
    child as isize
}

} // verus!
