//! The system calls that make tasks and give them programs.

use vstd::prelude::*;
use crate::loader::{app_named, get_app_data_by_name};
use crate::mm::image::ProgramImage;
use crate::mm::lifecycle::total_pages;
use crate::task::family::{born, find_free_pid, install_child, is_free_pid, no_free_pid};
use crate::task::kernel::Kernel;
use crate::task::task::{TaskControlBlock, TaskStatus};
use crate::trap::context::REG_A0;

verus! {

/// The state is `old` after the running task forked the task `child`: the
/// child was born, a copy of its parent with 0 in the register of the
/// return value, in frames that were not handed out before.
pub open spec fn forked(new: &Kernel, old: &Kernel, child: usize) -> bool {
    let parent = old.task(old.current());
    &&& born(new, old, child)
    &&& new.task(child).wf()
    &&& new.task(child).forked_from(&parent, child, &old.platform, old.time_us / 1000, 0)
    &&& new.task(child).memory_set.frames().disjoint(old.frames.allocated())
    &&& new.frames.available() == old.frames.available() - total_pages(parent.memory_set.layout())
}

/// What the call to fork makes of the kernel and returns.
pub open spec fn sys_fork_post(new: &Kernel, old: &Kernel, ret: isize) -> bool {
    &&& new.serving()
    &&& ret == -1 <==> no_free_pid(old) || total_pages(
        old.task(old.current()).memory_set.layout(),
    ) > old.frames.available()
    &&& ret == -1 ==> new.unchanged(old)
    &&& ret != -1 ==> ret >= 0 && forked(new, old, ret as usize)
}

/// Forks the running task: a child is born that is a copy of it, with an
/// address space in frames of its own, and waits in the ready queue. The
/// child will find 0 in the register of the return value. Returns the
/// process id of the child, or -1, and nothing changed, where every process
/// id is taken or the allocator has not a frame for each page.
pub fn sys_fork(kernel: &mut Kernel) -> (ret: isize)
    requires
        old(kernel).serving(),
    ensures
        sys_fork_post(final(kernel), old(kernel), ret),
{
    let parent = kernel.processor.current.unwrap();
    proof {
        assert(kernel.alive(parent));
        assert(kernel.task(parent).wf());
        assert(kernel.has_status(parent, TaskStatus::Running));
    }
    let pid = match find_free_pid(kernel) {
        Some(pid) => pid,
        None => {
            proof {
                kernel.lemma_unchanged(old(kernel));
            }
            return -1;
        },
    };
    let now = kernel.time_us / 1000;
    let made = match &kernel.tasks[parent] {
        Some(task) => task.fork(pid, &kernel.platform, now, &mut kernel.frames),
        None => None,
    };
    let mut child = match made {
        Some(child) => child,
        None => {
            proof {
                kernel.lemma_unchanged(old(kernel));
            }
            return -1;
        },
    };
    let ghost copied = child;
    child.trap_cx.x[REG_A0] = 0;
    proof {
        assert(child.trap_cx.x@ =~= old(kernel).task(parent).trap_cx.x@.update(REG_A0 as int, 0));
        assert(old(kernel).frames.allocated().subset_of(kernel.frames.allocated())) by {
            assert forall|p: usize| old(kernel).frames.allocated().contains(p) implies
                kernel.frames.allocated().contains(
                p,
            ) by {
                assert(kernel.frames.allocated().difference(copied.memory_set.frames()).contains(p));
            }
        }
        kernel.lemma_frames_grew(old(kernel));
        assert(child.memory_set.frames().disjoint(old(kernel).frames.allocated())) by {
            assert forall|p: usize| child.memory_set.frames().contains(p) implies
                !old(kernel).frames.allocated().contains(p) by {
                if old(kernel).frames.allocated().contains(p) {
                    assert(kernel.frames.allocated().difference(copied.memory_set.frames()).contains(p));
                }
            }
        }
        assert forall|p: usize| #[trigger] kernel.alive(p) implies child.memory_set.frames().disjoint(
            kernel.task(p).memory_set.frames(),
        ) by {
            assert(old(kernel).alive(p));
            assert(old(kernel).task(p).memory_set.owned_under(&old(kernel).frames));
        }
    }
    proof {
        assert forall|j: usize| kernel.alive(j) == old(kernel).alive(j) by {}
        assert(is_free_pid(kernel, pid));
    }
    let ghost funded = *kernel;
    install_child(kernel, child);
    proof {
        assert(born(kernel, old(kernel), pid)) by {
            assert(funded.tasks@ == old(kernel).tasks@);
        }
    }
    pid as isize
}

/// Index of the app that the running task asks for by the name at `path`
/// in its memory, if it may read the name and there is such an app.
pub open spec fn requested_app(kernel: &Kernel, path: usize) -> Option<int> {
    match kernel.task(kernel.current()).memory_set.str_at(path) {
        Some(name) => app_named(kernel.apps@, name),
        None => None,
    }
}

/// Index of the app that the running task asks for by the name at `path`.
pub fn find_requested_app(kernel: &Kernel, path: usize) -> (found: Option<usize>)
    requires
        kernel.serving(),
    ensures
        match found {
            Some(index) => requested_app(kernel, path) == Some(index as int) && index
                < kernel.apps@.len(),
            None => requested_app(kernel, path) is None,
        },
{
    let current = kernel.processor.current.unwrap();
    proof {
        assert(kernel.alive(current));
        assert(kernel.task(current).wf());
    }
    let name = match &kernel.tasks[current] {
        Some(task) => task.memory_set.translated_str(path),
        None => None,
    };
    match name {
        Some(name) => get_app_data_by_name(&kernel.apps, &name),
        None => None,
    }
}

/// The image of the app at `index`.
pub open spec fn app_image(kernel: &Kernel, index: int) -> ProgramImage {
    kernel.apps@[index].image
}

/// What the call to run another program makes of the kernel and returns.
pub open spec fn sys_exec_post(new: &Kernel, old: &Kernel, path: usize, ret: isize) -> bool {
    &&& new.serving()
    &&& ret == 0 || ret == -1
    &&& ret == 0 <==> requested_app(old, path) is Some && app_image(
        old,
        requested_app(old, path)->0,
    ).valid() && total_pages(app_image(old, requested_app(old, path)->0).layout())
        <= old.frames.available()
    &&& ret == -1 ==> new.unchanged(old)
    &&& ret == 0 ==> {
        let pid = old.current();
        let task = new.task(pid);
        let before = old.task(pid);
        &&& new.same_but_task(old, pid)
        &&& task.runs(
            &app_image(old, requested_app(old, path)->0),
            &old.platform,
        )
        &&& new.frames.available() + total_pages(task.memory_set.layout())
            == old.frames.available() + total_pages(before.memory_set.layout())
        &&& task.task_cx == before.task_cx
        &&& task.same_identity(&before)
        &&& task.same_family(&before)
        &&& task.same_files(&before)
        &&& task.same_accounting(&before)
        &&& task.same_schedule(&before)
    }
}

/// Replaces the program of the running task by the app whose name stands
/// at `path` in its memory. The task keeps its process id, its family and
/// its open files. Returns 0, or -1, and nothing changed, where the task may
/// not read the name, no app has it, the image of the app is not valid, or
/// the allocator has not a frame for each page.
pub fn sys_exec(kernel: &mut Kernel, path: usize) -> (ret: isize)
    requires
        old(kernel).serving(),
    ensures
        sys_exec_post(final(kernel), old(kernel), path, ret),
{
    let current = kernel.processor.current.unwrap();
    proof {
        assert(kernel.alive(current));
        assert(kernel.task(current).wf());
        assert(kernel.has_status(current, TaskStatus::Running));
        assert(kernel.task(current).memory_set.owned_under(&kernel.frames));
    }
    let index = match find_requested_app(kernel, path) {
        Some(index) => index,
        None => {
            proof {
                kernel.lemma_unchanged(old(kernel));
            }
            return -1;
        },
    };
    let done = match &mut kernel.tasks[current] {
        Some(task) => task.exec(&kernel.apps[index].image, &kernel.platform, &mut kernel.frames),
        None => false,
    };
    if done {
        proof {
            kernel.lemma_task_memory_changed(old(kernel), current);
        }
        0
    } else {
        proof {
            assert(kernel.tasks@ =~= old(kernel).tasks@);
            kernel.lemma_unchanged(old(kernel));
        }
        -1
    }
}

/// The state is `old` after the running task spawned the task `child` to
/// run the program `image`: the child was born, set up to run the program
/// from its start, in frames that were not handed out before.
pub open spec fn spawned(new: &Kernel, old: &Kernel, child: usize, image: &ProgramImage) -> bool {
    &&& born(new, old, child)
    &&& new.task(child).wf()
    &&& new.task(child).started(image, child, Some(old.current()), &old.platform, old.time_us / 1000)
    &&& new.task(child).memory_set.frames().disjoint(old.frames.allocated())
    &&& new.frames.available() == old.frames.available() - total_pages(image.layout())
}

/// What the call to spawn a child makes of the kernel and returns.
pub open spec fn sys_spawn_post(new: &Kernel, old: &Kernel, path: usize, ret: isize) -> bool {
    &&& new.serving()
    &&& ret != -1 <==> requested_app(old, path) is Some && !no_free_pid(old)
        && app_image(old, requested_app(old, path)->0).valid() && total_pages(
        app_image(old, requested_app(old, path)->0).layout(),
    ) <= old.frames.available()
    &&& ret == -1 ==> new.unchanged(old)
    &&& ret != -1 ==> ret >= 0 && spawned(
        new,
        old,
        ret as usize,
        &app_image(old, requested_app(old, path)->0),
    )
}

/// Spawns a child of the running task that runs the app whose name stands
/// at `path` in the memory of the running task. Returns the process id of
/// the child, or -1, and nothing changed, where the task may not read the
/// name, no app has it, every process id is taken, the image of the app is
/// not valid, or the allocator has not a frame for each page.
pub fn sys_spawn(kernel: &mut Kernel, path: usize) -> (ret: isize)
    requires
        old(kernel).serving(),
    ensures
        sys_spawn_post(final(kernel), old(kernel), path, ret),
{
    let parent = kernel.processor.current.unwrap();
    proof {
        assert(kernel.alive(parent));
    }
    let index = match find_requested_app(kernel, path) {
        Some(index) => index,
        None => {
            proof {
                kernel.lemma_unchanged(old(kernel));
            }
            return -1;
        },
    };
    let pid = match find_free_pid(kernel) {
        Some(pid) => pid,
        None => {
            proof {
                kernel.lemma_unchanged(old(kernel));
            }
            return -1;
        },
    };
    let now = kernel.time_us / 1000;
    let made = TaskControlBlock::new(
        &kernel.apps[index].image,
        pid,
        Some(parent),
        &kernel.platform,
        now,
        &mut kernel.frames,
    );
    let child = match made {
        Some(child) => child,
        None => {
            proof {
                kernel.lemma_unchanged(old(kernel));
            }
            return -1;
        },
    };
    proof {
        assert(old(kernel).frames.allocated().subset_of(kernel.frames.allocated())) by {
            assert forall|p: usize| old(kernel).frames.allocated().contains(p) implies
                kernel.frames.allocated().contains(
                p,
            ) by {
                assert(kernel.frames.allocated().difference(child.memory_set.frames()).contains(p));
            }
        }
        kernel.lemma_frames_grew(old(kernel));
        assert(child.memory_set.frames().disjoint(old(kernel).frames.allocated())) by {
            assert forall|p: usize| child.memory_set.frames().contains(p) implies
                !old(kernel).frames.allocated().contains(p) by {
                if old(kernel).frames.allocated().contains(p) {
                    assert(kernel.frames.allocated().difference(child.memory_set.frames()).contains(p));
                }
            }
        }
        assert forall|p: usize| #[trigger] kernel.alive(p) implies child.memory_set.frames().disjoint(
            kernel.task(p).memory_set.frames(),
        ) by {
            assert(old(kernel).alive(p));
            assert(old(kernel).task(p).memory_set.owned_under(&old(kernel).frames));
        }
    }
    proof {
        assert forall|j: usize| kernel.alive(j) == old(kernel).alive(j) by {}
        assert(is_free_pid(kernel, pid));
    }
    let ghost funded = *kernel;
    install_child(kernel, child);
    proof {
        assert(born(kernel, old(kernel), pid)) by {
            assert(funded.tasks@ == old(kernel).tasks@);
        }
    }
    pid as isize
}

} // verus!
