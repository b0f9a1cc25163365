//! Tasks: control blocks, the ready queue, the processor and the life cycle.
//!
//! A task is set up ready, is put on the hart by the scheduler, goes back to
//! the ready queue when it yields or is preempted, and becomes a zombie when
//! it exits. A zombie keeps its process id and its exit code until its
//! parent collects it.

pub mod context;
pub mod fairness;
pub mod family;
pub mod id;
pub mod kernel;
pub mod manager;
pub mod processor;
pub mod starvation;
pub mod task;

use vstd::prelude::*;
use crate::mm::image::ProgramImage;
use crate::mm::lifecycle::total_pages;
use crate::task::kernel::{with_status, with_stride, Kernel, IDLE_PID};
use crate::task::manager::{add_task, dequeue, enqueue, holds};
use crate::task::processor::{schedule, take_current_task};
use crate::task::task::{TaskControlBlock, TaskStatus};

verus! {

/// Takes the running task off the hart, puts it back into the ready queue
/// and puts the task that has run least on the hart. Returns the process id
/// of that task.
pub fn suspend_current_and_run_next(kernel: &mut Kernel) -> (next: usize)
    requires
        old(kernel).wf(),
        old(kernel).settled(),
        old(kernel).processor.current is Some,
    ensures
        final(kernel).wf(),
        final(kernel).settled(),
        ({
            let pid = old(kernel).processor.current->0;
            let readied = with_status(old(kernel).tasks@, pid, TaskStatus::Ready);
            let queue = enqueue(old(kernel).manager@, old(kernel).task(pid).spec_ready_entry());
            &&& next == queue[0].pid
            &&& final(kernel).manager@ == dequeue(queue)
            &&& final(kernel).tasks@ == with_status(
                with_stride(readied, next, queue[0].pass),
                next,
                TaskStatus::Running,
            )
            &&& final(kernel).processor.current == Some(next)
        }),
        final(kernel).processor.idle_task_cx == old(kernel).processor.idle_task_cx,
        final(kernel).frames == old(kernel).frames,
        final(kernel).apps == old(kernel).apps,
        final(kernel).platform == old(kernel).platform,
        final(kernel).time_us == old(kernel).time_us,
{
    let pid = take_current_task(kernel).unwrap();
    let ghost taken = *kernel;
    match &mut kernel.tasks[pid] {
        Some(task) => {
            task.task_status = TaskStatus::Ready;
        },
        None => {},
    }
    proof {
        assert(kernel.tasks@ =~= with_status(taken.tasks@, pid, TaskStatus::Ready));
        assert(taken.alive(pid));
        assert(taken.task(pid).wf());
        assert(kernel.same_pids(&taken));
        kernel.lemma_tasks_kept(&taken);
        kernel.lemma_memory_same(&taken);
        kernel.lemma_family_same(&taken);
        assert forall|p: usize, status: TaskStatus|
            p != pid implies kernel.has_status(p, status) == old(kernel).has_status(p, status) by {}
        assert(!holds(kernel.manager@, pid)) by {
            if holds(old(kernel).manager@, pid) {
                assert(old(kernel).has_status(pid, TaskStatus::Ready));
            }
        }
        assert forall|p: usize| #[trigger] holds(kernel.manager@, p) implies kernel.has_status(
            p,
            TaskStatus::Ready,
        ) by {
            assert(old(kernel).has_status(p, TaskStatus::Ready));
        }
        assert forall|p: usize| !#[trigger] kernel.has_status(p, TaskStatus::Running) by {
            if kernel.has_status(p, TaskStatus::Running) {
                assert(old(kernel).has_status(p, TaskStatus::Running));
                assert(old(kernel).has_status(pid, TaskStatus::Running));
            }
        }
    }
    let ghost readied = *kernel;
    assert(readied.none_running());
    add_task(kernel, pid);
    proof {
        assert forall|p: usize, status: TaskStatus|
            kernel.has_status(p, status) == readied.has_status(p, status) by {}
        assert(kernel.none_running()) by {
            assert forall|p: usize| !#[trigger] kernel.has_status(p, TaskStatus::Running) by {
                assert(!readied.has_status(p, TaskStatus::Running));
            }
        }
        assert(kernel.ready_queued()) by {
            assert forall|p: usize| #[trigger] kernel.has_status(p, TaskStatus::Ready) implies holds(
                kernel.manager@,
                p,
            ) by {
                if p != pid {
                    assert(old(kernel).has_status(p, TaskStatus::Ready));
                }
            }
        }
        assert(holds(kernel.manager@, pid));
    }
    match schedule(kernel) {
        Some(next) => next,
        None => pid,
    }
}

/// What holds of the families after the task `pid` exited: its children
/// are children of the first task, and it has none.
proof fn lemma_family_after_exit(new: &Kernel, old: &Kernel, pid: usize)
    requires
        old.family_wf(),
        old.alive(pid),
        pid != IDLE_PID,
        new.same_pids(old),
        forall|p: usize| #[trigger]
            old.alive(p) ==> new.task(p).parent == if old.task(p).parent == Some(pid) {
                Some(IDLE_PID)
            } else {
                old.task(p).parent
            },
        forall|p: usize| #[trigger]
            old.alive(p) ==> new.task(p).children@ == if p == pid {
                Seq::<usize>::empty()
            } else if p == IDLE_PID {
                old.task(IDLE_PID).children@ + old.task(pid).children@
            } else {
                old.task(p).children@
            },
    ensures
        new.family_wf(),
{
    let kids = old.task(pid).children@;
    let first = old.task(IDLE_PID).children@;
    assert(old.alive(IDLE_PID));
    assert forall|p: usize| #[trigger] new.alive(p) implies (p == IDLE_PID <==> new.task(p).parent
        is None) && new.task(p).parent != Some(p) by {
        assert(old.alive(p));
    }
    assert forall|p: usize| #[trigger]
        new.alive(p) && new.task(p).parent is Some implies new.alive(new.task(p).parent->0)
        && new.task(new.task(p).parent->0).children@.contains(p) by {
        assert(old.alive(p));
        let was = old.task(p).parent->0;
        assert(old.alive(was));
        let i = choose|i: int| 0 <= i < old.task(was).children@.len() && old.task(was).children@[i] == p;
        if was == pid {
            assert((first + kids)[first.len() + i] == p);
        } else if was == IDLE_PID {
            assert((first + kids)[i] == p);
        }
    }
    assert forall|p: usize, i: int|
        new.alive(p) && 0 <= i < new.task(p).children@.len() implies new.alive(
        #[trigger] new.task(p).children@[i],
    ) && new.task(new.task(p).children@[i]).parent == Some(p) by {
        assert(old.alive(p));
        if p == IDLE_PID {
            if i < first.len() {
                let child = first[i];
                assert(old.alive(child));
            } else {
                let child = kids[i - first.len()];
                assert(old.alive(child));
            }
        } else {
            let child = old.task(p).children@[i];
            assert(old.alive(child));
        }
    }
    assert forall|p: usize| #[trigger] new.alive(p) implies new.task(p).children@.no_duplicates() by {
        assert(old.alive(p));
        if p == IDLE_PID {
            assert forall|i: int, j: int|
                0 <= i < (first + kids).len() && 0 <= j < (first + kids).len() && i != j implies (first
                + kids)[i] != (first + kids)[j] by {
                if i < first.len() && j >= first.len() {
                    assert(old.alive(first[i]));
                    assert(old.alive(kids[j - first.len()]));
                } else if j < first.len() && i >= first.len() {
                    assert(old.alive(first[j]));
                    assert(old.alive(kids[i - first.len()]));
                }
            }
        }
    }
}

/// Makes the task `child` a child of the first task.
fn adopt(kernel: &mut Kernel, child: usize)
    requires
        old(kernel).alive(child),
        old(kernel).alive(IDLE_PID),
        child != IDLE_PID,
    ensures
        final(kernel).same_pids(old(kernel)),
        final(kernel).manager == old(kernel).manager,
        final(kernel).processor == old(kernel).processor,
        final(kernel).frames == old(kernel).frames,
        final(kernel).apps == old(kernel).apps,
        final(kernel).platform == old(kernel).platform,
        final(kernel).time_us == old(kernel).time_us,
        forall|p: usize|
            old(kernel).alive(p) && p != child && p != IDLE_PID ==> final(kernel).task(p) ==
                old(kernel).task(p),
        final(kernel).task(child) == (TaskControlBlock { parent: Some(IDLE_PID),
            ..old(kernel).task(child) }),
        final(kernel).task(IDLE_PID) == (TaskControlBlock {
            children: final(kernel).task(IDLE_PID).children,
            ..old(kernel).task(IDLE_PID)
        }),
        final(kernel).task(IDLE_PID).children@ == old(kernel).task(IDLE_PID).children@.push(child),
{
    match &mut kernel.tasks[child] {
        Some(task) => {
            task.parent = Some(IDLE_PID);
        },
        None => {},
    }
    let ghost mid = *kernel;
    assert(mid.tasks@ =~= old(kernel).tasks@.update(
        child as int,
        Some(TaskControlBlock { parent: Some(IDLE_PID), ..old(kernel).task(child) }),
    ));
    match &mut kernel.tasks[IDLE_PID] {
        Some(first) => {
            first.children.push(child);
        },
        None => {},
    }
    proof {
        assert(kernel.tasks@.len() == mid.tasks@.len());
        assert forall|p: usize| p != IDLE_PID && p < mid.tasks@.len() implies kernel.tasks@[p as int]
            == mid.tasks@[p as int] by {}
        assert forall|pid: usize| #[trigger] kernel.alive(pid) == old(kernel).alive(pid) by {}
    }
}

/// Ends the running task with the exit code `exit_code`: the task leaves
/// the hart and becomes a zombie, its children become children of the first
/// task, and its address space is emptied, the frames given back. The hart
/// is left idle. Returns the process id of the task.
pub fn exit_current(kernel: &mut Kernel, exit_code: i32) -> (pid: usize)
    requires
        old(kernel).wf(),
        old(kernel).settled(),
        old(kernel).processor.current is Some,
        old(kernel).processor.current != Some(IDLE_PID),
    ensures
        Some(pid) == old(kernel).processor.current,
        final(kernel).wf(),
        final(kernel).exited(old(kernel), pid, exit_code, None, 0),
        final(kernel).processor.current is None,
        final(kernel).none_running(),
        final(kernel).ready_queued(),
        final(kernel).manager == old(kernel).manager,
{
    let pid = take_current_task(kernel).unwrap();
    let ghost kids = old(kernel).task(pid).children@;
    let mut children: Vec<usize> = Vec::new();
    proof {
        assert(old(kernel).alive(pid));
        assert(old(kernel).task(pid).wf());
    }
    match &mut kernel.tasks[pid] {
        Some(task) => {
            task.task_status = TaskStatus::Zombie;
            task.exit_code = exit_code;
            core::mem::swap(&mut task.children, &mut children);
            task.memory_set.recycle_data_pages(&mut kernel.frames);
        },
        None => {},
    }
    let ghost parted = *kernel;
    proof {
        assert(children@ == kids);
        assert(parted.same_pids(old(kernel)));
        assert forall|p: usize| old(kernel).alive(p) && p != pid implies parted.task(p) ==
            old(kernel).task(p) by {}
    }
    let n = children.len();
    let mut i: usize = 0;
    while i < n
        invariant
            old(kernel).wf(),
            old(kernel).alive(pid),
            pid != IDLE_PID,
            kids == old(kernel).task(pid).children@,
            children@ == kids,
            n == kids.len(),
            i <= n,
            kernel.same_pids(&parted),
            parted.same_pids(old(kernel)),
            kernel.manager == parted.manager,
            kernel.processor == parted.processor,
            kernel.frames == parted.frames,
            kernel.apps == parted.apps,
            kernel.platform == parted.platform,
            kernel.time_us == parted.time_us,
            forall|p: usize| old(kernel).alive(p) && p != pid ==> parted.task(p) == old(kernel).task(p),
            forall|p: usize| #[trigger]
                parted.alive(p) ==> kernel.task(p) == (TaskControlBlock {
                    parent: kernel.task(p).parent,
                    children: kernel.task(p).children,
                    ..parted.task(p)
                }),
            forall|p: usize| #[trigger]
                parted.alive(p) ==> kernel.task(p).parent == if kids.subrange(0, i as int).contains(p) {
                    Some(IDLE_PID)
                } else {
                    parted.task(p).parent
                },
            forall|p: usize| #[trigger]
                parted.alive(p) ==> kernel.task(p).children@ == if p == IDLE_PID {
                    parted.task(IDLE_PID).children@ + kids.subrange(0, i as int)
                } else {
                    parted.task(p).children@
                },
        decreases n - i,
    {
        let child = children[i];
        let ghost before = *kernel;
        proof {
            assert(old(kernel).alive(child));
            assert(old(kernel).task(child).parent == Some(pid));
            assert(old(kernel).alive(IDLE_PID));
            assert(child != IDLE_PID);
            assert(child != pid);
        }
        proof {
            assert(before.alive(child) && before.alive(IDLE_PID));
        }
        adopt(kernel, child);
        proof {
            let done = kids.subrange(0, i as int);
            let more = kids.subrange(0, i + 1);
            assert(more =~= done.push(child));
            assert forall|p: usize| more.contains(p) <==> (done.contains(p) || p == child) by {
                if more.contains(p) {
                    let j = choose|j: int| 0 <= j < more.len() && more[j] == p;
                    if j < i {
                        assert(done[j] == p);
                    }
                }
                if done.contains(p) {
                    let j = choose|j: int| 0 <= j < done.len() && done[j] == p;
                    assert(more[j] == p);
                }
                if p == child {
                    assert(more[i as int] == p);
                }
            }
            assert forall|p: usize| #[trigger] parted.alive(p) implies kernel.task(p).children@ == if p
                == IDLE_PID {
                parted.task(IDLE_PID).children@ + more
            } else {
                parted.task(p).children@
            } by {
                if p == IDLE_PID {
                    assert(kernel.task(p).children@ =~= parted.task(IDLE_PID).children@ + more);
                } else {
                    assert(before.alive(p));
                }
            }
            assert forall|p: usize| #[trigger] parted.alive(p) implies kernel.task(p).parent == if
                more.contains(
                p,
            ) {
                Some(IDLE_PID)
            } else {
                parted.task(p).parent
            } by {
                assert(before.alive(p));
            }
            assert forall|p: usize| #[trigger] parted.alive(p) implies kernel.task(p) == (TaskControlBlock {
                parent: kernel.task(p).parent,
                children: kernel.task(p).children,
                ..parted.task(p)
            }) by {
                assert(before.alive(p));
            }
        }
        i += 1;
    }
    proof {
        assert(kids.subrange(0, n as int) =~= kids);
        assert forall|p: usize| #[trigger] old(kernel).alive(p) implies (kids.contains(p) <==>
            old(kernel).task(p).parent == Some(pid)) by {
            if kids.contains(p) {
                let j = choose|j: int| 0 <= j < kids.len() && kids[j] == p;
                assert(old(kernel).task(old(kernel).task(pid).children@[j]).parent == Some(pid));
            }
        }
        assert(kernel.same_pids(old(kernel)));
        assert forall|p: usize| #[trigger] old(kernel).alive(p) implies kernel.task(p).parent == if
            old(kernel).task(p).parent == Some(pid) {
            Some(IDLE_PID)
        } else {
            old(kernel).task(p).parent
        } by {
            assert(parted.alive(p));
        }
        assert forall|p: usize| #[trigger] old(kernel).alive(p) implies kernel.task(p).children@ == if p
            == pid {
            Seq::<usize>::empty()
        } else if p == IDLE_PID {
            old(kernel).task(IDLE_PID).children@ + old(kernel).task(pid).children@
        } else {
            old(kernel).task(p).children@
        } by {
            assert(parted.alive(p));
        }
        lemma_family_after_exit(kernel, old(kernel), pid);
        assert forall|p: usize| #[trigger] old(kernel).alive(p) implies kernel.task(p).wf() && kernel.task(
            p,
        ).pid == p && kernel.task(p).task_status != TaskStatus::UnInit && kernel.task(
            p,
        ).memory_set.trampoline_frame() == old(kernel).task(p).memory_set.trampoline_frame() by {
            assert(parted.alive(p));
            assert(old(kernel).task(p).wf());
            if p == pid {
                assert(kernel.task(p).children@.len() == 0);
                assert(parted.task(p).memory_set.wf());
            } else if p == IDLE_PID {
                assert(!old(kernel).has_status(IDLE_PID, TaskStatus::Zombie));
            } else {
                assert(kernel.task(p).children@ == old(kernel).task(p).children@);
            }
        }
        kernel.lemma_tasks_kept(old(kernel));
        assert(kernel.memory_wf()) by {
            assert(parted.task(pid).memory_set.frames() == Set::<usize>::empty());
            assert forall|p: usize| #[trigger] old(kernel).alive(p) && p != pid implies kernel.task(
                p,
            ).memory_set == old(kernel).task(p).memory_set by {
                assert(parted.alive(p));
            }
            assert(kernel.task(pid).memory_set == parted.task(pid).memory_set) by {
                assert(parted.alive(pid));
            }
            assert(kernel.frames.allocated().difference(kernel.task(pid).memory_set.frames())
                =~= old(kernel).frames.allocated().difference(old(kernel).task(pid).memory_set.frames()));
            kernel.lemma_memory_changed(old(kernel), pid);
        }
        assert forall|p: usize, status: TaskStatus|
            p != pid implies kernel.has_status(p, status) == old(kernel).has_status(p, status) by {
            if old(kernel).alive(p) {
                assert(parted.alive(p));
            }
        }
        assert(kernel.has_status(pid, TaskStatus::Zombie)) by {
            assert(parted.alive(pid));
        }
        assert(kernel.sched_wf()) by {
            assert forall|p: usize| #[trigger] holds(kernel.manager@, p) implies kernel.has_status(
                p,
                TaskStatus::Ready,
            ) by {
                assert(old(kernel).has_status(p, TaskStatus::Ready));
                assert(old(kernel).has_status(pid, TaskStatus::Running));
            }
            kernel.lemma_one_running(old(kernel), 0);
        }
        assert(kernel.none_running()) by {
            assert forall|p: usize| !#[trigger] kernel.has_status(p, TaskStatus::Running) by {
                if kernel.has_status(p, TaskStatus::Running) {
                    assert(old(kernel).has_status(p, TaskStatus::Running));
                    assert(old(kernel).has_status(pid, TaskStatus::Running));
                }
            }
        }
        assert(kernel.ready_queued()) by {
            assert forall|p: usize| #[trigger] kernel.has_status(p, TaskStatus::Ready) implies holds(
                kernel.manager@,
                p,
            ) by {
                assert(old(kernel).has_status(p, TaskStatus::Ready));
            }
        }
        assert(kernel.exited(old(kernel), pid, exit_code, None, 0)) by {
            assert forall|p: usize| #[trigger] old(kernel).alive(p) && p != pid implies kernel.task(p) == (
            TaskControlBlock {
                parent: kernel.task(p).parent,
                children: kernel.task(p).children,
                task_status: kernel.task(p).task_status,
                stride: kernel.task(p).stride,
                ..old(kernel).task(p)
            }) && kernel.task(p).task_status == old(kernel).task(p).task_status && kernel.task(p).stride
                == old(kernel).task(p).stride by {
                assert(parted.alive(p));
            }
            assert(parted.alive(pid));
        }
    }
    pid
}

/// Where a task has exited and the task `next` was then put on the hart
/// with the stride `stride`, the kernel is as the two steps in one leave
/// it.
proof fn lemma_exited_then_run(
    new: &Kernel,
    parted: &Kernel,
    old: &Kernel,
    pid: usize,
    exit_code: i32,
    next: usize,
    stride: u64,
)
    requires
        parted.exited(old, pid, exit_code, None, 0),
        parted.has_status(next, TaskStatus::Ready),
        new.tasks@ == with_status(with_stride(parted.tasks@, next, stride), next, TaskStatus::Running),
        new.frames == parted.frames,
        new.apps == parted.apps,
        new.platform == parted.platform,
        new.time_us == parted.time_us,
        new.processor.idle_task_cx == parted.processor.idle_task_cx,
    ensures
        new.exited(old, pid, exit_code, Some(next), stride),
{
    assert(parted.alive(next));
    assert(parted.alive(pid));
    assert(next != pid);
    assert forall|p: usize| #[trigger] new.alive(p) == parted.alive(p) by {}
    assert(new.same_pids(old)) by {
        assert forall|p: usize| #[trigger] new.alive(p) == old.alive(p) by {
            assert(new.alive(p) == parted.alive(p));
            assert(parted.alive(p) == old.alive(p));
        }
    }
    assert forall|p: usize| parted.alive(p) && p != next implies new.task(p) == parted.task(p) by {}
    assert(new.task(next) == (TaskControlBlock {
        task_status: TaskStatus::Running,
        stride,
        ..parted.task(next)
    }));
    assert(new.task(pid) == parted.task(pid));
    assert forall|p: usize| #[trigger] old.alive(p) && p != pid implies new.task(p) == (TaskControlBlock {
        parent: new.task(p).parent,
        children: new.task(p).children,
        task_status: new.task(p).task_status,
        stride: new.task(p).stride,
        ..old.task(p)
    }) && new.task(p).parent == parted.task(p).parent && new.task(p).children == parted.task(
        p,
    ).children && new.task(p).task_status == (if p == next {
        TaskStatus::Running
    } else {
        parted.task(p).task_status
    }) && new.task(p).stride == (if p == next {
        stride
    } else {
        parted.task(p).stride
    }) by {
        assert(parted.alive(p));
    }
}

/// Ends the running task with the exit code `exit_code` and puts the task
/// that has run least on the hart. The task becomes a zombie, its children
/// become children of the first task, and its frames are given back.
/// Returns the process id of the task that runs next, or `None` where no
/// task is ready: the hart is then idle.
pub fn exit_current_and_run_next(kernel: &mut Kernel, exit_code: i32) -> (next: Option<usize>)
    requires
        old(kernel).wf(),
        old(kernel).settled(),
        old(kernel).processor.current is Some,
        old(kernel).processor.current != Some(IDLE_PID),
    ensures
        final(kernel).wf(),
        final(kernel).settled(),
        final(kernel).processor.current == next,
        match next {
            Some(pid) => {
                &&& old(kernel).manager@.len() > 0
                &&& pid == old(kernel).manager@[0].pid
                &&& final(kernel).manager@ == dequeue(old(kernel).manager@)
                &&& final(kernel).exited(
                    old(kernel),
                    old(kernel).processor.current->0,
                    exit_code,
                    next,
                    old(kernel).manager@[0].pass,
                )
            },
            None => {
                &&& old(kernel).manager@.len() == 0
                &&& final(kernel).manager == old(kernel).manager
                &&& final(kernel).exited(old(kernel), old(kernel).processor.current->0, exit_code, None, 0)
            },
        },
{
    let pid = exit_current(kernel, exit_code);
    let ghost parted = *kernel;
    let next = schedule(kernel);
    proof {
        if let Some(n) = next {
            lemma_exited_then_run(kernel, &parted, old(kernel), pid, exit_code, n,
                old(kernel).manager@[0].pass);
        }
    }
    next
}

/// Sets up the first task to run the program `image` and puts it into the
/// ready queue. Nothing is done, and `false` returned, where the image is
/// not valid or the allocator has not a frame for each page.
pub fn add_initproc(kernel: &mut Kernel, image: &ProgramImage) -> (done: bool)
    requires
        old(kernel).wf(),
        old(kernel).settled(),
        old(kernel).tasks@.len() == 0,
    ensures
        final(kernel).wf(),
        final(kernel).settled(),
        done == (image.valid() && total_pages(image.layout()) <= old(kernel).frames.available()),
        !done ==> *final(kernel) == *old(kernel),
        done ==> {
            &&& final(kernel).tasks@.len() == 1
            &&& final(kernel).alive(IDLE_PID)
            &&& final(kernel).task(IDLE_PID).started(
                image,
                IDLE_PID,
                None,
                &old(kernel).platform,
                old(kernel).time_us / 1000,
            )
            &&& final(kernel).manager@ == enqueue(
                old(kernel).manager@,
                final(kernel).task(IDLE_PID).spec_ready_entry(),
            )
            &&& final(kernel).frames.available() == old(kernel).frames.available() - total_pages(
                image.layout(),
            )
        },
        final(kernel).processor == old(kernel).processor,
        final(kernel).apps == old(kernel).apps,
        final(kernel).platform == old(kernel).platform,
        final(kernel).time_us == old(kernel).time_us,
{
    let made = TaskControlBlock::new(
        image,
        IDLE_PID,
        None,
        &kernel.platform,
        kernel.time_us / 1000,
        &mut kernel.frames,
    );
    let task = match made {
        Some(task) => task,
        None => {
            return false;
        },
    };
    kernel.tasks.push(Some(task));
    proof {
        assert forall|p: usize| kernel.alive(p) <==> p == IDLE_PID by {}
        assert(kernel.task(IDLE_PID) == task);
        assert(kernel.tasks_wf());
        assert(kernel.memory_wf());
        assert(kernel.family_wf());
        assert forall|p: usize| !holds(kernel.manager@, p) by {
            if holds(old(kernel).manager@, p) {
                assert(old(kernel).has_status(p, TaskStatus::Ready));
            }
        }
        assert(kernel.sched_wf()) by {
            if let Some(c) = kernel.processor.current {
                assert(old(kernel).has_status(c, TaskStatus::Running));
            }
        }
    }
    let ghost pushed = *kernel;
    add_task(kernel, IDLE_PID);
    proof {
        assert forall|p: usize, status: TaskStatus|
            kernel.has_status(p, status) == pushed.has_status(p, status) by {}
        assert(kernel.settled()) by {
            assert forall|p: usize| #[trigger] kernel.has_status(p, TaskStatus::Ready) implies holds(
                kernel.manager@,
                p,
            ) by {
                assert(p == IDLE_PID);
            }
            assert forall|p: usize| #[trigger]
                kernel.has_status(p, TaskStatus::Running) implies kernel.processor.current == Some(
                p,
            ) by {
                assert(p == IDLE_PID);
            }
        }
    }
    true
}

} // verus!
