//! The processor: the one hart of the machine and the task that it runs.

use vstd::prelude::*;
use crate::task::context::TaskContext;
use crate::task::kernel::{with_status, with_stride, Kernel};
use crate::task::manager::{dequeue, fetch_task, holds};
use crate::task::task::TaskStatus;

verus! {

/// The state of the hart.
pub struct Processor {
    /// The process id of the task on the hart, if there is one.
    pub current: Option<usize>,
    /// The context of the idle loop, the source of the first switch.
    pub idle_task_cx: TaskContext,
}

impl Processor {
    /// An idle processor: no task is on the hart, and the context of the
    /// idle loop is all zeros, the placeholder that the first switch saves
    /// into.
    pub fn new() -> (processor: Self)
        ensures
            processor.current is None,
            processor.idle_task_cx.is_zero(),
    {
        Self { current: None, idle_task_cx: TaskContext::zero_init() }
    }

    /// The task on the hart, which stays there.
    pub fn current(&self) -> (pid: Option<usize>)
        ensures
            pid == self.current,
    {
        self.current
    }

    /// Takes the task off the hart and leaves the processor idle.
    pub fn take_current(&mut self) -> (pid: Option<usize>)
        ensures
            pid == old(self).current,
            final(self).current is None,
            final(self).idle_task_cx == old(self).idle_task_cx,
    {
        self.current.take()
    }
}

/// The task on the hart, which stays there.
pub fn current_task(kernel: &Kernel) -> (pid: Option<usize>)
    ensures
        pid == kernel.processor.current,
{
    kernel.processor.current()
}

/// Takes the task off the hart and leaves the processor idle. The task
/// keeps its status.
pub fn take_current_task(kernel: &mut Kernel) -> (pid: Option<usize>)
    requires
        old(kernel).wf(),
    ensures
        final(kernel).wf(),
        pid == old(kernel).processor.current,
        final(kernel).processor.current is None,
        final(kernel).processor.idle_task_cx == old(kernel).processor.idle_task_cx,
        final(kernel).tasks == old(kernel).tasks,
        final(kernel).manager == old(kernel).manager,
        final(kernel).frames == old(kernel).frames,
        final(kernel).apps == old(kernel).apps,
        final(kernel).platform == old(kernel).platform,
        final(kernel).time_us == old(kernel).time_us,
{
    let pid = kernel.processor.take_current();
    proof {
        kernel.lemma_tasks_kept(old(kernel));
        kernel.lemma_memory_same(old(kernel));
        kernel.lemma_family_same(old(kernel));
        assert forall|p: usize, status: TaskStatus|
            kernel.has_status(p, status) == old(kernel).has_status(p, status) by {}
        assert forall|p: usize| #[trigger] holds(kernel.manager@, p) implies kernel.has_status(
            p,
            TaskStatus::Ready,
        ) by {
            assert(old(kernel).has_status(p, TaskStatus::Ready));
        }
        kernel.lemma_one_running(old(kernel), 0);
    }
    pid
}

/// The point of rescheduling: with the hart idle and no task running, puts
/// the task that has run least on the hart, charged one pass. `None`, and
/// nothing changed, where no task is ready: the hart stays idle.
pub fn schedule(kernel: &mut Kernel) -> (next: Option<usize>)
    requires
        old(kernel).wf(),
        old(kernel).processor.current is None,
        old(kernel).none_running(),
    ensures
        final(kernel).wf(),
        match next {
            Some(pid) => {
                &&& old(kernel).manager@.len() > 0
                &&& pid == old(kernel).manager@[0].pid
                &&& old(kernel).has_status(pid, TaskStatus::Ready)
                &&& final(kernel).manager@ == dequeue(old(kernel).manager@)
                &&& final(kernel).tasks@ == with_status(
                    with_stride(old(kernel).tasks@, pid, old(kernel).manager@[0].pass),
                    pid,
                    TaskStatus::Running,
                )
                &&& final(kernel).processor.current == Some(pid)
                &&& forall|p: usize|
                    holds(final(kernel).manager@, p) <==> (p != pid && holds(old(kernel).manager@, p))
            },
            None => old(kernel).manager@.len() == 0 && final(kernel).tasks == old(kernel).tasks
                && final(kernel).manager == old(kernel).manager && final(kernel).processor ==
                    old(kernel).processor,
        },
        old(kernel).ready_queued() ==> final(kernel).settled(),
        final(kernel).processor.idle_task_cx == old(kernel).processor.idle_task_cx,
        final(kernel).frames == old(kernel).frames,
        final(kernel).apps == old(kernel).apps,
        final(kernel).platform == old(kernel).platform,
        final(kernel).time_us == old(kernel).time_us,
{
    let pid = match fetch_task(kernel) {
        Some(pid) => pid,
        None => {
            proof {
                assert forall|p: usize| !holds(kernel.manager@, p) by {}
            }
            return None;
        },
    };
    let ghost fetched = *kernel;
    match &mut kernel.tasks[pid] {
        Some(task) => {
            task.task_status = TaskStatus::Running;
        },
        None => {},
    }
    kernel.processor.current = Some(pid);
    proof {
        assert(kernel.tasks@ =~= with_status(fetched.tasks@, pid, TaskStatus::Running));
        assert(fetched.alive(pid));
        assert(fetched.task(pid).wf());
        assert(kernel.same_pids(&fetched));
        kernel.lemma_tasks_kept(&fetched);
        kernel.lemma_memory_same(&fetched);
        kernel.lemma_family_same(&fetched);
        assert forall|p: usize, status: TaskStatus|
            p != pid implies kernel.has_status(p, status) == old(kernel).has_status(p, status) by {}
        assert forall|p: usize| #[trigger] holds(kernel.manager@, p) implies kernel.has_status(
            p,
            TaskStatus::Ready,
        ) by {
            assert(holds(old(kernel).manager@, p));
            assert(old(kernel).has_status(p, TaskStatus::Ready));
        }
        kernel.lemma_one_running(old(kernel), pid);
        if old(kernel).ready_queued() {
            assert forall|p: usize| #[trigger] kernel.has_status(p, TaskStatus::Ready) implies holds(
                kernel.manager@,
                p,
            ) by {
                assert(old(kernel).has_status(p, TaskStatus::Ready));
            }
            assert forall|p: usize| #[trigger]
                kernel.has_status(p, TaskStatus::Running) implies kernel.processor.current == Some(
                p,
            ) by {
                if p != pid {
                    assert(old(kernel).has_status(p, TaskStatus::Running));
                }
            }
        }
    }
    Some(pid)
}

} // verus!
