//! The state of the kernel as one value, and what always holds of it.

use vstd::prelude::*;
use crate::config::{MAX_TASKS, PPN_LIMIT};
use crate::loader::App;
use crate::mm::frame_allocator::FrameAllocator;
use crate::mm::lifecycle::total_pages;
use crate::task::manager::{holds, TaskManager};
use crate::task::processor::Processor;
use crate::task::task::{Platform, TaskControlBlock, TaskStatus};

verus! {

/// The process id of the first task, which adopts the orphans and never
/// exits.
pub const IDLE_PID: usize = 0;

/// The state of the kernel.
pub struct Kernel {
    /// The tasks, each in the slot of its process id; a free slot is a free
    /// process id.
    pub tasks: Vec<Option<TaskControlBlock>>,
    /// The ready queue.
    pub manager: TaskManager,
    /// The hart.
    pub processor: Processor,
    /// The allocator of the frames of the address spaces.
    pub frames: FrameAllocator,
    /// The programs that tasks can run.
    pub apps: Vec<App>,
    /// What the kernel knows of the machine.
    pub platform: Platform,
    /// The time in microseconds, as of the last trap.
    pub time_us: usize,
}

/// The tasks with the task `pid` given the status `status`.
pub open spec fn with_status(tasks: Seq<Option<TaskControlBlock>>, pid: usize, status: TaskStatus) -> Seq<
    Option<TaskControlBlock>,
> {
    tasks.update(pid as int, Some(TaskControlBlock { task_status: status, ..tasks[pid as int]->0 }))
}

/// The tasks with the task `pid` given the stride `stride`.
pub open spec fn with_stride(tasks: Seq<Option<TaskControlBlock>>, pid: usize, stride: u64) -> Seq<
    Option<TaskControlBlock>,
> {
    tasks.update(pid as int, Some(TaskControlBlock { stride, ..tasks[pid as int]->0 }))
}

impl Kernel {
    /// The process id `pid` is taken by a task.
    pub open spec fn alive(&self, pid: usize) -> bool {
        pid < self.tasks@.len() && self.tasks@[pid as int] is Some
    }

    /// The task of the process id `pid`.
    pub open spec fn task(&self, pid: usize) -> TaskControlBlock
        recommends
            self.alive(pid),
    {
        self.tasks@[pid as int]->0
    }

    /// The task `pid` is alive and has the status `status`.
    pub open spec fn has_status(&self, pid: usize, status: TaskStatus) -> bool {
        self.alive(pid) && self.task(pid).task_status == status
    }

    /// Every task is well formed and stands in the slot of its process id.
    pub open spec fn tasks_wf(&self) -> bool {
        &&& self.tasks@.len() <= MAX_TASKS
        &&& self.platform.trampoline.0 < PPN_LIMIT
        &&& forall|pid: usize| #[trigger]
            self.alive(pid) ==> self.task(pid).wf() && self.task(pid).pid == pid && self.task(
                pid,
            ).task_status != TaskStatus::UnInit && self.task(pid).memory_set.trampoline_frame()
                == self.platform.trampoline
    }

    /// Every frame of an address space is handed out by the allocator, and
    /// to that address space alone.
    pub open spec fn memory_wf(&self) -> bool {
        &&& self.frames.wf()
        &&& forall|pid: usize| #[trigger]
            self.alive(pid) ==> self.task(pid).memory_set.owned_under(&self.frames)
        &&& forall|p: usize, q: usize|
            #![trigger self.alive(p), self.alive(q)]
            self.alive(p) && self.alive(q) && p != q ==> self.task(p).memory_set.frames().disjoint(
                self.task(q).memory_set.frames(),
            )
    }

    /// The ready queue holds ready tasks alone, the task on the hart is
    /// running, no two tasks are running, and the first task has not
    /// exited.
    pub open spec fn sched_wf(&self) -> bool {
        &&& self.manager.wf()
        &&& !self.has_status(IDLE_PID, TaskStatus::Zombie)
        &&& forall|pid: usize| #[trigger]
            holds(self.manager@, pid) ==> self.has_status(pid, TaskStatus::Ready)
        &&& self.processor.current matches Some(pid) ==> self.has_status(pid, TaskStatus::Running)
        &&& self.one_running()
    }

    /// No two tasks are running.
    pub open spec fn one_running(&self) -> bool {
        forall|p: usize, q: usize|
            #![trigger self.has_status(p, TaskStatus::Running), self.has_status(q, TaskStatus::Running)]
            self.has_status(p, TaskStatus::Running) && self.has_status(q, TaskStatus::Running) ==> p
                == q
    }

    /// The first task alone has no parent; every other task is a child of
    /// its parent, which is alive and another task, and the children of a
    /// task are alive, know it for their parent, and are listed once.
    pub open spec fn family_wf(&self) -> bool {
        &&& self.tasks@.len() > 0 ==> self.alive(IDLE_PID)
        &&& forall|pid: usize| #[trigger]
            self.alive(pid) ==> (pid == IDLE_PID <==> self.task(pid).parent is None) && self.task(
                pid,
            ).parent != Some(pid)
        &&& forall|pid: usize| #[trigger]
            self.alive(pid) && self.task(pid).parent is Some ==> self.alive(self.task(pid).parent->0)
                && self.task(self.task(pid).parent->0).children@.contains(pid)
        &&& forall|pid: usize, i: int|
            self.alive(pid) && 0 <= i < self.task(pid).children@.len() ==> self.alive(
                #[trigger] self.task(pid).children@[i],
            ) && self.task(self.task(pid).children@[i]).parent == Some(pid)
        &&& forall|pid: usize| #[trigger] self.alive(pid) ==> self.task(pid).children@.no_duplicates()
    }

    /// What always holds of the kernel between two of its operations.
    pub open spec fn wf(&self) -> bool {
        &&& self.tasks_wf()
        &&& self.memory_wf()
        &&& self.sched_wf()
        &&& self.family_wf()
    }

    /// Every ready task waits in the ready queue and the running task is on
    /// the hart: no task is in transit between the two.
    pub open spec fn settled(&self) -> bool {
        &&& self.ready_queued()
        &&& forall|pid: usize| #[trigger]
            self.has_status(pid, TaskStatus::Running) ==> self.processor.current == Some(pid)
    }

    /// Every ready task waits in the ready queue.
    pub open spec fn ready_queued(&self) -> bool {
        forall|pid: usize| #[trigger]
            self.has_status(pid, TaskStatus::Ready) ==> holds(self.manager@, pid)
    }

    /// No task is running.
    pub open spec fn none_running(&self) -> bool {
        forall|pid: usize| !#[trigger] self.has_status(pid, TaskStatus::Running)
    }

    /// The state is `old` after the task `pid` exited with `exit_code` and
    /// the task `next`, if any, was put on the hart with the stride
    /// `stride`. The task `pid` is a zombie with that exit code, without
    /// children and without areas, and otherwise as it was; its children
    /// have the first task for their parent, and the first task has them
    /// for children behind its own; the task `next` is running; every other
    /// task is as it was. The frames of the task `pid` were given back, one
    /// for each page of its areas.
    pub open spec fn exited(
        &self,
        old: &Self,
        pid: usize,
        exit_code: i32,
        next: Option<usize>,
        stride: u64,
    ) -> bool {
        &&& self.same_pids(old)
        &&& self.alive(pid)
        &&& next != Some(pid)
        &&& self.task(pid) == (TaskControlBlock {
            task_status: TaskStatus::Zombie,
            exit_code,
            children: self.task(pid).children,
            memory_set: self.task(pid).memory_set,
            ..old.task(pid)
        })
        &&& self.task(pid).children@ == Seq::<usize>::empty()
        &&& self.task(pid).memory_set.layout() == Seq::<crate::mm::memory_set::AreaView>::empty()
        &&& forall|p: usize| #[trigger]
            old.alive(p) && p != pid ==> self.task(p) == (TaskControlBlock {
                parent: self.task(p).parent,
                children: self.task(p).children,
                task_status: self.task(p).task_status,
                stride: self.task(p).stride,
                ..old.task(p)
            })
        &&& forall|p: usize| #[trigger]
            old.alive(p) && p != pid ==> self.task(p).parent == if old.task(p).parent == Some(pid) {
                Some(IDLE_PID)
            } else {
                old.task(p).parent
            }
        &&& forall|p: usize| #[trigger]
            old.alive(p) && p != pid ==> self.task(p).children@ == if p == IDLE_PID {
                old.task(IDLE_PID).children@ + old.task(pid).children@
            } else {
                old.task(p).children@
            }
        &&& forall|p: usize| #[trigger]
            old.alive(p) && p != pid ==> self.task(p).task_status == if next == Some(p) {
                TaskStatus::Running
            } else {
                old.task(p).task_status
            }
        &&& forall|p: usize| #[trigger]
            old.alive(p) && p != pid ==> self.task(p).stride == if next == Some(p) {
                stride
            } else {
                old.task(p).stride
            }
        &&& self.frames.allocated() == old.frames.allocated().difference(
            old.task(pid).memory_set.frames(),
        )
        &&& self.frames.available() == old.frames.available() + total_pages(
            old.task(pid).memory_set.layout(),
        )
        &&& self.apps == old.apps
        &&& self.platform == old.platform
        &&& self.time_us == old.time_us
        &&& self.processor.idle_task_cx == old.processor.idle_task_cx
    }

    /// Nothing differs between the two states.
    pub open spec fn unchanged(&self, old: &Self) -> bool {
        &&& self.tasks@ == old.tasks@
        &&& self.manager == old.manager
        &&& self.processor == old.processor
        &&& self.frames == old.frames
        &&& self.apps == old.apps
        &&& self.platform == old.platform
        &&& self.time_us == old.time_us
    }

    /// The two states differ in the task `pid` and in the allocator at
    /// most.
    pub open spec fn same_but_task(&self, old: &Self, pid: usize) -> bool {
        &&& self.tasks@.len() == old.tasks@.len()
        &&& self.alive(pid)
        &&& old.alive(pid)
        &&& forall|p: usize|
            p < self.tasks@.len() && p != pid ==> #[trigger] self.tasks@[p as int] == old.tasks@[p as int]
        &&& self.manager == old.manager
        &&& self.processor == old.processor
        &&& self.apps == old.apps
        &&& self.platform == old.platform
        &&& self.time_us == old.time_us
    }

    /// The task on the hart is alive and running, and the kernel is well
    /// formed and settled: a system call can be served.
    pub open spec fn serving(&self) -> bool {
        &&& self.wf()
        &&& self.settled()
        &&& self.processor.current is Some
    }

    /// The process id of the task on the hart.
    pub open spec fn current(&self) -> usize
        recommends
            self.processor.current is Some,
    {
        self.processor.current->0
    }

    /// Where the task `pid` alone changed, in its address space and the
    /// fields that describe it, and the frames by the rule that the frames
    /// of every other address space stay handed out, the kernel is still
    /// well formed, and settled where it was.
    pub proof fn lemma_task_memory_changed(&self, old: &Self, pid: usize)
        requires
            old.wf(),
            self.same_but_task(old, pid),
            self.task(pid).wf(),
            self.task(pid).same_identity(&old.task(pid)),
            self.task(pid).same_family(&old.task(pid)),
            self.task(pid).task_status == old.task(pid).task_status,
            self.task(pid).memory_set.trampoline_frame() == old.task(pid).memory_set.trampoline_frame(),
            self.frames.wf(),
            self.task(pid).memory_set.owned_under(&self.frames),
            self.frames.allocated().difference(self.task(pid).memory_set.frames())
                == old.frames.allocated().difference(old.task(pid).memory_set.frames()),
        ensures
            self.wf(),
            old.settled() ==> self.settled(),
    {
        assert forall|p: usize| #[trigger] self.alive(p) == old.alive(p) by {
            if p < self.tasks@.len() && p != pid {
                assert(self.tasks@[p as int] == old.tasks@[p as int]);
            }
        }
        assert forall|p: usize| old.alive(p) && p != pid implies self.task(p) == old.task(p) by {
            assert(self.tasks@[p as int] == old.tasks@[p as int]);
        }
        assert(old.task(pid).wf());
        self.lemma_tasks_kept(old);
        self.lemma_memory_changed(old, pid);
        self.lemma_family_same(old);
        self.lemma_sched_same(old);
    }

    /// Where the task `pid` alone changed, and kept its process id, its
    /// family, its status and its address space, the kernel is still well
    /// formed, and settled where it was.
    pub proof fn lemma_task_kept(&self, old: &Self, pid: usize)
        requires
            old.wf(),
            self.same_but_task(old, pid),
            self.frames == old.frames,
            self.task(pid).wf(),
            self.task(pid).same_identity(&old.task(pid)),
            self.task(pid).same_family(&old.task(pid)),
            self.task(pid).task_status == old.task(pid).task_status,
            self.task(pid).memory_set == old.task(pid).memory_set,
        ensures
            self.wf(),
            old.settled() ==> self.settled(),
    {
        assert forall|p: usize| #[trigger] self.alive(p) == old.alive(p) by {
            if p < self.tasks@.len() && p != pid {
                assert(self.tasks@[p as int] == old.tasks@[p as int]);
            }
        }
        assert forall|p: usize| old.alive(p) && p != pid implies self.task(p) == old.task(p) by {
            assert(self.tasks@[p as int] == old.tasks@[p as int]);
        }
        assert(old.task(pid).wf());
        self.lemma_tasks_kept(old);
        self.lemma_memory_same(old);
        self.lemma_family_same(old);
        self.lemma_sched_same(old);
    }

    /// Where the allocator alone changed and kept handed out what it had
    /// handed out, the kernel is still well formed, and settled where it
    /// was.
    pub proof fn lemma_frames_grew(&self, old: &Self)
        requires
            old.wf(),
            self.tasks@ == old.tasks@,
            self.manager == old.manager,
            self.processor == old.processor,
            self.platform == old.platform,
            self.frames.wf(),
            old.frames.allocated().subset_of(self.frames.allocated()),
        ensures
            self.wf(),
            old.settled() ==> self.settled(),
    {
        assert forall|p: usize| #[trigger] self.alive(p) == old.alive(p) by {}
        assert forall|p: usize| old.alive(p) implies self.task(p) == old.task(p) by {}
        self.lemma_tasks_kept(old);
        self.lemma_family_same(old);
        self.lemma_sched_same(old);
        assert forall|p: usize| #[trigger] self.alive(p) implies self.task(p).memory_set.owned_under(
            &self.frames,
        ) by {
            assert(old.alive(p));
        }
        assert forall|p: usize, q: usize|
            #![trigger self.alive(p), self.alive(q)]
            self.alive(p) && self.alive(q) && p != q implies self.task(p).memory_set.frames().disjoint(
            self.task(q).memory_set.frames(),
        ) by {
            assert(old.alive(p) && old.alive(q));
        }
    }

    /// A state from which nothing differs is well formed and settled as the
    /// other is.
    pub proof fn lemma_unchanged(&self, old: &Self)
        requires
            self.unchanged(old),
        ensures
            old.wf() ==> self.wf(),
            old.settled() ==> self.settled(),
    {
        assert forall|p: usize| #[trigger] self.alive(p) == old.alive(p) by {}
        assert forall|p: usize| old.alive(p) implies self.task(p) == old.task(p) by {}
        if old.wf() {
            self.lemma_tasks_kept(old);
            self.lemma_memory_same(old);
            self.lemma_family_same(old);
            self.lemma_sched_same(old);
        }
        if old.settled() {
            assert forall|p: usize, status: TaskStatus|
                self.has_status(p, status) == old.has_status(p, status) by {}
            assert forall|p: usize| #[trigger] self.has_status(p, TaskStatus::Ready) implies holds(
                self.manager@,
                p,
            ) by {
                assert(old.has_status(p, TaskStatus::Ready));
            }
            assert forall|p: usize| #[trigger]
                self.has_status(p, TaskStatus::Running) implies self.processor.current == Some(p) by {
                assert(old.has_status(p, TaskStatus::Running));
            }
        }
    }

    /// The same process ids are taken in the two states.
    pub open spec fn same_pids(&self, old: &Self) -> bool {
        &&& self.tasks@.len() == old.tasks@.len()
        &&& forall|pid: usize| #[trigger] self.alive(pid) == old.alive(pid)
    }

    /// Where every task kept its address space and the allocator stayed,
    /// the memory is still well formed.
    pub proof fn lemma_memory_same(&self, old: &Self)
        requires
            old.memory_wf(),
            self.same_pids(old),
            forall|pid: usize| #[trigger]
                old.alive(pid) ==> self.task(pid).memory_set == old.task(pid).memory_set,
            self.frames == old.frames,
        ensures
            self.memory_wf(),
    {
        assert forall|p: usize| #[trigger] self.alive(p) implies self.task(p).memory_set.owned_under(
            &self.frames,
        ) by {
            assert(old.alive(p));
        }
        assert forall|p: usize, q: usize|
            #![trigger self.alive(p), self.alive(q)]
            self.alive(p) && self.alive(q) && p != q implies self.task(p).memory_set.frames().disjoint(
            self.task(q).memory_set.frames(),
        ) by {
            assert(old.alive(p) && old.alive(q));
        }
    }

    /// Where the address space of the task `pid` alone changed, with its
    /// frames, by the rule that the frames of every other address space
    /// stay handed out, the memory is still well formed.
    pub proof fn lemma_memory_changed(&self, old: &Self, pid: usize)
        requires
            old.memory_wf(),
            self.same_pids(old),
            old.alive(pid),
            forall|p: usize| #[trigger]
                old.alive(p) && p != pid ==> self.task(p).memory_set == old.task(p).memory_set,
            self.frames.wf(),
            self.task(pid).memory_set.owned_under(&self.frames),
            self.frames.allocated().difference(self.task(pid).memory_set.frames())
                == old.frames.allocated().difference(old.task(pid).memory_set.frames()),
        ensures
            self.memory_wf(),
    {
        let rest = old.frames.allocated().difference(old.task(pid).memory_set.frames());
        assert forall|p: usize| self.alive(p) && p != pid implies
            self.task(p).memory_set.frames().subset_of(
            rest,
        ) by {
            assert(old.alive(p) && old.alive(pid));
            assert(old.task(p).memory_set.frames().disjoint(old.task(pid).memory_set.frames()));
            assert(old.task(p).memory_set.owned_under(&old.frames));
        }
        assert forall|p: usize| #[trigger] self.alive(p) implies self.task(p).memory_set.owned_under(
            &self.frames,
        ) by {
            if p != pid {
                assert(self.task(p).memory_set.frames().subset_of(rest));
            }
        }
        assert forall|p: usize, q: usize|
            #![trigger self.alive(p), self.alive(q)]
            self.alive(p) && self.alive(q) && p != q implies self.task(p).memory_set.frames().disjoint(
            self.task(q).memory_set.frames(),
        ) by {
            assert(old.alive(p) && old.alive(q));
            if p == pid {
                assert(self.task(q).memory_set.frames().subset_of(rest));
            } else if q == pid {
                assert(self.task(p).memory_set.frames().subset_of(rest));
            }
        }
    }

    /// Where every task kept its parent and its children, the families are
    /// still well formed.
    pub proof fn lemma_family_same(&self, old: &Self)
        requires
            old.family_wf(),
            self.same_pids(old),
            forall|pid: usize| #[trigger]
                old.alive(pid) ==> self.task(pid).parent == old.task(pid).parent && self.task(
                    pid,
                ).children@ == old.task(pid).children@,
        ensures
            self.family_wf(),
    {
        assert forall|p: usize| #[trigger] self.alive(p) implies (p == IDLE_PID <==> self.task(p).parent
            is None) && self.task(p).parent != Some(p) by {
            assert(old.alive(p));
        }
        assert forall|p: usize| #[trigger]
            self.alive(p) && self.task(p).parent is Some implies self.alive(self.task(p).parent->0)
            && self.task(self.task(p).parent->0).children@.contains(p) by {
            assert(old.alive(p));
            let parent = old.task(p).parent->0;
            assert(old.alive(parent));
        }
        assert forall|p: usize, i: int|
            self.alive(p) && 0 <= i < self.task(p).children@.len() implies self.alive(
            #[trigger] self.task(p).children@[i],
        ) && self.task(self.task(p).children@[i]).parent == Some(p) by {
            assert(old.alive(p));
            let child = old.task(p).children@[i];
            assert(old.alive(child));
        }
        assert forall|p: usize| #[trigger] self.alive(p) implies self.task(p).children@.no_duplicates() by {
            assert(old.alive(p));
        }
        if self.tasks@.len() > 0 {
            assert(old.alive(IDLE_PID));
        }
    }

    /// Where every task that runs ran before, or is the one task `fresh`
    /// that was put on a hart on which none ran, no two tasks are running.
    pub proof fn lemma_one_running(&self, old: &Self, fresh: usize)
        requires
            old.one_running(),
            forall|p: usize| #[trigger]
                self.has_status(p, TaskStatus::Running) ==> old.has_status(p, TaskStatus::Running) || (p
                    == fresh && old.none_running()),
        ensures
            self.one_running(),
    {
        assert forall|p: usize, q: usize|
            #![trigger self.has_status(p, TaskStatus::Running), self.has_status(q, TaskStatus::Running)]
            self.has_status(p, TaskStatus::Running) && self.has_status(q, TaskStatus::Running) implies p
            == q by {
            if old.none_running() {
                assert(!old.has_status(p, TaskStatus::Running));
                assert(!old.has_status(q, TaskStatus::Running));
            } else {
                assert(old.has_status(p, TaskStatus::Running) && old.has_status(q, TaskStatus::Running));
            }
        }
    }

    /// Where every task kept its status and the queue and the hart stayed,
    /// the scheduling is still well formed, and settled where it was.
    pub proof fn lemma_sched_same(&self, old: &Self)
        requires
            old.sched_wf(),
            self.same_pids(old),
            forall|pid: usize| #[trigger]
                old.alive(pid) ==> self.task(pid).task_status == old.task(pid).task_status,
            self.manager == old.manager,
            self.processor == old.processor,
        ensures
            self.sched_wf(),
            old.settled() ==> self.settled(),
            old.ready_queued() ==> self.ready_queued(),
            old.none_running() ==> self.none_running(),
    {
        assert forall|p: usize, status: TaskStatus|
            self.has_status(p, status) == old.has_status(p, status) by {
            assert(self.alive(p) == old.alive(p));
        }
        assert forall|p: usize| #[trigger] holds(self.manager@, p) implies self.has_status(
            p,
            TaskStatus::Ready,
        ) by {
            assert(old.has_status(p, TaskStatus::Ready));
        }
        self.lemma_one_running(old, 0);
        if old.ready_queued() {
            assert forall|p: usize| #[trigger] self.has_status(p, TaskStatus::Ready) implies holds(
                self.manager@,
                p,
            ) by {
                assert(old.has_status(p, TaskStatus::Ready));
            }
        }
        if old.settled() {
            assert forall|p: usize| #[trigger]
                self.has_status(p, TaskStatus::Running) implies self.processor.current == Some(p) by {
                assert(old.has_status(p, TaskStatus::Running));
            }
        }
        if old.none_running() {
            assert forall|p: usize| !#[trigger] self.has_status(p, TaskStatus::Running) by {
                assert(!old.has_status(p, TaskStatus::Running));
            }
        }
    }

    /// Where every task stayed well formed in its slot, the tasks are still
    /// well formed.
    pub proof fn lemma_tasks_kept(&self, old: &Self)
        requires
            old.tasks_wf(),
            self.same_pids(old),
            self.platform == old.platform,
            forall|pid: usize| #[trigger]
                old.alive(pid) ==> self.task(pid).wf() && self.task(pid).pid == pid && self.task(
                    pid,
                ).task_status != TaskStatus::UnInit && self.task(pid).memory_set.trampoline_frame()
                    == old.task(pid).memory_set.trampoline_frame(),
        ensures
            self.tasks_wf(),
    {
        assert forall|pid: usize| #[trigger] self.alive(pid) implies self.task(pid).wf() && self.task(
            pid,
        ).pid == pid && self.task(pid).task_status != TaskStatus::UnInit && self.task(
            pid,
        ).memory_set.trampoline_frame() == self.platform.trampoline by {
            assert(old.alive(pid));
        }
    }

    /// A kernel without tasks, with an idle hart and the frames
    /// `[base, end)` to hand out.
    pub fn new(platform: Platform, base: usize, end: usize, apps: Vec<App>) -> (kernel: Self)
        requires
            platform.trampoline.0 < PPN_LIMIT,
            base <= end <= PPN_LIMIT,
        ensures
            kernel.wf(),
            kernel.settled(),
            kernel.tasks@.len() == 0,
            kernel.manager@.len() == 0,
            kernel.processor.current is None,
            kernel.processor.idle_task_cx.is_zero(),
            kernel.frames.available() == end - base,
            kernel.apps == apps,
            kernel.platform == platform,
            kernel.time_us == 0,
    {
        Self {
            tasks: Vec::new(),
            manager: TaskManager::new(),
            processor: Processor::new(),
            frames: FrameAllocator::new(base, end),
            apps,
            platform,
            time_us: 0,
        }
    }
}

} // verus!
