//! The ready queue: stride scheduling with priorities.
//!
//! Every ready task carries a `stride`, the distance it has run, and a
//! `pass`, the distance one dispatch adds. The queue is kept in ascending
//! order of stride, so the task that has run least is at the front. Strides
//! are relative: each fetch moves the origin to the stride of the task it
//! takes, so no stride ever grows beyond one pass above the smallest.

use vstd::prelude::*;
use std::collections::VecDeque;
use crate::config::BIG_STRIDE;
use crate::task::kernel::{with_stride, Kernel};
use crate::task::task::TaskStatus;

verus! {

/// The pass of a task of the given priority: the higher the priority, the
/// shorter the distance one dispatch adds.
pub open spec fn spec_pass_of(priority: usize) -> u64 {
    if priority == 0 {
        BIG_STRIDE
    } else {
        BIG_STRIDE / (priority as u64)
    }
}

/// The pass of a task of the given priority.
#[verifier::when_used_as_spec(spec_pass_of)]
pub fn pass_of(priority: usize) -> (pass: u64)
    ensures
        pass == spec_pass_of(priority),
{
    if priority == 0 {
        BIG_STRIDE
    } else {
        BIG_STRIDE / (priority as u64)
    }
}

/// What the scheduler keeps of a ready task.
#[derive(Clone, Copy, Debug, PartialEq, Eq, Structural)]
pub struct ReadyTask {
    /// The task's process id.
    pub pid: usize,
    /// Distance run so far, relative to the queue's origin.
    pub stride: u64,
    /// Distance added by one dispatch.
    pub pass: u64,
}

/// The strides never decrease from the front of the queue to its back.
pub open spec fn ascending(q: Seq<ReadyTask>) -> bool {
    forall|i: int, j: int| 0 <= i < j < q.len() ==> q[i].stride <= q[j].stride
}

/// No process id occurs twice in the queue.
pub open spec fn distinct_pids(q: Seq<ReadyTask>) -> bool {
    forall|i: int, j: int| 0 <= i < q.len() && 0 <= j < q.len() && i != j ==> q[i].pid != q[j].pid
}

/// The queue holds the task `pid`.
pub open spec fn holds(q: Seq<ReadyTask>, pid: usize) -> bool {
    exists|i: int| 0 <= i < q.len() && #[trigger] q[i].pid == pid
}

/// Length of the longest front part of the queue whose strides do not exceed
/// `stride`: where a task of that stride goes in, behind its equals.
pub open spec fn rank(q: Seq<ReadyTask>, stride: u64) -> int
    decreases q.len(),
{
    if q.len() == 0 || q[0].stride > stride {
        0
    } else {
        1 + rank(q.drop_first(), stride)
    }
}

/// The queue after `task` was added.
pub open spec fn enqueue(q: Seq<ReadyTask>, task: ReadyTask) -> Seq<ReadyTask> {
    q.insert(rank(q, task.stride), task)
}

/// The queue with its origin moved up by `origin`.
pub open spec fn rebase(q: Seq<ReadyTask>, origin: u64) -> Seq<ReadyTask> {
    Seq::new(
        q.len(),
        |i: int| ReadyTask { pid: q[i].pid, stride: (q[i].stride - origin) as u64, pass: q[i].pass },
    )
}

/// A task as it leaves the queue for the processor: it stood at the origin
/// and is charged one pass.
pub open spec fn advance(task: ReadyTask) -> ReadyTask {
    ReadyTask { pid: task.pid, stride: task.pass, pass: task.pass }
}

/// What stays in a non-empty queue after its front was fetched.
pub open spec fn dequeue(q: Seq<ReadyTask>) -> Seq<ReadyTask> {
    rebase(q.drop_first(), q[0].stride)
}

/// `rank` is the one position that has only strides up to `stride` before it
/// and a greater stride at it.
pub proof fn lemma_rank_position(q: Seq<ReadyTask>, stride: u64, k: int)
    requires
        0 <= k <= q.len(),
        forall|j: int| 0 <= j < k ==> q[j].stride <= stride,
        k < q.len() ==> q[k].stride > stride,
    ensures
        rank(q, stride) == k,
    decreases k,
{
    if k > 0 {
        let rest = q.drop_first();
        assert forall|j: int| 0 <= j < k - 1 implies rest[j].stride <= stride by {
            assert(rest[j] == q[j + 1]);
        }
        lemma_rank_position(rest, stride, k - 1);
    }
}

/// In an ascending queue everything from `rank` on has a greater stride.
pub proof fn lemma_rank_splits(q: Seq<ReadyTask>, stride: u64)
    requires
        ascending(q),
    ensures
        0 <= rank(q, stride) <= q.len(),
        forall|j: int| 0 <= j < rank(q, stride) ==> q[j].stride <= stride,
        forall|j: int| rank(q, stride) <= j < q.len() ==> q[j].stride > stride,
    decreases q.len(),
{
    if q.len() > 0 && q[0].stride <= stride {
        let rest = q.drop_first();
        assert(ascending(rest)) by {
            assert forall|i: int, j: int| 0 <= i < j < rest.len() implies rest[i].stride
                <= rest[j].stride by {
                assert(rest[i] == q[i + 1] && rest[j] == q[j + 1]);
            }
        }
        lemma_rank_splits(rest, stride);
        assert forall|j: int| 0 <= j < rank(q, stride) implies q[j].stride <= stride by {
            if j > 0 {
                assert(q[j] == rest[j - 1]);
            }
        }
        assert forall|j: int| rank(q, stride) <= j < q.len() implies q[j].stride > stride by {
            assert(q[j] == rest[j - 1]);
        }
    }
}

/// Adding a task keeps the queue ascending and its process ids distinct, and
/// the queue then holds the new task and whatever it held before.
pub proof fn lemma_enqueue_keeps_order(q: Seq<ReadyTask>, task: ReadyTask)
    requires
        ascending(q),
        distinct_pids(q),
        !holds(q, task.pid),
    ensures
        ascending(enqueue(q, task)),
        distinct_pids(enqueue(q, task)),
        enqueue(q, task).len() == q.len() + 1,
        forall|pid: usize| holds(enqueue(q, task), pid) <==> (pid == task.pid || holds(q, pid)),
{
    lemma_rank_splits(q, task.stride);
    let k = rank(q, task.stride);
    let r = enqueue(q, task);
    assert forall|pid: usize| holds(r, pid) <==> (pid == task.pid || holds(q, pid)) by {
        if holds(r, pid) {
            let i = choose|i: int| 0 <= i < r.len() && #[trigger] r[i].pid == pid;
            if i < k {
                assert(q[i].pid == pid);
            } else if i > k {
                assert(q[i - 1].pid == pid);
            }
        }
        if pid == task.pid {
            assert(r[k].pid == pid);
        }
        if holds(q, pid) {
            let i = choose|i: int| 0 <= i < q.len() && #[trigger] q[i].pid == pid;
            if i < k {
                assert(r[i].pid == pid);
            } else {
                assert(r[i + 1].pid == pid);
            }
        }
    }
    assert forall|i: int, j: int|
        0 <= i < r.len() && 0 <= j < r.len() && i != j implies r[i].pid != r[j].pid by {
        let qi = if i < k { i } else { i - 1 };
        let qj = if j < k { j } else { j - 1 };
        if i != k && j != k {
            assert(r[i] == q[qi] && r[j] == q[qj]);
        } else if i == k {
            assert(r[j] == q[qj]);
        } else {
            assert(r[i] == q[qi]);
        }
    }
}

/// Fetching keeps the rest of the queue ascending and its process ids
/// distinct, and the rest holds what the queue held but for the front.
pub proof fn lemma_dequeue_keeps_order(q: Seq<ReadyTask>)
    requires
        ascending(q),
        distinct_pids(q),
        q.len() > 0,
    ensures
        ascending(dequeue(q)),
        distinct_pids(dequeue(q)),
        dequeue(q).len() == q.len() - 1,
        forall|pid: usize| holds(dequeue(q), pid) <==> (pid != q[0].pid && holds(q, pid)),
        forall|i: int| 0 <= i < dequeue(q).len() ==> (#[trigger] dequeue(q)[i]).pid == q[i + 1].pid,
{
    let r = dequeue(q);
    assert forall|i: int| 0 <= i < r.len() implies (#[trigger] r[i]).pid == q[i + 1].pid && r[i].stride
        == q[i + 1].stride - q[0].stride by {
        assert(q.drop_first()[i] == q[i + 1]);
    }
    assert forall|pid: usize| holds(r, pid) <==> (pid != q[0].pid && holds(q, pid)) by {
        if holds(r, pid) {
            let i = choose|i: int| 0 <= i < r.len() && #[trigger] r[i].pid == pid;
            assert(q[i + 1].pid == pid);
        }
        if pid != q[0].pid && holds(q, pid) {
            let i = choose|i: int| 0 <= i < q.len() && #[trigger] q[i].pid == pid;
            assert(r[i - 1].pid == pid);
        }
    }
}

/// The ready queue of the scheduler.
pub struct TaskManager {
    ready_queue: VecDeque<ReadyTask>,
}

impl View for TaskManager {
    type V = Seq<ReadyTask>;

    /// The ready tasks, front first.
    closed spec fn view(&self) -> Seq<ReadyTask> {
        self.ready_queue@
    }
}

impl TaskManager {
    /// The queue is in ascending order of stride and holds no task twice.
    pub open spec fn wf(&self) -> bool {
        ascending(self@) && distinct_pids(self@)
    }

    /// An empty ready queue.
    pub fn new() -> (manager: Self)
        ensures
            manager@ == Seq::<ReadyTask>::empty(),
            manager.wf(),
    {
        Self { ready_queue: VecDeque::new() }
    }

    /// Number of ready tasks.
    pub fn len(&self) -> (n: usize)
        ensures
            n == self@.len(),
    {
        self.ready_queue.len()
    }

    /// Puts a task into the ready queue, behind every task whose stride does
    /// not exceed its own.
    pub fn add(&mut self, task: ReadyTask)
        requires
            old(self).wf(),
            !holds(old(self)@, task.pid),
        ensures
            final(self)@ == enqueue(old(self)@, task),
            final(self).wf(),
    {
        let n = self.ready_queue.len();
        let mut k: usize = 0;
        while k < n && self.ready_queue[k].stride <= task.stride
            invariant
                n == self.ready_queue@.len(),
                self.ready_queue@ == old(self).ready_queue@,
                k <= n,
                forall|j: int| 0 <= j < k ==> self.ready_queue@[j].stride <= task.stride,
            decreases n - k,
        {
            k += 1;
        }
        proof {
            lemma_rank_position(self.ready_queue@, task.stride, k as int);
            lemma_enqueue_keeps_order(self.ready_queue@, task);
        }
        self.ready_queue.insert(k, task);
    }

    /// Takes the task that has run least out of the queue, charges it one
    /// pass and moves the origin of the strides to where it stood. `None`
    /// when no task is ready.
    pub fn fetch(&mut self) -> (next: Option<ReadyTask>)
        requires
            old(self).wf(),
        ensures
            final(self).wf(),
            match next {
                Some(task) => {
                    &&& old(self)@.len() > 0
                    &&& task == advance(old(self)@[0])
                    &&& final(self)@ == dequeue(old(self)@)
                },
                None => old(self)@.len() == 0 && final(self)@ == old(self)@,
            },
    {
        let front = match self.ready_queue.pop_front() {
            Some(front) => front,
            None => {
                return None;
            },
        };
        let ghost rest = self.ready_queue@;
        let n = self.ready_queue.len();
        let mut k: usize = 0;
        while k < n
            invariant
                old(self).wf(),
                old(self)@.len() > 0,
                front == old(self)@[0],
                rest == old(self)@.drop_first(),
                n == rest.len(),
                k <= n,
                self.ready_queue@ == rest.subrange(k as int, n as int) + rebase(
                    rest.subrange(0, k as int),
                    front.stride,
                ),
            decreases n - k,
        {
            let ghost before = self.ready_queue@;
            let entry = match self.ready_queue.pop_front() {
                Some(entry) => entry,
                None => {
                    return None;
                },
            };
            assert(entry == rest[k as int]);
            assert(entry.stride >= front.stride) by {
                assert(entry == old(self)@[k + 1]);
            }
            let moved = ReadyTask {
                pid: entry.pid,
                stride: entry.stride - front.stride,
                pass: entry.pass,
            };
            self.ready_queue.push_back(moved);
            assert(self.ready_queue@ =~= rest.subrange(k + 1, n as int) + rebase(
                rest.subrange(0, k + 1),
                front.stride,
            ));
            k += 1;
        }
        proof {
            assert(self.ready_queue@ =~= dequeue(old(self)@));
            lemma_dequeue_keeps_order(old(self)@);
        }
        Some(ReadyTask { pid: front.pid, stride: front.pass, pass: front.pass })
    }
}

/// Puts the ready task `pid` into the ready queue.
pub fn add_task(kernel: &mut Kernel, pid: usize)
    requires
        old(kernel).wf(),
        old(kernel).has_status(pid, TaskStatus::Ready),
        !holds(old(kernel).manager@, pid),
    ensures
        final(kernel).wf(),
        final(kernel).manager@ == enqueue(old(kernel).manager@, old(kernel).task(pid).spec_ready_entry()),
        final(kernel).tasks == old(kernel).tasks,
        final(kernel).processor == old(kernel).processor,
        final(kernel).frames == old(kernel).frames,
        final(kernel).apps == old(kernel).apps,
        final(kernel).platform == old(kernel).platform,
        final(kernel).time_us == old(kernel).time_us,
        forall|p: usize| holds(final(kernel).manager@, p) <==> (p == pid || holds(old(kernel).manager@, p)),
{
    let entry = match &kernel.tasks[pid] {
        Some(task) => task.ready_entry(),
        None => ReadyTask { pid, stride: 0, pass: 0 },
    };
    proof {
        lemma_enqueue_keeps_order(kernel.manager@, entry);
    }
    kernel.manager.add(entry);
    proof {
        assert(kernel.tasks == old(kernel).tasks);
        kernel.lemma_tasks_kept(old(kernel));
        kernel.lemma_memory_same(old(kernel));
        kernel.lemma_family_same(old(kernel));
        assert forall|p: usize, status: TaskStatus|
            kernel.has_status(p, status) == old(kernel).has_status(p, status) by {}
        assert(kernel.sched_wf()) by {
            assert forall|p: usize| #[trigger] holds(kernel.manager@, p) implies kernel.has_status(
                p,
                TaskStatus::Ready,
            ) by {
                if p != pid {
                    assert(holds(old(kernel).manager@, p));
                    assert(old(kernel).has_status(p, TaskStatus::Ready));
                }
            }
            kernel.lemma_one_running(old(kernel), 0);
        }
    }
}

/// Takes the task that has run least out of the ready queue and charges it
/// one pass: its stride is now one pass above the origin of the queue.
/// `None`, and nothing changed, where no task is ready.
pub fn fetch_task(kernel: &mut Kernel) -> (next: Option<usize>)
    requires
        old(kernel).wf(),
    ensures
        final(kernel).wf(),
        match next {
            Some(pid) => {
                &&& old(kernel).manager@.len() > 0
                &&& pid == old(kernel).manager@[0].pid
                &&& old(kernel).has_status(pid, TaskStatus::Ready)
                &&& final(kernel).manager@ == dequeue(old(kernel).manager@)
                &&& final(kernel).tasks@ == with_stride(
                    old(kernel).tasks@,
                    pid,
                    old(kernel).manager@[0].pass,
                )
                &&& forall|p: usize|
                    holds(final(kernel).manager@, p) <==> (p != pid && holds(old(kernel).manager@, p))
            },
            None => old(kernel).manager@.len() == 0 && final(kernel).tasks == old(kernel).tasks
                && final(kernel).manager == old(kernel).manager,
        },
        final(kernel).processor == old(kernel).processor,
        final(kernel).frames == old(kernel).frames,
        final(kernel).apps == old(kernel).apps,
        final(kernel).platform == old(kernel).platform,
        final(kernel).time_us == old(kernel).time_us,
{
    if kernel.manager.len() == 0 {
        return None;
    }
    proof {
        lemma_dequeue_keeps_order(kernel.manager@);
        assert(holds(kernel.manager@, kernel.manager@[0].pid));
    }
    let entry = kernel.manager.fetch().unwrap();
    let pid = entry.pid;
    match &mut kernel.tasks[pid] {
        Some(task) => {
            task.stride = entry.stride;
        },
        None => {},
    }
    proof {
        assert(kernel.tasks@ =~= with_stride(old(kernel).tasks@, pid, old(kernel).manager@[0].pass));
        assert(old(kernel).alive(pid));
        assert(old(kernel).task(pid).wf());
        kernel.lemma_tasks_kept(old(kernel));
        kernel.lemma_memory_same(old(kernel));
        kernel.lemma_family_same(old(kernel));
        assert forall|p: usize, status: TaskStatus|
            kernel.has_status(p, status) == old(kernel).has_status(p, status) by {}
        assert(kernel.sched_wf()) by {
            assert forall|p: usize| #[trigger] holds(kernel.manager@, p) implies kernel.has_status(
                p,
                TaskStatus::Ready,
            ) by {
                assert(holds(old(kernel).manager@, p));
                assert(old(kernel).has_status(p, TaskStatus::Ready));
            }
            kernel.lemma_one_running(old(kernel), 0);
        }
    }
    Some(pid)
}

} // verus!
