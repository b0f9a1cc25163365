//! No ready task starves. A task in the ready queue waits behind the tasks
//! before it; each dispatch round takes a task from before it or moves a
//! task before it one pass closer to it, so its turn comes after a bounded
//! number of rounds.

use vstd::prelude::*;
use crate::task::fairness::{after_rounds, dispatch};
use crate::task::manager::{
    advance,
    ascending,
    dequeue,
    distinct_pids,
    holds,
    lemma_dequeue_keeps_order,
    lemma_enqueue_keeps_order,
    lemma_rank_splits,
    rank,
    ReadyTask,
};

verus! {

/// How far the first `upto` tasks of the queue are behind the stride
/// `target`, taken together.
pub open spec fn gap_sum(q: Seq<ReadyTask>, upto: int, target: int) -> int
    decreases upto,
{
    if upto <= 0 {
        0
    } else {
        gap_sum(q, upto - 1, target) + (target - q[upto - 1].stride)
    }
}

/// What the task at `index` waits for, where no pass is less than
/// `min_pass`: one least pass for each task before it, and the distance of
/// each of them to it.
pub open spec fn wait_bound(q: Seq<ReadyTask>, index: int, min_pass: u64) -> int {
    index * min_pass + gap_sum(q, index, q[index].stride as int)
}

/// The tasks before a task of an ascending queue are not ahead of it.
proof fn lemma_gap_sum_nonnegative(q: Seq<ReadyTask>, upto: int, index: int)
    requires
        ascending(q),
        0 <= upto <= index < q.len(),
    ensures
        gap_sum(q, upto, q[index].stride as int) >= 0,
    decreases upto,
{
    if upto > 0 {
        lemma_gap_sum_nonnegative(q, upto - 1, index);
    }
}

/// The distances depend on the first `upto` tasks alone.
proof fn lemma_gap_sum_same(a: Seq<ReadyTask>, b: Seq<ReadyTask>, upto: int, target: int, shift: int)
    requires
        0 <= upto <= a.len(),
        upto <= b.len(),
        forall|i: int| 0 <= i < upto ==> (#[trigger] b[i]).stride == a[i].stride - shift,
    ensures
        gap_sum(b, upto, target - shift) == gap_sum(a, upto, target),
    decreases upto,
{
    if upto > 0 {
        lemma_gap_sum_same(a, b, upto - 1, target, shift);
    }
}

/// The distances without the first task.
proof fn lemma_gap_sum_drop_first(q: Seq<ReadyTask>, upto: int, target: int)
    requires
        0 <= upto < q.len(),
    ensures
        gap_sum(q, upto + 1, target) == (target - q[0].stride) + gap_sum(q.drop_first(), upto, target),
    decreases upto,
{
    let rest = q.drop_first();
    assert(gap_sum(q, upto + 1, target) == gap_sum(q, upto, target) + (target - q[upto].stride));
    if upto > 0 {
        lemma_gap_sum_drop_first(q, upto - 1, target);
        assert(rest[upto - 1] == q[upto]);
        assert(gap_sum(rest, upto, target) == gap_sum(rest, upto - 1, target) + (target - rest[upto
            - 1].stride));
    } else {
        assert(gap_sum(q, 0, target) == 0);
        assert(gap_sum(rest, 0, target) == 0);
    }
}

/// The distances after a task went in among the first tasks.
proof fn lemma_gap_sum_insert(q: Seq<ReadyTask>, at: int, task: ReadyTask, upto: int, target: int)
    requires
        0 <= at <= upto <= q.len(),
    ensures
        gap_sum(q.insert(at, task), upto + 1, target) == gap_sum(q, upto, target) + (target
            - task.stride),
    decreases upto - at,
{
    let grown = q.insert(at, task);
    if upto == at {
        assert(grown[at] == task);
        lemma_gap_sum_same(q, grown, at, target, 0);
    } else {
        lemma_gap_sum_insert(q, at, task, upto - 1, target);
        assert(grown[upto] == q[upto - 1]);
    }
}

/// A dispatch round that does not take the task at `index` brings its turn
/// closer by one least pass. Returns the index of the task after the round.
proof fn lemma_round_shortens_wait(q: Seq<ReadyTask>, index: int, min_pass: u64) -> (after: int)
    requires
        ascending(q),
        distinct_pids(q),
        0 < index < q.len(),
        forall|i: int| 0 <= i < q.len() ==> (#[trigger] q[i]).pass >= min_pass,
    ensures
        ascending(dispatch(q)),
        distinct_pids(dispatch(q)),
        dispatch(q).len() == q.len(),
        forall|i: int| 0 <= i < q.len() ==> (#[trigger] dispatch(q)[i]).pass >= min_pass,
        0 <= after < q.len(),
        dispatch(q)[after].pid == q[index].pid,
        wait_bound(dispatch(q), after, min_pass) + min_pass <= wait_bound(q, index, min_pass),
{
    let origin = q[0].stride;
    let rest = dequeue(q);
    let front = advance(q[0]);
    let target = q[index].stride as int;
    lemma_dequeue_keeps_order(q);
    assert forall|i: int| 0 <= i < rest.len() implies (#[trigger] rest[i]).pid == q[i + 1].pid
        && rest[i].pass == q[i + 1].pass && rest[i].stride == q[i + 1].stride - origin by {
        assert(q.drop_first()[i] == q[i + 1]);
    }
    assert(!holds(rest, front.pid));
    lemma_enqueue_keeps_order(rest, front);
    lemma_rank_splits(rest, front.stride);
    let at = rank(rest, front.stride);
    let next = dispatch(q);
    assert(next == rest.insert(at, front));
    assert forall|i: int| 0 <= i < q.len() implies (#[trigger] next[i]).pass >= min_pass by {
        if i < at {
            assert(next[i] == rest[i]);
        } else if i > at {
            assert(next[i] == rest[i - 1]);
        }
    }
    lemma_gap_sum_drop_first(q, index - 1, target);
    lemma_gap_sum_same(q.drop_first(), rest, index - 1, target, origin as int);
    assert(gap_sum(rest, index - 1, target - origin) + (target - origin) == gap_sum(q, index, target));
    if at <= index - 1 {
        assert(next[index] == rest[index - 1]);
        lemma_gap_sum_insert(rest, at, front, index - 1, target - origin);
        assert(rest[index - 1].stride > front.stride);
        index
    } else {
        assert(next[index - 1] == rest[index - 1]);
        assert forall|i: int| 0 <= i < index - 1 implies (#[trigger] next[i]).stride
            == rest[i].stride - 0 by {
            assert(next[i] == rest[i]);
        }
        lemma_gap_sum_same(rest, next, index - 1, target - origin, 0);
        assert((index - 1) * min_pass + min_pass == index * min_pass) by (nonlinear_arith);
        index - 1
    }
}

/// The rounds after the first are the rounds of the queue after one round.
proof fn lemma_rounds_shift(q: Seq<ReadyTask>, n: nat)
    ensures
        after_rounds(q, n + 1) == after_rounds(dispatch(q), n),
    decreases n,
{
    assert(after_rounds(q, n + 1) == dispatch(after_rounds(q, n)));
    if n > 0 {
        lemma_rounds_shift(q, (n - 1) as nat);
        assert(after_rounds(dispatch(q), n) == dispatch(after_rounds(dispatch(q), (n - 1) as nat)));
    } else {
        assert(after_rounds(q, 0) == q);
        assert(after_rounds(dispatch(q), 0) == dispatch(q));
    }
}

/// The wait of a ready task is bounded. Where no pass is less than
/// `min_pass`, a task that stands at `index` in the ready queue and is not
/// dispatched in `n` rounds has waited no longer than its bound: one round
/// for each task before it, and the rounds that it takes to charge those
/// tasks the distance to it.
pub proof fn lemma_bounded_wait(q: Seq<ReadyTask>, index: int, min_pass: u64, n: nat)
    requires
        ascending(q),
        distinct_pids(q),
        0 <= index < q.len(),
        min_pass >= 1,
        forall|i: int| 0 <= i < q.len() ==> (#[trigger] q[i]).pass >= min_pass,
        forall|r: nat| r < n ==> (#[trigger] after_rounds(q, r))[0].pid != q[index].pid,
    ensures
        n * min_pass <= wait_bound(q, index, min_pass),
    decreases n,
{
    lemma_gap_sum_nonnegative(q, index, index);
    assert(index * min_pass >= 0) by (nonlinear_arith)
        requires
            index >= 0,
            min_pass >= 0,
    ;
    if n > 0 {
        assert(after_rounds(q, 0) == q);
        assert(index != 0);
        let after = lemma_round_shortens_wait(q, index, min_pass);
        let next = dispatch(q);
        assert forall|r: nat| r < (n - 1) as nat implies (#[trigger] after_rounds(next, r))[0].pid
            != next[after].pid by {
            lemma_rounds_shift(q, r);
            assert(after_rounds(q, r + 1)[0].pid != q[index].pid);
        }
        let fewer = (n - 1) as nat;
        lemma_bounded_wait(next, after, min_pass, fewer);
        assert(n * min_pass == fewer * min_pass + min_pass) by (nonlinear_arith)
            requires
                n == fewer + 1,
        ;
    } else {
        assert(n * min_pass == 0) by (nonlinear_arith)
            requires
                n == 0,
        ;
    }
}

} // verus!
