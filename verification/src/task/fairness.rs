//! The fairness law of stride scheduling, stated over the ready queue.
//!
//! A dispatch round takes the front task out of the queue, lets it run for
//! one time slice and puts it back.

use vstd::prelude::*;
use crate::task::manager::{advance, ascending, dequeue, enqueue, rank, spec_pass_of, ReadyTask};

verus! {

/// The queue after one dispatch round.
pub open spec fn dispatch(q: Seq<ReadyTask>) -> Seq<ReadyTask>
    recommends
        q.len() > 0,
{
    enqueue(dequeue(q), advance(q[0]))
}

/// The queue after `n` dispatch rounds.
pub open spec fn after_rounds(q: Seq<ReadyTask>, n: nat) -> Seq<ReadyTask>
    decreases n,
{
    if n == 0 {
        q
    } else {
        dispatch(after_rounds(q, (n - 1) as nat))
    }
}

/// How often the task `pid` was dispatched in the first `n` rounds.
pub open spec fn times_run(q: Seq<ReadyTask>, n: nat, pid: usize) -> nat
    decreases n,
{
    if n == 0 {
        0
    } else {
        let before = times_run(q, (n - 1) as nat, pid);
        if after_rounds(q, (n - 1) as nat)[0].pid == pid {
            before + 1
        } else {
            before
        }
    }
}

/// The stride of the task `pid` in a queue of two tasks.
pub open spec fn stride_in(q: Seq<ReadyTask>, pid: usize) -> int {
    if q[0].pid == pid {
        q[0].stride as int
    } else {
        q[1].stride as int
    }
}

/// The queue holds the two tasks, with their passes, in ascending order.
pub open spec fn pair_state(q: Seq<ReadyTask>, a: ReadyTask, b: ReadyTask) -> bool {
    &&& q.len() == 2
    &&& ascending(q)
    &&& {
        ||| q[0].pid == a.pid && q[0].pass == a.pass && q[1].pid == b.pid && q[1].pass == b.pass
        ||| q[0].pid == b.pid && q[0].pass == b.pass && q[1].pid == a.pid && q[1].pass == a.pass
    }
}

/// One round on two tasks: the front task gains its pass on the other.
proof fn lemma_dispatch_pair(q: Seq<ReadyTask>, a: ReadyTask, b: ReadyTask)
    requires
        a.pid != b.pid,
        pair_state(q, a, b),
        -b.pass <= stride_in(q, a.pid) - stride_in(q, b.pid) <= a.pass,
    ensures
        pair_state(dispatch(q), a, b),
        q[0].pid == a.pid ==> stride_in(dispatch(q), a.pid) - stride_in(dispatch(q), b.pid)
            == stride_in(q, a.pid) - stride_in(q, b.pid) + a.pass,
        q[0].pid == b.pid ==> stride_in(dispatch(q), a.pid) - stride_in(dispatch(q), b.pid)
            == stride_in(q, a.pid) - stride_in(q, b.pid) - b.pass,
        -b.pass <= stride_in(dispatch(q), a.pid) - stride_in(dispatch(q), b.pid) <= a.pass,
{
    reveal_with_fuel(rank, 3);
    let rest = dequeue(q);
    let front = advance(q[0]);
    assert(q.drop_first().len() == 1);
    assert(q.drop_first()[0] == q[1]);
    assert(rest.len() == 1);
    assert(rest[0].pid == q[1].pid && rest[0].pass == q[1].pass);
    assert(rest[0].stride == q[1].stride - q[0].stride);
    assert(rest.drop_first().len() == 0);
    let r = dispatch(q);
    if rest[0].stride > front.stride {
        assert(rank(rest, front.stride) == 0);
        assert(r =~= seq![front, rest[0]]);
    } else {
        assert(rank(rest, front.stride) == 1);
        assert(r =~= seq![rest[0], front]);
    }
}

/// After any number of rounds on two tasks that started level, the queue
/// still holds both, and the distance between their strides is the distance
/// between what each was charged.
proof fn lemma_rounds_pair(a: ReadyTask, b: ReadyTask, n: nat)
    requires
        a.pid != b.pid,
        a.stride == b.stride,
    ensures
        pair_state(after_rounds(seq![a, b], n), a, b),
        times_run(seq![a, b], n, a.pid) + times_run(seq![a, b], n, b.pid) == n,
        stride_in(after_rounds(seq![a, b], n), a.pid) - stride_in(after_rounds(seq![a, b], n), b.pid)
            == times_run(seq![a, b], n, a.pid) * a.pass - times_run(seq![a, b], n, b.pid) * b.pass,
        -b.pass <= times_run(seq![a, b], n, a.pid) * a.pass - times_run(seq![a, b], n, b.pid)
            * b.pass <= a.pass,
    decreases n,
{
    let start = seq![a, b];
    if n == 0 {
        assert(start[0] == a && start[1] == b);
        assert(times_run(start, 0, a.pid) * a.pass == 0) by (nonlinear_arith)
            requires
                times_run(start, 0, a.pid) == 0,
        ;
        assert(times_run(start, 0, b.pid) * b.pass == 0) by (nonlinear_arith)
            requires
                times_run(start, 0, b.pid) == 0,
        ;
    } else {
        let m = (n - 1) as nat;
        lemma_rounds_pair(a, b, m);
        let q = after_rounds(start, m);
        lemma_dispatch_pair(q, a, b);
        let na = times_run(start, m, a.pid);
        let nb = times_run(start, m, b.pid);
        assert((na + 1) * a.pass == na * a.pass + a.pass) by (nonlinear_arith);
        assert((nb + 1) * b.pass == nb * b.pass + b.pass) by (nonlinear_arith);
    }
}

/// Stride fairness. Two ready tasks start level and are dispatched `n` times
/// in all. Whatever their passes, the distances charged to the two never
/// differ by more than one pass: the task `a` is never more than one of its
/// own passes ahead, nor more than one pass of `b` behind.
pub proof fn lemma_stride_fairness(a: ReadyTask, b: ReadyTask, n: nat)
    requires
        a.pid != b.pid,
        a.stride == b.stride,
    ensures
        times_run(seq![a, b], n, a.pid) + times_run(seq![a, b], n, b.pid) == n,
        -b.pass <= times_run(seq![a, b], n, a.pid) * a.pass - times_run(seq![a, b], n, b.pid)
            * b.pass <= a.pass,
{
    lemma_rounds_pair(a, b, n);
}

/// A task of twice the priority has half the pass, rounded down.
pub proof fn lemma_double_priority_halves_pass(priority: usize)
    requires
        priority >= 1,
        2 * priority <= usize::MAX,
    ensures
        spec_pass_of((2 * priority) as usize) == spec_pass_of(priority) / 2,
{
    let p = priority as u64;
    assert(crate::config::BIG_STRIDE / (2 * p) as u64 == (crate::config::BIG_STRIDE / p) / 2) by {
        vstd::arithmetic::div_mod::lemma_div_denominator(crate::config::BIG_STRIDE as int, p as int, 2);
        assert(p * 2 == 2 * p);
    }
}

/// Stride fairness for priorities. Of two ready tasks that start level, the
/// first with twice the priority of the second, the first is dispatched
/// about twice as often: twice the number of dispatches of the second and
/// the number of dispatches of the first differ by less than three. This
/// holds for ever where the pass of the second is twice the pass of the
/// first, and where the division has left it one above, as long as the
/// second has run less often than twice the pass of the first: by then the
/// rounding has not added up to a dispatch.
pub proof fn lemma_double_priority_runs_twice(a: ReadyTask, b: ReadyTask, n: nat)
    requires
        a.pid != b.pid,
        a.stride == b.stride,
        a.pass >= 1,
        b.pass == 2 * a.pass || b.pass == 2 * a.pass + 1,
        b.pass == 2 * a.pass || times_run(seq![a, b], n, b.pid) < 2 * a.pass,
    ensures
        times_run(seq![a, b], n, a.pid) + times_run(seq![a, b], n, b.pid) == n,
        -2 <= times_run(seq![a, b], n, a.pid) - 2 * times_run(seq![a, b], n, b.pid) <= 2,
{
    lemma_rounds_pair(a, b, n);
    let na = times_run(seq![a, b], n, a.pid) as int;
    let nb = times_run(seq![a, b], n, b.pid) as int;
    let pa = a.pass as int;
    let pb = b.pass as int;
    if pb == 2 * pa {
        assert(-2 <= na - 2 * nb <= 2) by (nonlinear_arith)
            requires
                pa >= 1,
                pb == 2 * pa,
                0 <= nb,
                0 <= na,
                -pb <= na * pa - nb * pb <= pa,
        ;
    } else {
        assert(-2 <= na - 2 * nb <= 2) by (nonlinear_arith)
            requires
                pa >= 1,
                pb == 2 * pa + 1,
                0 <= nb < 2 * pa,
                0 <= na,
                -pb <= na * pa - nb * pb <= pa,
        ;
    }
}

} // verus!
