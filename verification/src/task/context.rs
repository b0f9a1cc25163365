//! The task context: the registers that a switch between tasks saves.

use vstd::prelude::*;

verus! {

/// The registers that the callee saves, the return address and the stack
/// pointer of a task that is switched out.
#[derive(Clone, Copy, Debug)]
pub struct TaskContext {
    /// Address at which the task goes on.
    pub ra: usize,
    /// Stack pointer in the kernel stack of the task.
    pub sp: usize,
    /// The registers s0 to s11.
    pub s: [usize; 12],
}

impl TaskContext {
    /// Every register of the context is zero.
    pub open spec fn is_zero(&self) -> bool {
        &&& self.ra == 0
        &&& self.sp == 0
        &&& self.s@ == Seq::new(12, |i: int| 0usize)
    }

    /// A context of zeros, the source of the first switch.
    pub fn zero_init() -> (cx: Self)
        ensures
            cx.is_zero(),
    {
        let cx = Self { ra: 0, sp: 0, s: [0; 12] };
        assert(cx.s@ =~= Seq::new(12, |i: int| 0usize));
        cx
    }

    /// The context of a task that was never run: a switch to it goes to the
    /// return from a trap, at `trap_return`, on the kernel stack at
    /// `kstack_ptr`.
    pub fn goto_trap_return(kstack_ptr: usize, trap_return: usize) -> (cx: Self)
        ensures
            cx.ra == trap_return,
            cx.sp == kstack_ptr,
            cx.s@ == Seq::new(12, |i: int| 0usize),
    {
        let cx = Self { ra: trap_return, sp: kstack_ptr, s: [0; 12] };
        assert(cx.s@ =~= Seq::new(12, |i: int| 0usize));
        cx
    }
}

} // verus!
