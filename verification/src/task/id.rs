//! Process ids and the kernel stacks that go with them.

use vstd::prelude::*;
use crate::config::{KERNEL_STACK_SIZE, MAX_TASKS, PAGE_SIZE, TRAMPOLINE};

verus! {

/// Top of the kernel stack of the task `pid`: the stacks lie below the
/// trampoline, each with a free page above it.
pub open spec fn spec_kernel_stack_top(pid: usize) -> usize {
    (TRAMPOLINE - pid * (KERNEL_STACK_SIZE + PAGE_SIZE)) as usize
}

/// Bottom and top of the kernel stack of the task `pid`.
pub fn kernel_stack_position(pid: usize) -> (range: (usize, usize))
    requires
        pid < MAX_TASKS,
    ensures
        range.1 == spec_kernel_stack_top(pid),
        range.0 == range.1 - KERNEL_STACK_SIZE,
{
    assert(pid * (KERNEL_STACK_SIZE + PAGE_SIZE) <= 0xfff * 0x3000) by (nonlinear_arith)
        requires
            pid <= 0xfff,
            KERNEL_STACK_SIZE + PAGE_SIZE == 0x3000,
    ;
    assert(usize::MAX >= 0xffff_ffff) by {
        assert(usize::BITS == 32 || usize::BITS == 64);
    }
    let top = TRAMPOLINE - pid * (KERNEL_STACK_SIZE + PAGE_SIZE);
    (top - KERNEL_STACK_SIZE, top)
}

} // verus!
