//! The time of the kernel. The clock of the machine is read outside the
//! kernel core; the kernel keeps the time that it was last told.

use vstd::prelude::*;
use crate::task::kernel::Kernel;

verus! {

/// Microseconds in a millisecond.
pub const USEC_PER_MSEC: usize = 1000;

/// Tells the kernel the time `now`, in microseconds.
pub fn set_time(kernel: &mut Kernel, now: usize)
    ensures
        final(kernel).time_us == now,
        final(kernel).tasks == old(kernel).tasks,
        final(kernel).manager == old(kernel).manager,
        final(kernel).processor == old(kernel).processor,
        final(kernel).frames == old(kernel).frames,
        final(kernel).apps == old(kernel).apps,
        final(kernel).platform == old(kernel).platform,
        old(kernel).wf() ==> final(kernel).wf(),
        old(kernel).settled() ==> final(kernel).settled(),
{
    kernel.time_us = now;
    proof {
        if old(kernel).wf() {
            kernel.lemma_frames_grew(old(kernel));
        }
        if old(kernel).settled() {
            assert forall|p: usize, status: crate::task::task::TaskStatus|
                kernel.has_status(p, status) == old(kernel).has_status(p, status) by {}
            assert(kernel.ready_queued()) by {
                assert forall|p: usize| #[trigger]
                    kernel.has_status(p, crate::task::task::TaskStatus::Ready) implies
                        crate::task::manager::holds(
                    kernel.manager@,
                    p,
                ) by {
                    assert(old(kernel).has_status(p, crate::task::task::TaskStatus::Ready));
                }
            }
            assert forall|p: usize| #[trigger]
                kernel.has_status(p, crate::task::task::TaskStatus::Running)
                    implies kernel.processor.current == Some(p) by {
                assert(old(kernel).has_status(p, crate::task::task::TaskStatus::Running));
            }
        }
    }
}

/// The time of the kernel in microseconds.
pub fn get_time_us(kernel: &Kernel) -> (now: usize)
    ensures
        now == kernel.time_us,
{
    kernel.time_us
}

/// The time of the kernel in milliseconds.
pub fn get_time_ms(kernel: &Kernel) -> (now: usize)
    ensures
        now == kernel.time_us / USEC_PER_MSEC,
{
    kernel.time_us / USEC_PER_MSEC
}

} // verus!
