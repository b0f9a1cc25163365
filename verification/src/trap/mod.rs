//! Traps: the trap context and the dispatch of traps to their handlers.
//!
//! A trap of the running task is a system call, a fault, or the end of its
//! time slice. A system call is served and its result written into the
//! trap context of the task. A fault ends the task as an exit with the code
//! -1 would; the kernel goes on. At the end of a time slice the task goes
//! back into the ready queue and the task that has run least runs next.

pub mod context;

use vstd::prelude::*;
use riscv::interrupt::supervisor::{Exception, Interrupt};
use riscv::interrupt::Trap;
use riscv::register::scause::Scause;
use riscv::{ExceptionNumber, InterruptNumber};
use crate::syscall::process::{sys_exit_post, sys_yield_post};
use crate::syscall::{as_register, served, spec_as_register, syscall, SyscallResult, SYSCALL_EXIT};
use crate::task::kernel::{Kernel, IDLE_PID};
use crate::task::task::TaskControlBlock;
use crate::task::{exit_current_and_run_next, suspend_current_and_run_next};
use crate::trap::context::{TrapContext, REG_A0, REG_A1, REG_A2, REG_A7};

verus! {

/// The causes of a trap that the kernel tells apart.
#[derive(Clone, Copy, Debug, PartialEq, Eq, Structural)]
pub enum TrapCause {
    /// A system call of a task.
    UserEnvCall,
    /// A store to an address that may not be written.
    StoreFault,
    /// A store to a page that is unmapped or may not be written.
    StorePageFault,
    /// A load from an address that may not be read.
    LoadFault,
    /// A load from a page that is unmapped or may not be read.
    LoadPageFault,
    /// An instruction that a task may not execute.
    IllegalInstruction,
    /// The timer of the supervisor.
    SupervisorTimer,
    /// Any other cause.
    Other,
}

/// The exit code of a task that the kernel ended for a fault.
pub const FAULT_EXIT_CODE: i32 = -1;

/// The cause register tells of an interrupt: its highest bit is set.
pub open spec fn spec_is_interrupt(bits: usize) -> bool {
    bits > isize::MAX
}

/// The code of the cause register: its bits without the highest.
pub open spec fn spec_cause_code(bits: usize) -> usize {
    if bits > isize::MAX {
        (bits - isize::MAX - 1) as usize
    } else {
        bits
    }
}

/// The exception of the code `code`, as far as the kernel tells exceptions
/// apart.
pub open spec fn spec_exception_cause(code: usize) -> TrapCause {
    if code == 2 {
        TrapCause::IllegalInstruction
    } else if code == 5 {
        TrapCause::LoadFault
    } else if code == 7 {
        TrapCause::StoreFault
    } else if code == 8 {
        TrapCause::UserEnvCall
    } else if code == 13 {
        TrapCause::LoadPageFault
    } else if code == 15 {
        TrapCause::StorePageFault
    } else {
        TrapCause::Other
    }
}

/// The cause that the cause register `bits` tells of.
pub open spec fn spec_trap_cause(bits: usize) -> TrapCause {
    if spec_is_interrupt(bits) {
        if spec_cause_code(bits) == 5 {
            TrapCause::SupervisorTimer
        } else {
            TrapCause::Other
        }
    } else {
        spec_exception_cause(spec_cause_code(bits))
    }
}

/// Splits the cause register into the kind of the trap and its code, by
/// `Scause::cause` of the crate `riscv` on the register built by
/// `Scause::from_bits`. The contract claims that the highest bit of the
/// register tells an interrupt from an exception and that the other bits
/// are the code. The crate takes bit 63 for the highest, and bit 31 where
/// it is built for RISC-V of 32 bits: the claim is for machines whose
/// registers are that wide.
#[verifier::external_body]
fn raw_cause(bits: usize) -> (raw: (bool, usize))
    ensures
        raw.0 == spec_is_interrupt(bits),
        raw.1 == spec_cause_code(bits),
{
    match Scause::from_bits(bits).cause() {
        Trap::Interrupt(code) => (true, code),
        Trap::Exception(code) => (false, code),
    }
}

/// Names the exception of the code `code`, by `Exception::from_number` of
/// the crate `riscv`. The contract claims the numbers of the six exceptions
/// that the kernel tells apart: 2 for an illegal instruction, 5 and 7 for a
/// load and a store fault, 8 for a call from user mode, 13 and 15 for a
/// load and a store page fault.
#[verifier::external_body]
fn exception_cause(code: usize) -> (cause: TrapCause)
    ensures
        cause == spec_exception_cause(code),
{
    match Exception::from_number(code) {
        Ok(Exception::IllegalInstruction) => TrapCause::IllegalInstruction,
        Ok(Exception::LoadFault) => TrapCause::LoadFault,
        Ok(Exception::StoreFault) => TrapCause::StoreFault,
        Ok(Exception::UserEnvCall) => TrapCause::UserEnvCall,
        Ok(Exception::LoadPageFault) => TrapCause::LoadPageFault,
        Ok(Exception::StorePageFault) => TrapCause::StorePageFault,
        _ => TrapCause::Other,
    }
}

/// Tells whether the interrupt of the code `code` is the timer of the
/// supervisor, by `Interrupt::from_number` of the crate `riscv`. The
/// contract claims that this interrupt has the number 5.
#[verifier::external_body]
fn is_supervisor_timer(code: usize) -> (yes: bool)
    ensures
        yes == (code == 5),
{
    match Interrupt::from_number(code) {
        Ok(Interrupt::SupervisorTimer) => true,
        _ => false,
    }
}

/// The cause that the cause register `bits` tells of.
#[verifier::when_used_as_spec(spec_trap_cause)]
pub fn trap_cause(bits: usize) -> (cause: TrapCause)
    ensures
        cause == spec_trap_cause(bits),
{
    let (interrupt, code) = raw_cause(bits);
    if interrupt {
        if is_supervisor_timer(code) {
            TrapCause::SupervisorTimer
        } else {
            TrapCause::Other
        }
    } else {
        exception_cause(code)
    }
}

/// The cause is a fault of a task, which ends the task.
pub open spec fn spec_is_fault(cause: TrapCause) -> bool {
    ||| cause == TrapCause::StoreFault
    ||| cause == TrapCause::StorePageFault
    ||| cause == TrapCause::LoadFault
    ||| cause == TrapCause::LoadPageFault
    ||| cause == TrapCause::IllegalInstruction
}

/// Tells whether the cause is a fault of a task.
#[verifier::when_used_as_spec(spec_is_fault)]
pub fn is_fault(cause: TrapCause) -> (yes: bool)
    ensures
        yes == spec_is_fault(cause),
{
    match cause {
        TrapCause::StoreFault => true,
        TrapCause::StorePageFault => true,
        TrapCause::LoadFault => true,
        TrapCause::LoadPageFault => true,
        TrapCause::IllegalInstruction => true,
        _ => false,
    }
}

/// What came of a trap.
pub enum TrapOutcome {
    /// A system call was served, with this result.
    Syscall(SyscallResult),
    /// The task was ended for a fault; the task given, if any, runs next.
    Killed(Option<usize>),
    /// The time slice of the task ended, the timer is to be set anew, and
    /// the task given runs next.
    Preempted(usize),
}

/// The address of the instruction behind the call instruction at `sepc`.
pub open spec fn spec_next_instruction(sepc: usize) -> usize {
    if sepc <= usize::MAX - 4 {
        (sepc + 4) as usize
    } else {
        (sepc + 4 - usize::MAX - 1) as usize
    }
}

/// The address of the instruction behind the call instruction at `sepc`.
#[verifier::when_used_as_spec(spec_next_instruction)]
pub fn next_instruction(sepc: usize) -> (next: usize)
    ensures
        next == spec_next_instruction(sepc),
{
    if sepc <= usize::MAX - 4 {
        sepc + 4
    } else {
        sepc - (usize::MAX - 3)
    }
}

/// The number of the system call that the running task asks for.
pub open spec fn pending_syscall(kernel: &Kernel) -> usize {
    kernel.task(kernel.current()).trap_cx.x@[REG_A7 as int]
}

/// The kernel can handle a trap of the running task with the cause register
/// `scause`: the cause is one that the kernel knows, and the first task
/// neither exits nor faults. Whatever number a task asks for as a system
/// call, the kernel handles the trap.
pub open spec fn spec_can_handle(kernel: &Kernel, scause: usize) -> bool {
    let cause = spec_trap_cause(scause);
    if cause == TrapCause::UserEnvCall {
        pending_syscall(kernel) == SYSCALL_EXIT ==> kernel.current() != IDLE_PID
    } else if spec_is_fault(cause) {
        kernel.current() != IDLE_PID
    } else {
        cause == TrapCause::SupervisorTimer
    }
}

/// Tells whether the kernel can handle a trap of the running task with the
/// cause register `scause`.
pub fn can_handle(kernel: &Kernel, scause: usize) -> (yes: bool)
    requires
        kernel.serving(),
    ensures
        yes == spec_can_handle(kernel, scause),
{
    let pid = kernel.processor.current.unwrap();
    proof {
        assert(kernel.alive(pid));
    }
    let cause = trap_cause(scause);
    match cause {
        TrapCause::UserEnvCall => {
            let id = match &kernel.tasks[pid] {
                Some(task) => task.trap_cx.x[REG_A7],
                None => 0,
            };
            id != SYSCALL_EXIT || pid != IDLE_PID
        },
        TrapCause::SupervisorTimer => true,
        TrapCause::Other => false,
        _ => pid != IDLE_PID,
    }
}

/// The state is `old` with the saved program counter of the running task
/// moved behind its call instruction.
pub open spec fn entered(new: &Kernel, old: &Kernel) -> bool {
    let pid = old.current();
    &&& new.same_but_task(old, pid)
    &&& new.frames == old.frames
    &&& new.task(pid) == (TaskControlBlock {
        trap_cx: TrapContext {
            sepc: spec_next_instruction(old.task(pid).trap_cx.sepc),
            ..old.task(pid).trap_cx
        },
        ..old.task(pid)
    })
}

/// The state is `old` with the value that the system call returned, if it
/// returned one and the task `caller` is there to take it, in the register
/// of the return value of the task `caller`.
pub open spec fn returned(new: &Kernel, old: &Kernel, caller: usize, result: SyscallResult) -> bool {
    if old.alive(caller) && result is Done {
        &&& new.same_but_task(old, caller)
        &&& new.frames == old.frames
        &&& new.task(caller) == (TaskControlBlock {
            trap_cx: new.task(caller).trap_cx,
            ..old.task(caller)
        })
        &&& new.task(caller).trap_cx.x@ == old.task(caller).trap_cx.x@.update(
            REG_A0 as int,
            spec_as_register(result->Done_0),
        )
        &&& new.task(caller).trap_cx.sstatus == old.task(caller).trap_cx.sstatus
        &&& new.task(caller).trap_cx.sepc == old.task(caller).trap_cx.sepc
        &&& new.task(caller).trap_cx.kernel_satp == old.task(caller).trap_cx.kernel_satp
        &&& new.task(caller).trap_cx.kernel_sp == old.task(caller).trap_cx.kernel_sp
        &&& new.task(caller).trap_cx.trap_handler == old.task(caller).trap_cx.trap_handler
    } else {
        new.unchanged(old)
    }
}

/// A system call of the running task took the kernel from `old` to `new`
/// by way of three states: the program counter was moved, the call was
/// counted, the call was handled, and last the result was written.
pub open spec fn syscall_trapped(
    new: &Kernel,
    old: &Kernel,
    moved: &Kernel,
    counted: &Kernel,
    handled: &Kernel,
    result: SyscallResult,
) -> bool {
    let x = old.task(old.current()).trap_cx.x;
    &&& entered(moved, old)
    &&& served(handled, moved, counted, x[REG_A7 as int], [x[REG_A0 as int], x[REG_A1 as int],
        x[REG_A2 as int]], result)
    &&& returned(new, handled, old.current(), result)
}

/// What the handling of a trap with the cause register `scause` makes of
/// the kernel.
pub open spec fn trap_handler_post(new: &Kernel, old: &Kernel, scause: usize, outcome: TrapOutcome)
    -> bool {
    let cause = spec_trap_cause(scause);
    if cause == TrapCause::UserEnvCall {
        outcome matches TrapOutcome::Syscall(result) && exists|
            moved: Kernel,
            counted: Kernel,
            handled: Kernel,
        | syscall_trapped(new, old, &moved, &counted, &handled, result)
    } else if spec_is_fault(cause) {
        outcome matches TrapOutcome::Killed(next) && sys_exit_post(new, old, FAULT_EXIT_CODE, next)
    } else {
        outcome matches TrapOutcome::Preempted(next) && sys_yield_post(new, old, 0)
            && new.processor.current == Some(next)
    }
}

/// Moves the saved program counter of the running task behind its call
/// instruction and reads the number and the arguments of the system call.
pub fn enter_syscall(kernel: &mut Kernel) -> (call: (usize, [usize; 3]))
    requires
        old(kernel).serving(),
    ensures
        final(kernel).serving(),
        entered(final(kernel), old(kernel)),
        call.0 == old(kernel).task(old(kernel).current()).trap_cx.x[REG_A7 as int],
        call.1 == [
            old(kernel).task(old(kernel).current()).trap_cx.x[REG_A0 as int],
            old(kernel).task(old(kernel).current()).trap_cx.x[REG_A1 as int],
            old(kernel).task(old(kernel).current()).trap_cx.x[REG_A2 as int],
        ],
{
    let pid = kernel.processor.current.unwrap();
    proof {
        assert(kernel.alive(pid));
        assert(kernel.task(pid).wf());
    }
    let call = match &mut kernel.tasks[pid] {
        Some(task) => {
            task.trap_cx.sepc = next_instruction(task.trap_cx.sepc);
            (task.trap_cx.x[REG_A7], [task.trap_cx.x[REG_A0], task.trap_cx.x[REG_A1],
                task.trap_cx.x[REG_A2]])
        },
        None => (0, [0, 0, 0]),
    };
    proof {
        kernel.lemma_task_kept(old(kernel), pid);
    }
    call
}

/// Writes the value that a system call returned into the register of the
/// return value of the task `caller`, if the call returned one and the task
/// is there.
pub fn finish_syscall(kernel: &mut Kernel, caller: usize, result: &SyscallResult)
    requires
        old(kernel).wf(),
    ensures
        final(kernel).wf(),
        old(kernel).settled() ==> final(kernel).settled(),
        final(kernel).processor == old(kernel).processor,
        returned(final(kernel), old(kernel), caller, *result),
{
    let value = match result {
        SyscallResult::Done(value) => *value,
        _ => {
            proof {
                kernel.lemma_unchanged(old(kernel));
            }
            return;
        },
    };
    if caller >= kernel.tasks.len() || kernel.tasks[caller].is_none() {
        proof {
            kernel.lemma_unchanged(old(kernel));
        }
        return;
    }
    proof {
        assert(kernel.alive(caller));
        assert(kernel.task(caller).wf());
    }
    match &mut kernel.tasks[caller] {
        Some(task) => {
            task.trap_cx.x[REG_A0] = as_register(value);
        },
        None => {},
    }
    proof {
        kernel.lemma_task_kept(old(kernel), caller);
    }
}

/// Handles a trap of the running task, of which the cause register holds
/// `scause`: serves a system call, ends the task for a fault, or takes the
/// hart from the task at the end of its time slice.
pub fn trap_handler(kernel: &mut Kernel, scause: usize) -> (outcome: TrapOutcome)
    requires
        old(kernel).serving(),
        spec_can_handle(old(kernel), scause),
    ensures
        trap_handler_post(final(kernel), old(kernel), scause, outcome),
        final(kernel).wf(),
        final(kernel).settled(),
{
    let cause = trap_cause(scause);
    if let TrapCause::UserEnvCall = cause {
        let caller = kernel.processor.current.unwrap();
        let (id, args) = enter_syscall(kernel);
        let ghost moved = *kernel;
        proof {
            assert(moved.current() == old(kernel).current());
            assert(moved.alive(caller));
        }
        let result = syscall(kernel, id, args);
        let ghost handled = *kernel;
        finish_syscall(kernel, caller, &result);
        proof {
            let counted = choose|counted: Kernel| served(&handled, &moved, &counted, id, args, result);
            assert(syscall_trapped(kernel, old(kernel), &moved, &counted, &handled, result));
        }
        TrapOutcome::Syscall(result)
    } else if is_fault(cause) {
        TrapOutcome::Killed(exit_current_and_run_next(kernel, FAULT_EXIT_CODE))
    } else {
        let next = suspend_current_and_run_next(kernel);
        TrapOutcome::Preempted(next)
    }
}

} // verus!
