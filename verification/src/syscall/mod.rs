//! The system calls: their numbers and their dispatch.
//!
//! A task asks for a system call by its number, with up to three
//! arguments. Every call is counted for the task and handed to its handler.
//! What the handler returns goes back to the task, but where the task has
//! exited, or where a file is to be read or written first.

pub mod fs;
pub mod info;
pub mod process;
pub mod spawn;
pub mod wait;

use vstd::prelude::*;
use crate::syscall::fs::{sys_read, sys_read_post, sys_write, sys_write_post, ReadRequest, WriteRequest};
use crate::syscall::info::{
    sys_get_time,
    sys_get_time_post,
    sys_task_info,
    sys_task_info_post,
    update_syscall_times,
    update_syscall_times_post,
};
use crate::syscall::process::{
    sys_exit,
    sys_exit_post,
    sys_getpid,
    sys_getpid_post,
    sys_mmap,
    sys_mmap_post,
    sys_munmap,
    sys_munmap_post,
    sys_sbrk,
    sys_sbrk_post,
    sys_set_priority,
    sys_set_priority_post,
    sys_yield,
    sys_yield_post,
};
use crate::syscall::spawn::{sys_exec, sys_exec_post, sys_fork, sys_fork_post, sys_spawn, sys_spawn_post};
use crate::syscall::wait::{sys_waitpid, sys_waitpid_post};
use crate::task::kernel::{Kernel, IDLE_PID};

verus! {

/// Number of the call to read from a file.
pub const SYSCALL_READ: usize = 63;

/// Number of the call to write to a file.
pub const SYSCALL_WRITE: usize = 64;

/// Number of the call to exit.
pub const SYSCALL_EXIT: usize = 93;

/// Number of the call to yield.
pub const SYSCALL_YIELD: usize = 124;

/// Number of the call to set the priority.
pub const SYSCALL_SET_PRIORITY: usize = 140;

/// Number of the call for the time.
pub const SYSCALL_GET_TIME: usize = 169;

/// Number of the call for the process id.
pub const SYSCALL_GETPID: usize = 172;

/// Number of the call to move the program break.
pub const SYSCALL_SBRK: usize = 214;

/// Number of the call to unmap memory.
pub const SYSCALL_MUNMAP: usize = 215;

/// Number of the call to fork.
pub const SYSCALL_FORK: usize = 220;

/// Number of the call to run another program.
pub const SYSCALL_EXEC: usize = 221;

/// Number of the call to map memory.
pub const SYSCALL_MMAP: usize = 222;

/// Number of the call to wait for a child.
pub const SYSCALL_WAITPID: usize = 260;

/// Number of the call to spawn a child.
pub const SYSCALL_SPAWN: usize = 400;

/// Number of the call for the information on the task.
pub const SYSCALL_TASK_INFO: usize = 410;

/// What came of a system call.
pub enum SyscallResult {
    /// The call is done; the value goes back to the task that called.
    Done(isize),
    /// The task that called has exited; the task given, if any, runs next.
    Exited(Option<usize>),
    /// The bytes are to be written to the file; the number of bytes that
    /// were written goes back to the task that called.
    Write(WriteRequest),
    /// The file is to be read into the range; the number of bytes that were
    /// read goes back to the task that called.
    Read(ReadRequest),
}

/// The number is the number of a system call.
pub open spec fn spec_supported(syscall_id: usize) -> bool {
    ||| syscall_id == SYSCALL_READ
    ||| syscall_id == SYSCALL_WRITE
    ||| syscall_id == SYSCALL_EXIT
    ||| syscall_id == SYSCALL_YIELD
    ||| syscall_id == SYSCALL_SET_PRIORITY
    ||| syscall_id == SYSCALL_GET_TIME
    ||| syscall_id == SYSCALL_GETPID
    ||| syscall_id == SYSCALL_SBRK
    ||| syscall_id == SYSCALL_MUNMAP
    ||| syscall_id == SYSCALL_FORK
    ||| syscall_id == SYSCALL_EXEC
    ||| syscall_id == SYSCALL_MMAP
    ||| syscall_id == SYSCALL_WAITPID
    ||| syscall_id == SYSCALL_SPAWN
    ||| syscall_id == SYSCALL_TASK_INFO
}

/// Tells whether the number is the number of a system call.
#[verifier::when_used_as_spec(spec_supported)]
pub fn supported(syscall_id: usize) -> (yes: bool)
    ensures
        yes == spec_supported(syscall_id),
{
    syscall_id == SYSCALL_READ || syscall_id == SYSCALL_WRITE || syscall_id == SYSCALL_EXIT
        || syscall_id == SYSCALL_YIELD || syscall_id == SYSCALL_SET_PRIORITY || syscall_id
        == SYSCALL_GET_TIME || syscall_id == SYSCALL_GETPID || syscall_id == SYSCALL_SBRK || syscall_id
        == SYSCALL_MUNMAP || syscall_id == SYSCALL_FORK || syscall_id == SYSCALL_EXEC || syscall_id
        == SYSCALL_MMAP || syscall_id == SYSCALL_WAITPID || syscall_id == SYSCALL_SPAWN || syscall_id
        == SYSCALL_TASK_INFO
}

/// The low 32 bits of a register as a signed number.
pub open spec fn spec_low_i32(value: usize) -> i32 {
    let low = value as int % 0x1_0000_0000;
    if low < 0x8000_0000 {
        low as i32
    } else {
        (low - 0x1_0000_0000) as i32
    }
}

/// The low 32 bits of a register as a signed number.
#[verifier::when_used_as_spec(spec_low_i32)]
pub fn low_i32(value: usize) -> (signed: i32)
    ensures
        signed == spec_low_i32(value),
{
    let low = (value as u64) % 0x1_0000_0000;
    if low < 0x8000_0000 {
        low as i32
    } else {
        (low as i64 - 0x1_0000_0000) as i32
    }
}

/// A register as a signed number: the upper half of the numbers of a
/// register stands for the negative numbers.
pub open spec fn spec_as_signed(value: usize) -> isize {
    if value <= isize::MAX {
        value as isize
    } else {
        (value - usize::MAX - 1) as isize
    }
}

/// A register as a signed number.
#[verifier::when_used_as_spec(spec_as_signed)]
pub fn as_signed(value: usize) -> (signed: isize)
    ensures
        signed == spec_as_signed(value),
{
    if value <= isize::MAX as usize {
        value as isize
    } else {
        -((usize::MAX - value) as isize) - 1
    }
}

/// A signed number as a register holds it.
pub open spec fn spec_as_register(value: isize) -> usize {
    if value >= 0 {
        value as usize
    } else {
        (value + usize::MAX + 1) as usize
    }
}

/// A signed number as a register holds it.
#[verifier::when_used_as_spec(spec_as_register)]
pub fn as_register(value: isize) -> (bits: usize)
    ensures
        bits == spec_as_register(value),
{
    if value >= 0 {
        value as usize
    } else {
        usize::MAX - ((-(value + 1)) as usize)
    }
}

/// The handler of the system call `syscall_id` took the kernel from `old` to
/// `new` on the arguments `args` and gave `result`. A number that is the
/// number of no system call has no handler: the call fails with -1 and
/// nothing has changed.
pub open spec fn dispatched(
    new: &Kernel,
    old: &Kernel,
    syscall_id: usize,
    args: [usize; 3],
    result: SyscallResult,
) -> bool {
    if syscall_id == SYSCALL_READ {
        new.unchanged(old) && match result {
            SyscallResult::Read(request) => sys_read_post(old, args[0], args[1], args[2], Some(request)),
            SyscallResult::Done(ret) => ret == -1 && sys_read_post(old, args[0], args[1], args[2], None),
            _ => false,
        }
    } else if syscall_id == SYSCALL_WRITE {
        new.unchanged(old) && match result {
            SyscallResult::Write(request) => sys_write_post(old, args[0], args[1], args[2], Some(request)),
            SyscallResult::Done(ret) => ret == -1 && sys_write_post(old, args[0], args[1], args[2], None),
            _ => false,
        }
    } else if syscall_id == SYSCALL_EXIT {
        result matches SyscallResult::Exited(next) && sys_exit_post(new, old, spec_low_i32(args[0]), next)
    } else if syscall_id == SYSCALL_YIELD {
        result matches SyscallResult::Done(ret) && sys_yield_post(new, old, ret)
    } else if syscall_id == SYSCALL_GET_TIME {
        result matches SyscallResult::Done(ret) && sys_get_time_post(new, old, args[0], args[1], ret)
    } else if syscall_id == SYSCALL_TASK_INFO {
        result matches SyscallResult::Done(ret) && sys_task_info_post(new, old, args[0], ret)
    } else if syscall_id == SYSCALL_MMAP {
        result matches SyscallResult::Done(ret) && sys_mmap_post(new, old, args[0], args[1], args[2], ret)
    } else if syscall_id == SYSCALL_MUNMAP {
        result matches SyscallResult::Done(ret) && sys_munmap_post(new, old, args[0], args[1], ret)
    } else if syscall_id == SYSCALL_SBRK {
        result matches SyscallResult::Done(ret) && sys_sbrk_post(new, old, spec_low_i32(args[0]), ret)
    } else if syscall_id == SYSCALL_SPAWN {
        result matches SyscallResult::Done(ret) && sys_spawn_post(new, old, args[0], ret)
    } else if syscall_id == SYSCALL_SET_PRIORITY {
        result matches SyscallResult::Done(ret) && sys_set_priority_post(
            new,
            old,
            spec_as_signed(args[0]),
            ret,
        )
    } else if syscall_id == SYSCALL_WAITPID {
        result matches SyscallResult::Done(ret) && sys_waitpid_post(
            new,
            old,
            spec_as_signed(args[0]),
            args[1],
            ret,
        )
    } else if syscall_id == SYSCALL_GETPID {
        new.unchanged(old) && (result matches SyscallResult::Done(ret) && sys_getpid_post(old, ret))
    } else if syscall_id == SYSCALL_FORK {
        result matches SyscallResult::Done(ret) && sys_fork_post(new, old, ret)
    } else if syscall_id == SYSCALL_EXEC {
        result matches SyscallResult::Done(ret) && sys_exec_post(new, old, args[0], ret)
    } else {
        result matches SyscallResult::Done(ret) && ret == -1 && new.unchanged(old)
    }
}

/// The system call `syscall_id` took the kernel from `old` to `new` by way
/// of `counted`: the call was counted for the running task, then handled.
/// A call of an unknown number is not counted.
pub open spec fn served(
    new: &Kernel,
    old: &Kernel,
    counted: &Kernel,
    syscall_id: usize,
    args: [usize; 3],
    result: SyscallResult,
) -> bool {
    &&& if spec_supported(syscall_id) {
        update_syscall_times_post(counted, old, syscall_id)
    } else {
        counted.unchanged(old)
    }
    &&& dispatched(new, counted, syscall_id, args, result)
}

/// Serves the system call `syscall_id` of the running task with the
/// arguments `args`: counts it for the task and hands it to its handler.
/// A call of a number that the kernel does not know fails with -1, and
/// nothing has changed.
pub fn syscall(kernel: &mut Kernel, syscall_id: usize, args: [usize; 3]) -> (result: SyscallResult)
    requires
        old(kernel).serving(),
        syscall_id == SYSCALL_EXIT ==> old(kernel).current() != IDLE_PID,
    ensures
        exists|counted: Kernel| served(final(kernel), old(kernel), &counted, syscall_id, args, result),
        !spec_supported(syscall_id) ==> (result matches SyscallResult::Done(ret) && ret == -1)
            && final(kernel).unchanged(old(kernel)),
        final(kernel).wf(),
        final(kernel).settled(),
        result is Exited || final(kernel).processor.current is Some,
{
    if !supported(syscall_id) {
        let result = SyscallResult::Done(-1);
        proof {
            kernel.lemma_unchanged(old(kernel));
            assert(served(kernel, old(kernel), kernel, syscall_id, args, result));
        }
        return result;
    }
    update_syscall_times(kernel, syscall_id);
    let ghost counted = *kernel;
    proof {
        assert(counted.current() == old(kernel).current());
    }
    let result = if syscall_id == SYSCALL_READ {
        match sys_read(kernel, args[0], args[1], args[2]) {
            Some(request) => SyscallResult::Read(request),
            None => SyscallResult::Done(-1),
        }
    } else if syscall_id == SYSCALL_WRITE {
        match sys_write(kernel, args[0], args[1], args[2]) {
            Some(request) => SyscallResult::Write(request),
            None => SyscallResult::Done(-1),
        }
    } else if syscall_id == SYSCALL_EXIT {
        SyscallResult::Exited(sys_exit(kernel, low_i32(args[0])))
    } else if syscall_id == SYSCALL_YIELD {
        SyscallResult::Done(sys_yield(kernel))
    } else if syscall_id == SYSCALL_GET_TIME {
        SyscallResult::Done(sys_get_time(kernel, args[0], args[1]))
    } else if syscall_id == SYSCALL_TASK_INFO {
        SyscallResult::Done(sys_task_info(kernel, args[0]))
    } else if syscall_id == SYSCALL_MMAP {
        SyscallResult::Done(sys_mmap(kernel, args[0], args[1], args[2]))
    } else if syscall_id == SYSCALL_MUNMAP {
        SyscallResult::Done(sys_munmap(kernel, args[0], args[1]))
    } else if syscall_id == SYSCALL_SBRK {
        SyscallResult::Done(sys_sbrk(kernel, low_i32(args[0])))
    } else if syscall_id == SYSCALL_SPAWN {
        SyscallResult::Done(sys_spawn(kernel, args[0]))
    } else if syscall_id == SYSCALL_SET_PRIORITY {
        SyscallResult::Done(sys_set_priority(kernel, as_signed(args[0])))
    } else if syscall_id == SYSCALL_WAITPID {
        SyscallResult::Done(sys_waitpid(kernel, as_signed(args[0]), args[1]))
    } else if syscall_id == SYSCALL_GETPID {
        SyscallResult::Done(sys_getpid(kernel))
    } else if syscall_id == SYSCALL_FORK {
        SyscallResult::Done(sys_fork(kernel))
    } else {
        SyscallResult::Done(sys_exec(kernel, args[0]))
    };
    proof {
        assert(served(kernel, old(kernel), &counted, syscall_id, args, result));
    }
    result
}

} // verus!
