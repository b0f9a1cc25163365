//! The system calls as a task makes them: the number of the call and its
//! three arguments, as the registers hold them when the task traps.

use vstd::prelude::*;
use crate::syscall::{
    as_register,
    spec_as_register,
    spec_low_i32,
    SYSCALL_EXIT,
    SYSCALL_GET_TIME,
    SYSCALL_READ,
    SYSCALL_TASK_INFO,
    SYSCALL_WRITE,
    SYSCALL_YIELD,
};

verus! {

/// What a task puts into its registers to ask for a system call.
#[derive(Clone, Copy, Debug)]
pub struct SyscallRequest {
    /// The number of the call.
    pub id: usize,
    /// The arguments of the call.
    pub args: [usize; 3],
}

/// The request for the system call `id` with the arguments `args`.
pub fn syscall(id: usize, args: [usize; 3]) -> (request: SyscallRequest)
    ensures
        request.id == id,
        request.args == args,
{
    SyscallRequest { id, args }
}

/// The request to write the `len` bytes at `buffer` to the open file `fd`.
pub fn sys_write(fd: usize, buffer: usize, len: usize) -> (request: SyscallRequest)
    ensures
        request.id == SYSCALL_WRITE,
        request.args@ == seq![fd, buffer, len],
{
    let request = syscall(SYSCALL_WRITE, [fd, buffer, len]);
    assert(request.args@ =~= seq![fd, buffer, len]);
    request
}

/// The request to read up to `len` bytes from the open file `fd` to
/// `buffer`.
pub fn sys_read(fd: usize, buffer: usize, len: usize) -> (request: SyscallRequest)
    ensures
        request.id == SYSCALL_READ,
        request.args@ == seq![fd, buffer, len],
{
    let request = syscall(SYSCALL_READ, [fd, buffer, len]);
    assert(request.args@ =~= seq![fd, buffer, len]);
    request
}

/// The request to exit with the exit code `xstate`.
pub fn sys_exit(xstate: i32) -> (request: SyscallRequest)
    ensures
        request.id == SYSCALL_EXIT,
        request.args@ == seq![spec_as_register(xstate as isize), 0, 0],
        spec_low_i32(request.args@[0]) == xstate,
{
    let first = as_register(xstate as isize);
    let request = syscall(SYSCALL_EXIT, [first, 0, 0]);
    proof {
        assert(request.args@ =~= seq![first, 0, 0]);
        lemma_exit_code_survives(xstate);
    }
    request
}

/// The request to yield.
pub fn sys_yield() -> (request: SyscallRequest)
    ensures
        request.id == SYSCALL_YIELD,
        request.args@ == seq![0usize, 0, 0],
{
    let request = syscall(SYSCALL_YIELD, [0, 0, 0]);
    assert(request.args@ =~= seq![0usize, 0, 0]);
    request
}

/// The request for the time, to be written at `time`.
pub fn sys_get_time(time: usize, tz: usize) -> (request: SyscallRequest)
    ensures
        request.id == SYSCALL_GET_TIME,
        request.args@ == seq![time, tz, 0],
{
    let request = syscall(SYSCALL_GET_TIME, [time, tz, 0]);
    assert(request.args@ =~= seq![time, tz, 0]);
    request
}

/// The request for the information on the task, to be written at `info`.
pub fn sys_task_info(info: usize) -> (request: SyscallRequest)
    ensures
        request.id == SYSCALL_TASK_INFO,
        request.args@ == seq![info, 0, 0],
{
    let request = syscall(SYSCALL_TASK_INFO, [info, 0, 0]);
    assert(request.args@ =~= seq![info, 0, 0]);
    request
}

/// The kernel reads from the register the exit code that the task put
/// there.
pub proof fn lemma_exit_code_survives(xstate: i32)
    ensures
        spec_low_i32(spec_as_register(xstate as isize)) == xstate,
{
    assert(usize::MAX == 0xffff_ffff || usize::MAX == 0xffff_ffff_ffff_ffff) by {
        assert(usize::BITS == 32 || usize::BITS == 64);
    }
    assert(isize::MAX == 0x7fff_ffff || isize::MAX == 0x7fff_ffff_ffff_ffff) by {
        assert(isize::BITS == 32 || isize::BITS == 64);
    }
}

} // verus!
