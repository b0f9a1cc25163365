//! The side of the tasks: how a task asks the kernel for a system call.

pub mod syscall;
