//! Verified core of a small multitasking kernel for a single-hart RISC-V
//! machine: address translation and memory mapping, task control blocks,
//! the stride scheduler, the processor slot, system calls and trap dispatch.
//!
//! The whole kernel state is one explicit value, [`task::kernel::Kernel`];
//! every operation takes it by reference and states in its contract how the
//! state changes. The laws that follow from the contracts stand in
//! [`laws`], [`task::fairness`] and [`task::starvation`].

pub mod config;
pub mod fs;
pub mod laws;
pub mod loader;
pub mod mm;
pub mod syscall;
pub mod task;
pub mod timer;
pub mod trap;
pub mod user;
