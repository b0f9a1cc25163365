//! Constants of the memory map and of the scheduler.

use vstd::prelude::*;

verus! {

/// Bytes in a page.
pub const PAGE_SIZE: usize = 0x1000;

/// Number of bits of the offset of an address inside its page.
pub const PAGE_SIZE_BITS: usize = 12;

/// Bytes of a task's user stack.
pub const USER_STACK_SIZE: usize = 0x2000;

/// Bytes of a task's kernel stack.
pub const KERNEL_STACK_SIZE: usize = 0x2000;

/// Virtual address of the trampoline page, the last page of the address space.
pub const TRAMPOLINE: usize = usize::MAX - PAGE_SIZE + 1;

/// Virtual address of a task's trap context, the page below the trampoline.
pub const TRAP_CONTEXT_BASE: usize = TRAMPOLINE - PAGE_SIZE;

/// Number of virtual pages of an address space: a page number has 27 bits.
pub const VPN_COUNT: usize = 0x800_0000;

/// Physical page numbers are below this bound.
pub const PPN_LIMIT: usize = 0x10_0000;

/// System call numbers are below this bound.
pub const MAX_SYSCALL_NUM: usize = 500;

/// The stride of a task of priority 1; a task's pass is this over its priority.
pub const BIG_STRIDE: u64 = 0xffff_ffff_ffff_ffff;

/// Priority of a task that never asked for one.
pub const DEFAULT_PRIORITY: usize = 16;

/// Process ids are below this bound.
pub const MAX_TASKS: usize = 0x1000;

} // verus!
