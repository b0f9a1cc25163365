//! The trap context: what the trampoline saves of a task when it traps.

use vstd::prelude::*;

verus! {

/// Index of the stack pointer among the general registers.
pub const REG_SP: usize = 2;

/// Index of the register of the first argument and of the return value.
pub const REG_A0: usize = 10;

/// Index of the register of the second argument.
pub const REG_A1: usize = 11;

/// Index of the register of the third argument.
pub const REG_A2: usize = 12;

/// Index of the register of the system call number.
pub const REG_A7: usize = 17;

/// The registers of a task at a trap, and what the trampoline needs to enter
/// the kernel. The order of the fields is the layout that the trampoline
/// reads and writes.
#[derive(Clone, Copy, Debug)]
pub struct TrapContext {
    /// The general registers.
    pub x: [usize; 32],
    /// The status register, which holds the privilege to return to.
    pub sstatus: usize,
    /// Address of the instruction to return to.
    pub sepc: usize,
    /// Token of the page table of the kernel.
    pub kernel_satp: usize,
    /// Top of the kernel stack of the task.
    pub kernel_sp: usize,
    /// Address of the trap handler.
    pub trap_handler: usize,
}

impl TrapContext {
    /// Sets the stack pointer.
    pub fn set_sp(&mut self, sp: usize)
        ensures
            final(self).x@ == old(self).x@.update(REG_SP as int, sp),
            final(self).sstatus == old(self).sstatus,
            final(self).sepc == old(self).sepc,
            final(self).kernel_satp == old(self).kernel_satp,
            final(self).kernel_sp == old(self).kernel_sp,
            final(self).trap_handler == old(self).trap_handler,
    {
        self.x[REG_SP] = sp;
    }

    /// The trap context of a program that is about to start at `entry` with
    /// its stack at `sp`: every other register is zero.
    pub fn app_init_context(
        entry: usize,
        sp: usize,
        sstatus: usize,
        kernel_satp: usize,
        kernel_sp: usize,
        trap_handler: usize,
    ) -> (cx: Self)
        ensures
            cx.x@ == Seq::new(32, |i: int| if i == REG_SP { sp } else { 0usize }),
            cx.sstatus == sstatus,
            cx.sepc == entry,
            cx.kernel_satp == kernel_satp,
            cx.kernel_sp == kernel_sp,
            cx.trap_handler == trap_handler,
    {
        let mut cx = Self { x: [0; 32], sstatus, sepc: entry, kernel_satp, kernel_sp, trap_handler };
        cx.set_sp(sp);
        assert(cx.x@ =~= Seq::new(32, |i: int| if i == REG_SP { sp } else { 0usize }));
        cx
    }
}

} // verus!
