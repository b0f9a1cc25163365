//! The task control block: what the kernel keeps of a process.

use vstd::prelude::*;
use crate::config::{DEFAULT_PRIORITY, MAX_SYSCALL_NUM, MAX_TASKS, PAGE_SIZE, PPN_LIMIT, VPN_COUNT};
use crate::fs::FileHandle;
use crate::mm::address::{PhysPageNum, VirtPageNum};
use crate::mm::frame_allocator::FrameAllocator;
use crate::mm::image::ProgramImage;
use crate::mm::lifecycle::{area_at, total_pages};
use crate::mm::memory_set::{AreaView, MemorySet};
use crate::task::context::TaskContext;
use crate::task::id::{kernel_stack_position, spec_kernel_stack_top};
use crate::task::manager::{pass_of, spec_pass_of, ReadyTask};
use crate::trap::context::TrapContext;

verus! {

/// Where a task stands in its life.
#[derive(Clone, Copy, Debug, PartialEq, Eq, Structural)]
pub enum TaskStatus {
    /// Not yet set up.
    UnInit,
    /// Waiting in the ready queue.
    Ready,
    /// On the processor.
    Running,
    /// Exited; kept until its parent collects the exit code.
    Zombie,
}

/// What the kernel needs of the machine to set a task up.
#[derive(Clone, Copy, Debug)]
pub struct Platform {
    /// The frame of the trampoline page.
    pub trampoline: PhysPageNum,
    /// Token of the page table of the kernel.
    pub kernel_satp: usize,
    /// Address of the trap handler.
    pub trap_handler: usize,
    /// Address of the return from a trap.
    pub trap_return: usize,
    /// The status register of a task that runs in user mode.
    pub user_sstatus: usize,
}

/// The task control block.
pub struct TaskControlBlock {
    /// The process id, which no other live task has.
    pub pid: usize,
    /// Top of the kernel stack.
    pub kernel_stack_top: usize,
    /// Where the task stands in its life.
    pub task_status: TaskStatus,
    /// The registers saved when the task was switched out.
    pub task_cx: TaskContext,
    /// The registers saved when the task trapped.
    pub trap_cx: TrapContext,
    /// The address space.
    pub memory_set: MemorySet,
    /// Address of the top of the user stack at the start of the program.
    pub base_size: usize,
    /// Address at which the heap starts.
    pub heap_bottom: usize,
    /// The program break: address at which the heap ends.
    pub program_brk: usize,
    /// The process id of the parent; the kernel does not keep the parent
    /// alive for the child.
    pub parent: Option<usize>,
    /// The process ids of the children, which the task keeps until it
    /// collects them or exits.
    pub children: Vec<usize>,
    /// The exit code, once the task is a zombie.
    pub exit_code: i32,
    /// The open files: a slot is free or holds a handle.
    pub fd_table: Vec<Option<FileHandle>>,
    /// How often the task made each system call.
    pub syscall_times: [u32; MAX_SYSCALL_NUM],
    /// Time in milliseconds at which the task was set up.
    pub start_time: usize,
    /// The priority, 2 at least.
    pub priority: usize,
    /// Distance that one dispatch adds to the stride.
    pub pass: u64,
    /// Distance run so far.
    pub stride: u64,
}

/// The page that holds the address `addr` or follows it, where `addr` is
/// the first of a page.
pub open spec fn page_ceil(addr: int) -> int {
    (addr + PAGE_SIZE - 1) / (PAGE_SIZE as int)
}

impl TaskControlBlock {
    /// The address space is well formed, the kernel stack is the one of the
    /// process id, the pass is the one of the priority, the break lies at
    /// or above the bottom of the heap, and a zombie has no areas left.
    pub open spec fn wf(&self) -> bool {
        &&& self.memory_set.wf()
        &&& self.pid < MAX_TASKS
        &&& self.kernel_stack_top == spec_kernel_stack_top(self.pid)
        &&& self.priority >= 2
        &&& self.pass == spec_pass_of(self.priority)
        &&& self.heap_bottom <= self.program_brk
        &&& self.heap_bottom % PAGE_SIZE == 0
        &&& self.task_status == TaskStatus::Zombie ==> self.memory_set.layout().len() == 0
            && self.children@.len() == 0
    }

    /// The two have the same process id and kernel stack.
    pub open spec fn same_identity(&self, other: &Self) -> bool {
        self.pid == other.pid && self.kernel_stack_top == other.kernel_stack_top
    }

    /// The two have the same saved registers.
    pub open spec fn same_registers(&self, other: &Self) -> bool {
        self.task_cx == other.task_cx && self.trap_cx == other.trap_cx
    }

    /// The two have the same address space, stack top and heap.
    pub open spec fn same_memory(&self, other: &Self) -> bool {
        &&& self.memory_set == other.memory_set
        &&& self.base_size == other.base_size
        &&& self.heap_bottom == other.heap_bottom
        &&& self.program_brk == other.program_brk
    }

    /// The two have the same parent and children.
    pub open spec fn same_family(&self, other: &Self) -> bool {
        self.parent == other.parent && self.children == other.children
    }

    /// The two have the same open files.
    pub open spec fn same_files(&self, other: &Self) -> bool {
        self.fd_table == other.fd_table
    }

    /// The two have the same counts of system calls, start time and exit
    /// code.
    pub open spec fn same_accounting(&self, other: &Self) -> bool {
        &&& self.syscall_times == other.syscall_times
        &&& self.start_time == other.start_time
        &&& self.exit_code == other.exit_code
    }

    /// The two have the same status, priority, pass and stride.
    pub open spec fn same_schedule(&self, other: &Self) -> bool {
        &&& self.task_status == other.task_status
        &&& self.priority == other.priority
        &&& self.pass == other.pass
        &&& self.stride == other.stride
    }

    /// The process id.
    pub fn getpid(&self) -> (pid: usize)
        ensures
            pid == self.pid,
    {
        self.pid
    }

    /// Tells whether the task has exited.
    pub fn is_zombie(&self) -> (yes: bool)
        ensures
            yes == (self.task_status == TaskStatus::Zombie),
    {
        self.task_status == TaskStatus::Zombie
    }

    /// What the scheduler keeps of the task.
    pub open spec fn spec_ready_entry(&self) -> ReadyTask {
        ReadyTask { pid: self.pid, stride: self.stride, pass: self.pass }
    }

    /// What the scheduler keeps of the task.
    #[verifier::when_used_as_spec(spec_ready_entry)]
    pub fn ready_entry(&self) -> (entry: ReadyTask)
        ensures
            entry == self.spec_ready_entry(),
    {
        ReadyTask { pid: self.pid, stride: self.stride, pass: self.pass }
    }

    /// The first free slot of the table of open files, or a new slot at its
    /// end where none is free.
    pub fn alloc_fd(&mut self) -> (fd: usize)
        ensures
            fd < final(self).fd_table@.len(),
            final(self).fd_table@[fd as int] is None,
            forall|j: int| 0 <= j < fd ==> old(self).fd_table@[j] is Some,
            fd < old(self).fd_table@.len() ==> final(self).fd_table@ == old(self).fd_table@,
            fd >= old(self).fd_table@.len() ==> fd == old(self).fd_table@.len() &&
                final(self).fd_table@ == old(self).fd_table@.push(None),
            final(self).same_identity(old(self)),
            final(self).same_registers(old(self)),
            final(self).same_memory(old(self)),
            final(self).same_family(old(self)),
            final(self).same_accounting(old(self)),
            final(self).same_schedule(old(self)),
    {
        let n = self.fd_table.len();
        let mut fd: usize = 0;
        while fd < n
            invariant
                n == self.fd_table@.len(),
                fd <= n,
                *self == *old(self),
                forall|j: int| 0 <= j < fd ==> self.fd_table@[j] is Some,
            decreases n - fd,
        {
            if self.fd_table[fd].is_none() {
                return fd;
            }
            fd += 1;
        }
        self.fd_table.push(None);
        n
    }

    /// Sets the priority of the task and its pass. Returns the priority, or
    /// -1, and nothing changed, where `prio` is less than 2.
    pub fn set_priority(&mut self, prio: isize) -> (ret: isize)
        ensures
            prio >= 2 ==> ret == prio && final(self).priority == prio && final(self).pass
                == spec_pass_of(prio as usize),
            prio < 2 ==> ret == -1 && final(self).priority == old(self).priority && final(self).pass
                == old(self).pass,
            final(self).task_status == old(self).task_status,
            final(self).stride == old(self).stride,
            final(self).same_identity(old(self)),
            final(self).same_registers(old(self)),
            final(self).same_memory(old(self)),
            final(self).same_family(old(self)),
            final(self).same_files(old(self)),
            final(self).same_accounting(old(self)),
    {
        if prio < 2 {
            return -1;
        }
        self.priority = prio as usize;
        self.pass = pass_of(prio as usize);
        prio
    }
    /// A task that runs the program `image` as process `pid`, ready to be
    /// scheduled, with the standard input, the standard output and the
    /// standard error open. `None`, and nothing handed out, where the image
    /// is not valid or the allocator has not a frame for each page.
    pub fn new(
        image: &ProgramImage,
        pid: usize,
        parent: Option<usize>,
        platform: &Platform,
        now: usize,
        allocator: &mut FrameAllocator,
    ) -> (made: Option<Self>)
        requires
            pid < MAX_TASKS,
            platform.trampoline.0 < PPN_LIMIT,
            old(allocator).wf(),
        ensures
            final(allocator).wf(),
            final(allocator).first() == old(allocator).first(),
            final(allocator).limit() == old(allocator).limit(),
            match made {
                Some(task) => {
                    &&& image.valid()
                    &&& total_pages(image.layout()) <= old(allocator).available()
                    &&& task.wf()
                    &&& task.started(image, pid, parent, platform, now)
                    &&& task.memory_set.owned_under(final(allocator))
                    &&& final(allocator).allocated().difference(task.memory_set.frames()) ==
                        old(allocator).allocated()
                    &&& final(allocator).available() == old(allocator).available() - total_pages(
                        image.layout(),
                    )
                },
                None => (!image.valid() || total_pages(image.layout()) > old(allocator).available())
                    && *final(allocator) == *old(allocator),
            },
    {
        let (memory_set, user_sp) = match MemorySet::from_image(image, platform.trampoline, allocator) {
            Some(built) => built,
            None => {
                return None;
            },
        };
        let (_, kernel_stack_top) = kernel_stack_position(pid);
        let mut fd_table: Vec<Option<FileHandle>> = Vec::new();
        fd_table.push(Some(FileHandle { id: 0, readable: true, writable: false }));
        fd_table.push(Some(FileHandle { id: 1, readable: false, writable: true }));
        fd_table.push(Some(FileHandle { id: 2, readable: false, writable: true }));
        let task = Self {
            pid,
            kernel_stack_top,
            task_status: TaskStatus::Ready,
            task_cx: TaskContext::goto_trap_return(kernel_stack_top, platform.trap_return),
            trap_cx: TrapContext::app_init_context(
                image.entry,
                user_sp,
                platform.user_sstatus,
                platform.kernel_satp,
                kernel_stack_top,
                platform.trap_handler,
            ),
            memory_set,
            base_size: user_sp,
            heap_bottom: user_sp,
            program_brk: user_sp,
            parent,
            children: Vec::new(),
            exit_code: 0,
            fd_table,
            syscall_times: [0; MAX_SYSCALL_NUM],
            start_time: now,
            priority: DEFAULT_PRIORITY,
            pass: pass_of(DEFAULT_PRIORITY),
            stride: 0,
        };
        proof {
            assert(task.fd_table@ =~= standard_files());
            assert(task.syscall_times@ =~= Seq::new(MAX_SYSCALL_NUM as nat, |i: int| 0u32));
            assert(task.children@ =~= Seq::<usize>::empty());
            assert(task.memory_set.layout().len() > 0);
        }
        Some(task)
    }

    /// The task was just set up to run the program `image` as process
    /// `pid`: it is ready, its address space is the one of the image, its
    /// trap context enters the program at its entry point on an empty user
    /// stack, its heap is empty, it has no children, the standard files are
    /// open, and it has the default priority and no stride.
    pub open spec fn started(
        &self,
        image: &ProgramImage,
        pid: usize,
        parent: Option<usize>,
        platform: &Platform,
        now: usize,
    ) -> bool {
        &&& self.pid == pid
        &&& self.kernel_stack_top == spec_kernel_stack_top(pid)
        &&& self.task_status == TaskStatus::Ready
        &&& self.task_cx.ra == platform.trap_return
        &&& self.task_cx.sp == spec_kernel_stack_top(pid)
        &&& self.task_cx.s@ == Seq::new(12, |i: int| 0usize)
        &&& self.runs(image, platform)
        &&& self.parent == parent
        &&& self.children@ == Seq::<usize>::empty()
        &&& self.exit_code == 0
        &&& self.fd_table@ == standard_files()
        &&& self.syscall_times@ == Seq::new(MAX_SYSCALL_NUM as nat, |i: int| 0u32)
        &&& self.start_time == now
        &&& self.priority == DEFAULT_PRIORITY
        &&& self.pass == spec_pass_of(DEFAULT_PRIORITY)
        &&& self.stride == 0
    }

    /// The task is about to run the program `image` from its start: its
    /// address space is the one of the image, its trap context enters the
    /// program at its entry point on an empty user stack, and its heap is
    /// empty.
    pub open spec fn runs(&self, image: &ProgramImage, platform: &Platform) -> bool {
        &&& self.memory_set.layout() == image.layout()
        &&& forall|vpn: usize| self.memory_set.page_data(vpn) == image.page(vpn)
        &&& self.memory_set.trampoline_frame() == platform.trampoline
        &&& self.base_size == image.stack_top() * PAGE_SIZE
        &&& self.heap_bottom == self.base_size
        &&& self.program_brk == self.base_size
        &&& self.trap_cx.x@ == Seq::new(
            32,
            |i: int| if i == crate::trap::context::REG_SP { self.base_size } else { 0usize },
        )
        &&& self.trap_cx.sepc == image.entry
        &&& self.trap_cx.sstatus == platform.user_sstatus
        &&& self.trap_cx.kernel_satp == platform.kernel_satp
        &&& self.trap_cx.kernel_sp == self.kernel_stack_top
        &&& self.trap_cx.trap_handler == platform.trap_handler
    }

    /// Replaces the program of the task by `image`: the address space is
    /// built anew and the old one given back, the trap context enters the
    /// new program, the heap is empty. The process id, the open files and
    /// all else stay. Nothing is done, and `false` returned, where the image
    /// is not valid or the allocator has not a frame for each page of the
    /// new address space while the old one stands.
    pub fn exec(&mut self, image: &ProgramImage, platform: &Platform, allocator: &mut
        FrameAllocator) -> (done:
        bool)
        requires
            old(self).wf(),
            old(self).task_status != TaskStatus::Zombie,
            platform.trampoline.0 < PPN_LIMIT,
            old(allocator).wf(),
            old(self).memory_set.owned_under(old(allocator)),
        ensures
            done == (image.valid() && total_pages(image.layout()) <= old(allocator).available()),
            !done ==> *final(self) == *old(self) && *final(allocator) == *old(allocator),
            done ==> final(self).runs(image, platform),
            final(allocator).available() + total_pages(final(self).memory_set.layout()) ==
                old(allocator).available() + total_pages(old(self).memory_set.layout()),
            final(self).wf(),
            final(allocator).wf(),
            final(self).task_cx == old(self).task_cx,
            final(self).same_identity(old(self)),
            final(self).same_family(old(self)),
            final(self).same_files(old(self)),
            final(self).same_accounting(old(self)),
            final(self).same_schedule(old(self)),
            final(self).memory_set.owned_under(final(allocator)),
            final(allocator).allocated().difference(final(self).memory_set.frames()) ==
                old(allocator).allocated().difference(old(self).memory_set.frames()),
            final(allocator).first() == old(allocator).first(),
            final(allocator).limit() == old(allocator).limit(),
    {
        let (mut memory_set, user_sp) = match MemorySet::from_image(image, platform.trampoline, allocator) {
            Some(built) => built,
            None => {
                return false;
            },
        };
        proof {
            assert(old(allocator).allocated().subset_of(allocator.allocated())) by {
                assert forall|p: usize| old(allocator).allocated().contains(p) implies
                    allocator.allocated().contains(
                    p,
                ) by {
                    assert(allocator.allocated().difference(memory_set.frames()).contains(p));
                }
            }
        }
        let ghost built = memory_set;
        let ghost grown = allocator.allocated();
        core::mem::swap(&mut self.memory_set, &mut memory_set);
        memory_set.recycle_data_pages(allocator);
        self.trap_cx = TrapContext::app_init_context(
            image.entry,
            user_sp,
            platform.user_sstatus,
            platform.kernel_satp,
            self.kernel_stack_top,
            platform.trap_handler,
        );
        self.base_size = user_sp;
        self.heap_bottom = user_sp;
        self.program_brk = user_sp;
        proof {
            assert(self.memory_set == built);
            assert(forall|p: usize| built.frames().contains(p) ==> !old(allocator).allocated().contains(p))
                by {
                assert forall|p: usize| built.frames().contains(p) implies
                    !old(allocator).allocated().contains(
                    p,
                ) by {
                    if old(allocator).allocated().contains(p) {
                        assert(grown.difference(built.frames()).contains(p));
                    }
                }
            }
            assert(allocator.allocated().difference(self.memory_set.frames()) =~=
                old(allocator).allocated().difference(old(self).memory_set.frames()));
            assert(self.memory_set.layout().len() > 0);
            assert(user_sp % PAGE_SIZE == 0) by (nonlinear_arith)
                requires
                    user_sp == image.stack_top() * PAGE_SIZE,
                    PAGE_SIZE == 4096,
            ;
        }
        true
    }

    /// The task is a fresh copy of `parent` under the process id `pid`: it
    /// is ready, its address space has the areas of the parent's and holds
    /// the same bytes, its trap context is the parent's but for the kernel
    /// stack and for the first argument register, which holds `a0`, it
    /// holds the same open files, has the parent's priority, pass and
    /// stride, no children, and `parent` for its parent.
    pub open spec fn forked_from(
        &self,
        parent: &Self,
        pid: usize,
        platform: &Platform,
        now: usize,
        a0: usize,
    ) -> bool {
        &&& self.pid == pid
        &&& self.kernel_stack_top == spec_kernel_stack_top(pid)
        &&& self.task_status == TaskStatus::Ready
        &&& self.task_cx.ra == platform.trap_return
        &&& self.task_cx.sp == spec_kernel_stack_top(pid)
        &&& self.task_cx.s@ == Seq::new(12, |i: int| 0usize)
        &&& self.trap_cx.x@ == parent.trap_cx.x@.update(crate::trap::context::REG_A0 as int, a0)
        &&& self.trap_cx.sstatus == parent.trap_cx.sstatus
        &&& self.trap_cx.sepc == parent.trap_cx.sepc
        &&& self.trap_cx.kernel_satp == parent.trap_cx.kernel_satp
        &&& self.trap_cx.kernel_sp == spec_kernel_stack_top(pid)
        &&& self.trap_cx.trap_handler == parent.trap_cx.trap_handler
        &&& self.memory_set.layout() == parent.memory_set.layout()
        &&& forall|vpn: usize| self.memory_set.page_data(vpn) == parent.memory_set.page_data(vpn)
        &&& self.memory_set.trampoline_frame() == parent.memory_set.trampoline_frame()
        &&& self.base_size == parent.base_size
        &&& self.heap_bottom == parent.heap_bottom
        &&& self.program_brk == parent.program_brk
        &&& self.parent == Some(parent.pid)
        &&& self.children@ == Seq::<usize>::empty()
        &&& self.exit_code == 0
        &&& self.fd_table@ == parent.fd_table@
        &&& self.syscall_times@ == Seq::new(MAX_SYSCALL_NUM as nat, |i: int| 0u32)
        &&& self.start_time == now
        &&& self.priority == parent.priority
        &&& self.pass == parent.pass
        &&& self.stride == parent.stride
    }

    /// A copy of the task under the process id `pid`, with an address space
    /// in frames of its own. `None`, and nothing handed out, where the
    /// allocator has not a frame for each page of the address space.
    pub fn fork(&self, pid: usize, platform: &Platform, now: usize, allocator: &mut FrameAllocator)
        -> (made:
        Option<Self>)
        requires
            self.wf(),
            self.task_status != TaskStatus::Zombie,
            pid < MAX_TASKS,
            old(allocator).wf(),
        ensures
            final(allocator).wf(),
            final(allocator).first() == old(allocator).first(),
            final(allocator).limit() == old(allocator).limit(),
            match made {
                Some(child) => {
                    &&& total_pages(self.memory_set.layout()) <= old(allocator).available()
                    &&& child.wf()
                    &&& child.forked_from(
                        self,
                        pid,
                        platform,
                        now,
                        self.trap_cx.x@[crate::trap::context::REG_A0 as int],
                    )
                    &&& child.memory_set.owned_under(final(allocator))
                    &&& final(allocator).allocated().difference(child.memory_set.frames()) ==
                        old(allocator).allocated()
                    &&& final(allocator).available() == old(allocator).available() - total_pages(
                        self.memory_set.layout(),
                    )
                },
                None => total_pages(self.memory_set.layout()) > old(allocator).available() &&
                    *final(allocator) == *old(allocator),
            },
    {
        let memory_set = match MemorySet::from_existed_user(&self.memory_set, allocator) {
            Some(copy) => copy,
            None => {
                return None;
            },
        };
        let (_, kernel_stack_top) = kernel_stack_position(pid);
        let mut fd_table: Vec<Option<FileHandle>> = Vec::new();
        let n = self.fd_table.len();
        let mut i: usize = 0;
        while i < n
            invariant
                n == self.fd_table@.len(),
                i <= n,
                fd_table@ == self.fd_table@.subrange(0, i as int),
            decreases n - i,
        {
            fd_table.push(self.fd_table[i]);
            assert(fd_table@ =~= self.fd_table@.subrange(0, i + 1));
            i += 1;
        }
        let mut trap_cx = self.trap_cx;
        trap_cx.kernel_sp = kernel_stack_top;
        let child = Self {
            pid,
            kernel_stack_top,
            task_status: TaskStatus::Ready,
            task_cx: TaskContext::goto_trap_return(kernel_stack_top, platform.trap_return),
            trap_cx,
            memory_set,
            base_size: self.base_size,
            heap_bottom: self.heap_bottom,
            program_brk: self.program_brk,
            parent: Some(self.pid),
            children: Vec::new(),
            exit_code: 0,
            fd_table,
            syscall_times: [0; MAX_SYSCALL_NUM],
            start_time: now,
            priority: self.priority,
            pass: self.pass,
            stride: self.stride,
        };
        proof {
            assert(child.fd_table@ =~= self.fd_table@);
            assert(child.syscall_times@ =~= Seq::new(MAX_SYSCALL_NUM as nat, |i: int| 0u32));
            assert(child.children@ =~= Seq::<usize>::empty());
            assert(child.trap_cx.x@ =~= self.trap_cx.x@.update(
                crate::trap::context::REG_A0 as int,
                self.trap_cx.x@[crate::trap::context::REG_A0 as int],
            ));
        }
        Some(child)
    }

    /// The break after it was moved by `size` bytes.
    pub open spec fn moved_break(&self, size: i32) -> int {
        self.program_brk + size
    }

    /// The break can be moved by `size` bytes: it stays at or above the
    /// bottom of the heap and among the addresses, the heap is still the
    /// first area that starts at its bottom, the pages that the heap gains
    /// lie in the address space and are free, and the allocator has a frame
    /// for each.
    pub open spec fn break_movable(&self, size: i32, allocator: &FrameAllocator) -> bool {
        let target = self.moved_break(size);
        let heap = area_at(self.memory_set.layout(), self.heap_bottom / PAGE_SIZE);
        &&& self.heap_bottom <= target <= usize::MAX - PAGE_SIZE
        &&& heap is Some
        &&& page_ceil(target) <= VPN_COUNT
        &&& {
            let end = self.memory_set.layout()[heap->0].end;
            page_ceil(target) > end ==> self.memory_set.range_free(end, page_ceil(target) as usize)
                && allocator.available() >= page_ceil(target) - end
        }
    }

    /// Moves the program break by `size` bytes, growing or shrinking the
    /// heap by whole pages, and returns the break as it was. Nothing is
    /// done, and `None` returned, where the break cannot be moved so.
    pub fn change_program_brk(&mut self, size: i32, allocator: &mut FrameAllocator) -> (old_brk: Option<
        usize,
    >)
        requires
            old(self).wf(),
            old(allocator).wf(),
            old(self).memory_set.owned_under(old(allocator)),
        ensures
            old_brk is Some <==> old(self).break_movable(size, old(allocator)),
            old_brk is None ==> *final(self) == *old(self) && *final(allocator) == *old(allocator),
            old_brk matches Some(was) ==> {
                let heap = area_at(old(self).memory_set.layout(), old(self).heap_bottom / PAGE_SIZE)->0;
                &&& was == old(self).program_brk
                &&& final(self).program_brk == old(self).moved_break(size)
                &&& final(self).memory_set.layout() == old(self).memory_set.layout().update(
                    heap,
                    AreaView {
                        start: old(self).memory_set.layout()[heap].start,
                        end: page_ceil(old(self).moved_break(size)) as usize,
                        perm: old(self).memory_set.layout()[heap].perm,
                    },
                )
            },
            final(allocator).available() + total_pages(final(self).memory_set.layout()) ==
                old(allocator).available() + total_pages(old(self).memory_set.layout()),
            final(self).wf(),
            final(allocator).wf(),
            final(self).base_size == old(self).base_size,
            final(self).heap_bottom == old(self).heap_bottom,
            final(self).memory_set.trampoline_frame() == old(self).memory_set.trampoline_frame(),
            final(self).same_identity(old(self)),
            final(self).same_registers(old(self)),
            final(self).same_family(old(self)),
            final(self).same_files(old(self)),
            final(self).same_accounting(old(self)),
            final(self).same_schedule(old(self)),
            final(self).memory_set.owned_under(final(allocator)),
            final(allocator).allocated().difference(final(self).memory_set.frames()) ==
                old(allocator).allocated().difference(old(self).memory_set.frames()),
            final(allocator).first() == old(allocator).first(),
            final(allocator).limit() == old(allocator).limit(),
    {
        let was = self.program_brk;
        let target: usize = if size >= 0 {
            let up = size as usize;
            if usize::MAX - PAGE_SIZE < was || up > usize::MAX - PAGE_SIZE - was {
                return None;
            }
            was + up
        } else {
            let down = (-(size as i64)) as u64;
            if down > (was - self.heap_bottom) as u64 {
                return None;
            }
            let moved = was - down as usize;
            if moved > usize::MAX - PAGE_SIZE {
                return None;
            }
            moved
        };
        let index = match self.memory_set.find_area_at(self.heap_bottom / PAGE_SIZE) {
            Some(index) => index,
            None => {
                return None;
            },
        };
        let end = (target + PAGE_SIZE - 1) / PAGE_SIZE;
        proof {
            self.memory_set.lemma_mapping(0);
            assert(self.heap_bottom / PAGE_SIZE <= end);
        }
        if !self.memory_set.resize_area(index, VirtPageNum(end), allocator) {
            return None;
        }
        self.program_brk = target;
        proof {
            if self.task_status == TaskStatus::Zombie {
                assert(old(self).memory_set.layout().len() == 0);
            }
        }
        Some(was)
    }
}

/// The open files of a task that was just set up: the standard input to
/// read, the standard output and the standard error to write.
pub open spec fn standard_files() -> Seq<Option<FileHandle>> {
    seq![
        Some(FileHandle { id: 0, readable: true, writable: false }),
        Some(FileHandle { id: 1, readable: false, writable: true }),
        Some(FileHandle { id: 2, readable: false, writable: true }),
    ]
}

} // verus!
