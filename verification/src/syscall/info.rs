//! The system calls that tell a task the time and what the kernel knows of
//! it. The answer is written into the memory of the task as bytes, the
//! lowest byte of a number first.

use vstd::prelude::*;
use crate::config::{MAX_SYSCALL_NUM, PAGE_SIZE};
use crate::mm::translated::{le_bytes, spec_user_write, to_le_bytes, touched};
use crate::syscall::process::{memory_changed, TaskInfo, TimeVal};
use crate::task::kernel::Kernel;
use crate::task::task::{TaskControlBlock, TaskStatus};

verus! {

/// Bytes that a time takes in the memory of a task.
pub const TIME_VAL_SIZE: usize = 16;

/// Bytes that the information on a task takes in the memory of a task.
pub const TASK_INFO_SIZE: usize = 2016;

/// The state is `old` with `data` written at `ptr` into the memory of the
/// running task: the bytes stand there, every other byte of the address
/// space is as it was, and so is all else.
pub open spec fn stored(new: &Kernel, old: &Kernel, ptr: usize, data: Seq<u8>) -> bool {
    let pid = old.current();
    let space = new.task(pid).memory_set;
    let before = old.task(pid).memory_set;
    &&& memory_changed(new, old)
    &&& new.frames == old.frames
    &&& space.layout() == before.layout()
    &&& space.mapping() == before.mapping()
    &&& space.bytes_at(ptr, data.len() as int) == data
    &&& forall|vpn: usize, offset: int|
        0 <= offset < PAGE_SIZE && !touched(ptr, data.len() as int, vpn, offset) ==> (
        #[trigger] space.page_data(vpn)[offset]) == before.page_data(vpn)[offset]
}

/// Writes `data` at `ptr` into the memory of the running task. Nothing is
/// written, and `false` returned, where the task may not write all of the
/// range.
pub fn store_for_current(kernel: &mut Kernel, ptr: usize, data: &Vec<u8>) -> (done: bool)
    requires
        old(kernel).serving(),
    ensures
        final(kernel).serving(),
        done == old(kernel).task(old(kernel).current()).memory_set.accessible(
            ptr,
            data.len(),
            spec_user_write(),
        ),
        done ==> stored(final(kernel), old(kernel), ptr, data@),
        !done ==> final(kernel).unchanged(old(kernel)),
{
    let pid = kernel.processor.current.unwrap();
    proof {
        assert(kernel.alive(pid));
        assert(kernel.task(pid).wf());
        assert(kernel.task(pid).memory_set.owned_under(&kernel.frames));
    }
    let done = match &mut kernel.tasks[pid] {
        Some(task) => task.memory_set.write_bytes(ptr, data),
        None => false,
    };
    proof {
        if done {
            assert(old(kernel).has_status(pid, TaskStatus::Running));
            kernel.lemma_task_memory_changed(old(kernel), pid);
        } else {
            assert(kernel.tasks@ =~= old(kernel).tasks@);
            kernel.lemma_unchanged(old(kernel));
        }
    }
    done
}

/// The bytes of a time: the seconds in eight bytes, then the microseconds
/// in eight bytes.
pub open spec fn time_val_bytes(time: TimeVal) -> Seq<u8> {
    le_bytes(time.sec as nat, 8) + le_bytes(time.usec as nat, 8)
}

/// The bytes of a time.
pub fn encode_time_val(time: &TimeVal) -> (bytes: Vec<u8>)
    ensures
        bytes@ == time_val_bytes(*time),
        bytes@.len() == TIME_VAL_SIZE,
{
    let mut bytes = to_le_bytes(time.sec as u64, 8);
    let mut rest = to_le_bytes(time.usec as u64, 8);
    bytes.append(&mut rest);
    bytes
}

/// The time `micros` microseconds after the start, as seconds and
/// microseconds.
pub open spec fn spec_time_of(micros: usize) -> TimeVal {
    TimeVal { sec: micros / 1_000_000, usec: micros % 1_000_000 }
}

/// What the call for the time makes of the kernel and returns.
pub open spec fn sys_get_time_post(new: &Kernel, old: &Kernel, ts: usize, tz: usize, ret: isize) -> bool {
    &&& new.serving()
    &&& ret == 0 || ret == -1
    &&& ret == 0 <==> old.task(old.current()).memory_set.accessible(
        ts,
        TIME_VAL_SIZE,
        spec_user_write(),
    )
    &&& ret == 0 ==> stored(
        new,
        old,
        ts,
        time_val_bytes(spec_time_of(old.time_us)),
    )
    &&& ret == -1 ==> new.unchanged(old)
}

/// Writes the time of the kernel at `ts` into the memory of the running
/// task. Returns 0, or -1, and nothing changed, where the task may not
/// write the sixteen bytes at `ts`.
pub fn sys_get_time(kernel: &mut Kernel, ts: usize, tz: usize) -> (ret: isize)
    requires
        old(kernel).serving(),
    ensures
        sys_get_time_post(final(kernel), old(kernel), ts, tz, ret),
{
    let micros = kernel.time_us;
    let time = TimeVal { sec: micros / 1_000_000, usec: micros % 1_000_000 };
    let bytes = encode_time_val(&time);
    if store_for_current(kernel, ts, &bytes) {
        0
    } else {
        -1
    }
}

/// The number that stands for a status.
pub open spec fn spec_status_code(status: TaskStatus) -> u8 {
    match status {
        TaskStatus::UnInit => 0,
        TaskStatus::Ready => 1,
        TaskStatus::Running => 2,
        TaskStatus::Zombie => 3,
    }
}

/// The number that stands for a status.
#[verifier::when_used_as_spec(spec_status_code)]
pub fn status_code(status: TaskStatus) -> (code: u8)
    ensures
        code == spec_status_code(status),
{
    match status {
        TaskStatus::UnInit => 0,
        TaskStatus::Ready => 1,
        TaskStatus::Running => 2,
        TaskStatus::Zombie => 3,
    }
}

/// The bytes of numbers of 32 bits, four for each.
pub open spec fn words_bytes(words: Seq<u32>) -> Seq<u8>
    decreases words.len(),
{
    if words.len() == 0 {
        Seq::empty()
    } else {
        words_bytes(words.drop_last()) + le_bytes(words.last() as nat, 4)
    }
}

/// Numbers of 32 bits take four bytes each.
pub proof fn lemma_words_bytes_len(words: Seq<u32>)
    ensures
        words_bytes(words).len() == 4 * words.len(),
    decreases words.len(),
{
    if words.len() > 0 {
        lemma_words_bytes_len(words.drop_last());
        lemma_le_bytes_len(words.last() as nat, 4);
    }
}

/// A number written in `width` bytes takes `width` bytes.
pub proof fn lemma_le_bytes_len(value: nat, width: nat)
    ensures
        le_bytes(value, width).len() == width,
    decreases width,
{
    if width > 0 {
        lemma_le_bytes_len(value / 256, (width - 1) as nat);
    }
}

/// The bytes of the information on a task: the status in one byte and three
/// bytes of zero, the counts of the system calls in four bytes each, four
/// bytes of zero, and the time in eight bytes.
pub open spec fn task_info_bytes(info: TaskInfo) -> Seq<u8> {
    seq![spec_status_code(info.status), 0u8, 0u8, 0u8] + words_bytes(info.syscall_times@) + seq![
        0u8,
        0u8,
        0u8,
        0u8,
    ] + le_bytes(info.time as nat, 8)
}

/// The bytes of the information on a task.
pub fn encode_task_info(info: &TaskInfo) -> (bytes: Vec<u8>)
    ensures
        bytes@ == task_info_bytes(*info),
        bytes@.len() == TASK_INFO_SIZE,
{
    let mut bytes: Vec<u8> = Vec::new();
    bytes.push(status_code(info.status));
    bytes.push(0);
    bytes.push(0);
    bytes.push(0);
    let ghost head = bytes@;
    assert(head =~= seq![spec_status_code(info.status), 0u8, 0u8, 0u8]);
    let mut i: usize = 0;
    proof {
        assert(info.syscall_times@.subrange(0, 0) =~= Seq::<u32>::empty());
        assert(bytes@ =~= head + words_bytes(info.syscall_times@.subrange(0, 0)));
    }
    while i < MAX_SYSCALL_NUM
        invariant
            i <= MAX_SYSCALL_NUM,
            head.len() == 4,
            bytes@ == head + words_bytes(info.syscall_times@.subrange(0, i as int)),
        decreases MAX_SYSCALL_NUM - i,
    {
        let mut word = to_le_bytes(info.syscall_times[i] as u64, 4);
        let ghost before = bytes@;
        let ghost added = word@;
        bytes.append(&mut word);
        proof {
            let done = info.syscall_times@.subrange(0, i as int);
            let more = info.syscall_times@.subrange(0, i + 1);
            assert(more.drop_last() =~= done);
            assert(more.last() == info.syscall_times@[i as int]);
            assert(bytes@ =~= head + words_bytes(more));
        }
        i += 1;
    }
    proof {
        assert(info.syscall_times@.subrange(0, MAX_SYSCALL_NUM as int) =~= info.syscall_times@);
        lemma_words_bytes_len(info.syscall_times@);
    }
    bytes.push(0);
    bytes.push(0);
    bytes.push(0);
    bytes.push(0);
    let mut time = to_le_bytes(info.time as u64, 8);
    bytes.append(&mut time);
    proof {
        assert(bytes@ =~= task_info_bytes(*info));
    }
    bytes
}

/// What the running task can learn of itself now: its status, how often it
/// made each system call, and the milliseconds since it was set up.
pub open spec fn spec_current_task_info(kernel: &Kernel) -> TaskInfo {
    let task = kernel.task(kernel.current());
    let now = kernel.time_us / 1000;
    TaskInfo {
        status: task.task_status,
        syscall_times: task.syscall_times,
        time: if now >= task.start_time {
            (now - task.start_time) as usize
        } else {
            0
        },
    }
}

/// What the running task can learn of itself now.
pub fn current_task_info(kernel: &Kernel) -> (info: TaskInfo)
    requires
        kernel.serving(),
    ensures
        info == spec_current_task_info(kernel),
{
    let pid = kernel.processor.current.unwrap();
    proof {
        assert(kernel.alive(pid));
    }
    let now = kernel.time_us / 1000;
    match &kernel.tasks[pid] {
        Some(task) => TaskInfo {
            status: task.task_status,
            syscall_times: task.syscall_times,
            time: if now >= task.start_time {
                now - task.start_time
            } else {
                0
            },
        },
        None => TaskInfo { status: TaskStatus::UnInit, syscall_times: [0; MAX_SYSCALL_NUM], time: 0 },
    }
}

/// What the call for the information on the task makes of the kernel and
/// returns.
pub open spec fn sys_task_info_post(new: &Kernel, old: &Kernel, ti: usize, ret: isize) -> bool {
    &&& new.serving()
    &&& ret == 0 || ret == -1
    &&& ret == 0 <==> ti != 0 && old.task(old.current()).memory_set.accessible(
        ti,
        TASK_INFO_SIZE,
        spec_user_write(),
    )
    &&& ret == 0 ==> stored(
        new,
        old,
        ti,
        task_info_bytes(spec_current_task_info(old)),
    )
    &&& ret == -1 ==> new.unchanged(old)
}

/// Writes what the running task can learn of itself at `ti` into its
/// memory. Returns 0, or -1, and nothing changed, where `ti` is zero or the
/// task may not write the bytes at `ti`.
pub fn sys_task_info(kernel: &mut Kernel, ti: usize) -> (ret: isize)
    requires
        old(kernel).serving(),
    ensures
        sys_task_info_post(final(kernel), old(kernel), ti, ret),
{
    if ti == 0 {
        proof {
            kernel.lemma_unchanged(old(kernel));
        }
        return -1;
    }
    let info = current_task_info(kernel);
    let bytes = encode_task_info(&info);
    if store_for_current(kernel, ti, &bytes) {
        0
    } else {
        -1
    }
}

/// The count `count` after one more call, which stays at the greatest
/// number where it has reached it.
pub open spec fn spec_one_more(count: u32) -> u32 {
    if count < u32::MAX {
        (count + 1) as u32
    } else {
        count
    }
}

/// What counting one call of the system call `syscall_id` makes of the
/// kernel.
pub open spec fn update_syscall_times_post(new: &Kernel, old: &Kernel, syscall_id: usize) -> bool {
    &&& new.serving()
    &&& syscall_id >= MAX_SYSCALL_NUM ==> new.unchanged(old)
    &&& syscall_id < MAX_SYSCALL_NUM ==> {
        let pid = old.current();
        let task = new.task(pid);
        let before = old.task(pid);
        &&& new.same_but_task(old, pid)
        &&& new.frames == old.frames
        &&& task == (TaskControlBlock { syscall_times: task.syscall_times, ..before })
        &&& task.syscall_times@ == before.syscall_times@.update(
            syscall_id as int,
            spec_one_more(before.syscall_times@[syscall_id as int]),
        )
    }
}

/// Counts one more call of the system call `syscall_id` for the running
/// task. A number that is no system call number is not counted.
pub fn update_syscall_times(kernel: &mut Kernel, syscall_id: usize)
    requires
        old(kernel).serving(),
    ensures
        update_syscall_times_post(final(kernel), old(kernel), syscall_id),
{
    let pid = kernel.processor.current.unwrap();
    proof {
        assert(kernel.alive(pid));
        assert(kernel.task(pid).wf());
    }
    if syscall_id >= MAX_SYSCALL_NUM {
        proof {
            kernel.lemma_unchanged(old(kernel));
        }
        return;
    }
    match &mut kernel.tasks[pid] {
        Some(task) => {
            let count = task.syscall_times[syscall_id];
            if count < u32::MAX {
                task.syscall_times[syscall_id] = count + 1;
            }
        },
        None => {},
    }
    proof {
        assert(kernel.task(pid).syscall_times@ =~= old(kernel).task(pid).syscall_times@.update(
            syscall_id as int,
            spec_one_more(old(kernel).task(pid).syscall_times@[syscall_id as int]),
        ));
        kernel.lemma_task_kept(old(kernel), pid);
    }
}

} // verus!
