//! The system calls on files.
//!
//! The files live outside the kernel core. A call here checks what the task
//! asks for against its table of open files and its address space, and
//! hands out what is to be done with the file; what came of it comes back
//! as plain values.

use vstd::prelude::*;
use crate::fs::{FileHandle, OpenFlags};
use crate::mm::translated::{le_bytes, spec_user_read, spec_user_write, to_le_bytes, user_write};
use crate::syscall::info::{store_for_current, stored};
use crate::task::kernel::Kernel;
use crate::task::task::TaskControlBlock;

verus! {

/// The handle in the slot `fd` of the open files of the running task, if
/// the slot exists and is taken.
pub open spec fn spec_current_file(kernel: &Kernel, fd: usize) -> Option<FileHandle> {
    let table = kernel.task(kernel.current()).fd_table@;
    if fd < table.len() {
        table[fd as int]
    } else {
        None
    }
}

/// The handle in the slot `fd` of the open files of the running task.
pub fn current_file(kernel: &Kernel, fd: usize) -> (file: Option<FileHandle>)
    requires
        kernel.serving(),
    ensures
        file == spec_current_file(kernel, fd),
{
    let pid = kernel.processor.current.unwrap();
    proof {
        assert(kernel.alive(pid));
    }
    match &kernel.tasks[pid] {
        Some(task) => {
            if fd < task.fd_table.len() {
                task.fd_table[fd]
            } else {
                None
            }
        },
        None => None,
    }
}

/// Bytes to write to a file.
pub struct WriteRequest {
    /// The file.
    pub file: FileHandle,
    /// The bytes, copied out of the memory of the task.
    pub data: Vec<u8>,
}

/// A range of the memory of a task to fill from a file.
#[derive(Clone, Copy, Debug, PartialEq, Eq, Structural)]
pub struct ReadRequest {
    /// The file.
    pub file: FileHandle,
    /// Virtual address of the range.
    pub buf: usize,
    /// Bytes in the range.
    pub len: usize,
}

/// What the call to write to a file hands out.
pub open spec fn sys_write_post(kernel: &Kernel, fd: usize, buf: usize, len: usize, request:
    Option<WriteRequest>) -> bool {
    &&& request is Some <==> spec_current_file(kernel, fd) is Some && spec_current_file(
        kernel,
        fd,
    )->0.writable && kernel.task(kernel.current()).memory_set.accessible(
        buf,
        len,
        spec_user_read(),
    )
    &&& request matches Some(r) ==> r.file == spec_current_file(kernel, fd)->0 && r.data@
        == kernel.task(kernel.current()).memory_set.bytes_at(buf, len as int)
}

/// The running task asks to write the `len` bytes at `buf` to its open file
/// `fd`. Returns the file and the bytes, or `None`, which stands for -1,
/// where the slot `fd` is free, the file is not open for writing, or the
/// task may not read the bytes.
pub fn sys_write(kernel: &Kernel, fd: usize, buf: usize, len: usize) -> (request: Option<WriteRequest>)
    requires
        kernel.serving(),
    ensures
        sys_write_post(kernel, fd, buf, len, request),
{
    let file = match current_file(kernel, fd) {
        Some(file) => file,
        None => {
            return None;
        },
    };
    if !file.writable {
        return None;
    }
    let pid = kernel.processor.current.unwrap();
    proof {
        assert(kernel.alive(pid));
        assert(kernel.task(pid).wf());
    }
    let data = match &kernel.tasks[pid] {
        Some(task) => task.memory_set.read_bytes(buf, len),
        None => None,
    };
    match data {
        Some(data) => Some(WriteRequest { file, data }),
        None => None,
    }
}

/// What the call to read from a file hands out.
pub open spec fn sys_read_post(kernel: &Kernel, fd: usize, buf: usize, len: usize, request:
    Option<ReadRequest>) -> bool {
    &&& request is Some <==> spec_current_file(kernel, fd) is Some && spec_current_file(
        kernel,
        fd,
    )->0.readable && kernel.task(kernel.current()).memory_set.accessible(
        buf,
        len,
        spec_user_write(),
    )
    &&& request matches Some(r) ==> r == (ReadRequest {
        file: spec_current_file(kernel, fd)->0,
        buf,
        len,
    })
}

/// The running task asks to read up to `len` bytes from its open file `fd`
/// into its memory at `buf`. Returns the file and the range, or `None`,
/// which stands for -1, where the slot `fd` is free, the file is not open
/// for reading, or the task may not write the range.
pub fn sys_read(kernel: &Kernel, fd: usize, buf: usize, len: usize) -> (request: Option<ReadRequest>)
    requires
        kernel.serving(),
    ensures
        sys_read_post(kernel, fd, buf, len, request),
{
    let file = match current_file(kernel, fd) {
        Some(file) => file,
        None => {
            return None;
        },
    };
    if !file.readable {
        return None;
    }
    let pid = kernel.processor.current.unwrap();
    proof {
        assert(kernel.alive(pid));
        assert(kernel.task(pid).wf());
    }
    let allowed = match &kernel.tasks[pid] {
        Some(task) => task.memory_set.can_access(buf, len, user_write()),
        None => false,
    };
    if allowed {
        Some(ReadRequest { file, buf, len })
    } else {
        None
    }
}

/// Hands the bytes `data` that were read from a file for the request
/// `request` to the running task, at the start of the range that the task
/// asked to fill. Returns the number of bytes, or -1, and nothing changed,
/// where the bytes are more than the task asked for or than a return value
/// can count, or the task may not write the range that they take.
pub fn complete_read(kernel: &mut Kernel, request: &ReadRequest, data: &Vec<u8>) -> (ret: isize)
    requires
        old(kernel).serving(),
    ensures
        final(kernel).serving(),
        ret != -1 <==> data@.len() <= request.len && data@.len() <= isize::MAX && old(kernel).task(
            old(kernel).current(),
        ).memory_set.accessible(request.buf, data.len(), spec_user_write()),
        ret != -1 ==> ret == data@.len() && stored(final(kernel), old(kernel), request.buf, data@),
        ret == -1 ==> final(kernel).unchanged(old(kernel)),
{
    if data.len() > request.len || data.len() > isize::MAX as usize {
        proof {
            kernel.lemma_unchanged(old(kernel));
        }
        return -1;
    }
    if store_for_current(kernel, request.buf, data) {
        data.len() as isize
    } else {
        -1
    }
}

/// What the running task asks to open.
pub struct OpenRequest {
    /// The name of the file, as bytes.
    pub name: Vec<u8>,
    /// The flags of the call.
    pub flags: OpenFlags,
    /// The file is to be read.
    pub readable: bool,
    /// The file is to be written.
    pub writable: bool,
}

/// The running task asks to open the file whose name stands at `path` in
/// its memory. Returns the name and what the flags ask for, or `None`, which
/// stands for -1, where the task may not read the name or `flags` holds a
/// bit that no flag has.
pub fn sys_open(kernel: &Kernel, path: usize, flags: u32) -> (request: Option<OpenRequest>)
    requires
        kernel.serving(),
    ensures
        request is Some <==> kernel.task(kernel.current()).memory_set.str_at(path) is Some
            && crate::fs::known_bits(flags),
        request matches Some(r) ==> {
            &&& Some(r.name@) == kernel.task(kernel.current()).memory_set.str_at(path)
            &&& r.flags.spec_bits() == flags
            &&& (r.readable, r.writable) == r.flags.spec_read_write()
        },
{
    let pid = kernel.processor.current.unwrap();
    proof {
        assert(kernel.alive(pid));
        assert(kernel.task(pid).wf());
    }
    let name = match &kernel.tasks[pid] {
        Some(task) => task.memory_set.translated_str(path),
        None => None,
    };
    let name = match name {
        Some(name) => name,
        None => {
            return None;
        },
    };
    let flags = match OpenFlags::from_bits(flags) {
        Some(flags) => flags,
        None => {
            return None;
        },
    };
    let (readable, writable) = flags.read_write();
    Some(OpenRequest { name, flags, readable, writable })
}

/// Puts the handle `file` of a file that was opened into the first free
/// slot of the open files of the running task, or into a new slot at their
/// end. Returns the number of the slot.
pub fn install_file(kernel: &mut Kernel, file: FileHandle) -> (fd: usize)
    requires
        old(kernel).serving(),
    ensures
        final(kernel).serving(),
        ({
            let pid = old(kernel).current();
            let task = final(kernel).task(pid);
            let before = old(kernel).task(pid);
            &&& final(kernel).same_but_task(old(kernel), pid)
            &&& final(kernel).frames == old(kernel).frames
            &&& task == (TaskControlBlock { fd_table: task.fd_table, ..before })
            &&& fd <= before.fd_table@.len()
            &&& forall|j: int| 0 <= j < fd ==> before.fd_table@[j] is Some
            &&& fd < before.fd_table@.len() ==> before.fd_table@[fd as int] is None && task.fd_table@
                == before.fd_table@.update(fd as int, Some(file))
            &&& fd == before.fd_table@.len() ==> task.fd_table@ == before.fd_table@.push(Some(file))
        }),
{
    let pid = kernel.processor.current.unwrap();
    proof {
        assert(kernel.alive(pid));
        assert(kernel.task(pid).wf());
    }
    let fd = match &mut kernel.tasks[pid] {
        Some(task) => {
            let fd = task.alloc_fd();
            task.fd_table[fd] = Some(file);
            fd
        },
        None => 0,
    };
    proof {
        let task = kernel.task(pid);
        let before = old(kernel).task(pid);
        if fd < before.fd_table@.len() {
            assert(task.fd_table@ =~= before.fd_table@.update(fd as int, Some(file)));
        } else {
            assert(task.fd_table@ =~= before.fd_table@.push(Some(file)));
        }
        kernel.lemma_task_kept(old(kernel), pid);
    }
    fd
}

/// Closes the open file `fd` of the running task: its slot is free again.
/// Returns 0, or -1, and nothing changed, where there is no such slot or it
/// is free.
pub fn sys_close(kernel: &mut Kernel, fd: usize) -> (ret: isize)
    requires
        old(kernel).serving(),
    ensures
        final(kernel).serving(),
        ret == 0 || ret == -1,
        ret == 0 <==> spec_current_file(old(kernel), fd) is Some,
        ret == -1 ==> final(kernel).unchanged(old(kernel)),
        ret == 0 ==> {
            let pid = old(kernel).current();
            let task = final(kernel).task(pid);
            let before = old(kernel).task(pid);
            &&& final(kernel).same_but_task(old(kernel), pid)
            &&& final(kernel).frames == old(kernel).frames
            &&& task == (TaskControlBlock { fd_table: task.fd_table, ..before })
            &&& task.fd_table@ == before.fd_table@.update(fd as int, None)
        },
{
    if current_file(kernel, fd).is_none() {
        proof {
            kernel.lemma_unchanged(old(kernel));
        }
        return -1;
    }
    let pid = kernel.processor.current.unwrap();
    proof {
        assert(kernel.alive(pid));
        assert(kernel.task(pid).wf());
    }
    match &mut kernel.tasks[pid] {
        Some(task) => {
            task.fd_table[fd] = None;
        },
        None => {},
    }
    proof {
        kernel.lemma_task_kept(old(kernel), pid);
    }
    0
}

/// Offset of the inode number in the status of a file as a task sees it.
pub const STAT_INO_OFFSET: usize = 8;

/// Bytes of the status of a file that the kernel fills in.
pub const STAT_FILLED: usize = 16;

/// The bytes that the kernel fills in of the status of a file: the inode
/// number in eight bytes, the mode in four and the number of links in four.
pub open spec fn stat_bytes(ino: u64, mode: u32, nlink: u32) -> Seq<u8> {
    le_bytes(ino as nat, 8) + le_bytes(mode as nat, 4) + le_bytes(nlink as nat, 4)
}

/// Writes the inode number, the mode and the number of links of the open
/// file `fd` of the running task, which the file layer has given, into the
/// status at `st` in the memory of the task. Returns 0, or -1, and nothing
/// changed, where the slot `fd` is free or the task may not write the
/// status.
pub fn sys_fstat(kernel: &mut Kernel, fd: usize, st: usize, ino: u64, mode: u32, nlink: u32) -> (ret:
    isize)
    requires
        old(kernel).serving(),
    ensures
        final(kernel).serving(),
        ret == 0 || ret == -1,
        ret == 0 <==> spec_current_file(old(kernel), fd) is Some && st <= usize::MAX - STAT_INO_OFFSET
            && old(kernel).task(old(kernel).current()).memory_set.accessible(
            (st + STAT_INO_OFFSET) as usize,
            STAT_FILLED,
            spec_user_write(),
        ),
        ret == 0 ==> stored(
            final(kernel),
            old(kernel),
            (st + STAT_INO_OFFSET) as usize,
            stat_bytes(ino, mode, nlink),
        ),
        ret == -1 ==> final(kernel).unchanged(old(kernel)),
{
    if current_file(kernel, fd).is_none() || st > usize::MAX - STAT_INO_OFFSET {
        proof {
            kernel.lemma_unchanged(old(kernel));
        }
        return -1;
    }
    let mut bytes = to_le_bytes(ino, 8);
    let mut more = to_le_bytes(mode as u64, 4);
    bytes.append(&mut more);
    let mut last = to_le_bytes(nlink as u64, 4);
    bytes.append(&mut last);
    if store_for_current(kernel, st + STAT_INO_OFFSET, &bytes) {
        0
    } else {
        -1
    }
}

/// The running task asks to give the file whose name stands at `old_name`
/// in its memory the further name that stands at `new_name`. Returns the two
/// names, or `None`, which stands for -1, where the task may not read one
/// of them.
pub fn sys_linkat(kernel: &Kernel, old_name: usize, new_name: usize) -> (names: Option<(Vec<u8>, Vec<u8>)>)
    requires
        kernel.serving(),
    ensures
        names is Some <==> kernel.task(kernel.current()).memory_set.str_at(old_name) is Some
            && kernel.task(kernel.current()).memory_set.str_at(new_name) is Some,
        names matches Some(pair) ==> Some(pair.0@) == kernel.task(kernel.current()).memory_set.str_at(
            old_name,
        ) && Some(pair.1@) == kernel.task(kernel.current()).memory_set.str_at(new_name),
{
    let pid = kernel.processor.current.unwrap();
    proof {
        assert(kernel.alive(pid));
        assert(kernel.task(pid).wf());
    }
    match &kernel.tasks[pid] {
        Some(task) => {
            let first = match task.memory_set.translated_str(old_name) {
                Some(name) => name,
                None => {
                    return None;
                },
            };
            match task.memory_set.translated_str(new_name) {
                Some(second) => Some((first, second)),
                None => None,
            }
        },
        None => None,
    }
}

/// The running task asks to take the name that stands at `name` in its
/// memory from its file. Returns the name, or `None`, which stands for -1,
/// where the task may not read it.
pub fn sys_unlinkat(kernel: &Kernel, name: usize) -> (found: Option<Vec<u8>>)
    requires
        kernel.serving(),
    ensures
        match found {
            Some(bytes) => Some(bytes@) == kernel.task(kernel.current()).memory_set.str_at(name),
            None => kernel.task(kernel.current()).memory_set.str_at(name) is None,
        },
{
    let pid = kernel.processor.current.unwrap();
    proof {
        assert(kernel.alive(pid));
        assert(kernel.task(pid).wf());
    }
    match &kernel.tasks[pid] {
        Some(task) => task.memory_set.translated_str(name),
        None => None,
    }
}

} // verus!
