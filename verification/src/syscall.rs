//! System-call dispatch. On `ecall` the trap vector hands the dispatcher
//! the call id and arguments; handlers read the current thread's state,
//! act on the kernel, and the dispatcher stages the return value into a0
//! and advances sepc past the `ecall`. A handler that must block reports
//! it as its outcome and the dispatcher parks the caller; the call is
//! retried after wakeup with the frame unchanged.

use vstd::prelude::*;

use crate::consts::BIG_STRIDE;
use crate::consts::FD_TABLE_SIZE;
use crate::fs::file::FileDescriptorType;
use crate::kernel::file_valid;
use crate::kernel::kernel_wf;
use crate::kernel::Kernel;
use crate::process;
use crate::process::structs::thread_wf;

verus! {

pub const SYS_OPEN: usize = 56;

pub const SYS_CLOSE: usize = 57;

pub const SYS_PIPE: usize = 59;

pub const SYS_READ: usize = 63;

pub const SYS_WRITE: usize = 64;

pub const SYS_EXIT: usize = 93;

pub const SYS_SETPRIORITY: usize = 140;

pub const SYS_TIMES: usize = 153;

pub const SYS_FORK: usize = 220;

pub const SYS_EXEC: usize = 221;

/// What a system call asks of the trap-return path.
pub enum SyscallOutcome {
    /// Stage the value into a0 and resume past the `ecall`.
    Ret(isize),
    /// The thread exited; there is no frame to resume.
    Exit(usize),
    /// A pipe read found the queue empty: the caller sleeps one tick and
    /// retries the call.
    SleepRetry,
    /// A console read found no input: the caller waits on the stdin
    /// condition variable and retries the call.
    WaitStdin,
    /// `exec` started a child: stage the value, then park until the
    /// child exits.
    Park(isize),
}

/// The fd table of the running thread.
pub open spec fn cur_ofile(k: Kernel) -> Seq<Option<usize>> {
    k.cpu.current->Some_0.1.ofile@
}

/// The file cell descriptor `fd` of the running thread names.
pub open spec fn cur_cell(k: Kernel, fd: int) -> int {
    cur_ofile(k)[fd]->Some_0 as int
}

/// Byte `i` of `v` is the mapped, non-NUL user byte at `vaddr + i`.
pub open spec fn cstr_byte_ok(k: Kernel, vaddr: usize, v: Seq<u8>, i: int) -> bool {
    &&& k.user_addr_ok(k.cur_ms(), ((vaddr + i) as usize))
    &&& v[i] == k.user_byte(k.cur_ms(), ((vaddr + i) as usize))
    &&& v[i] != 0
}

/// `v` spells out the user bytes from `vaddr` on, none of them NUL.
pub open spec fn cstr_prefix_ok(k: Kernel, vaddr: usize, v: Seq<u8>) -> bool {
    forall|i: int| 0 <= i < v.len() ==> #[trigger] cstr_byte_ok(k, vaddr, v, i)
}

/// A whole NUL-terminated string `v` stands at `vaddr`: its bytes are
/// the mapped, non-NUL user bytes there, and a mapped NUL follows.
pub open spec fn cstr_at(k: Kernel, vaddr: usize, v: Seq<u8>) -> bool {
    &&& cstr_prefix_ok(k, vaddr, v)
    &&& vaddr + v.len() <= usize::MAX
    &&& k.user_addr_ok(k.cur_ms(), (vaddr + v.len()) as usize)
    &&& k.user_byte(k.cur_ms(), (vaddr + v.len()) as usize) == 0
}

/// At most one NUL-terminated string stands at an address: memory fixes
/// both the bytes and where the first NUL falls.
pub proof fn lemma_cstr_unique(k: Kernel, vaddr: usize, v1: Seq<u8>, v2: Seq<u8>)
    requires
        cstr_at(k, vaddr, v1),
        cstr_at(k, vaddr, v2),
    ensures
        v1 == v2,
{
    if v1.len() < v2.len() {
        assert(cstr_byte_ok(k, vaddr, v2, v1.len() as int));
    } else if v2.len() < v1.len() {
        assert(cstr_byte_ok(k, vaddr, v1, v2.len() as int));
    }
    assert forall|i: int| 0 <= i < v1.len() implies v1[i] == v2[i] by {
        assert(cstr_byte_ok(k, vaddr, v1, i));
        assert(cstr_byte_ok(k, vaddr, v2, i));
    }
    assert(v1 =~= v2);
}

/// Read the NUL-terminated byte string at `vaddr` in the running
/// thread's address space.
pub fn from_cstr(k: &Kernel, vaddr: usize) -> (r: Option<Vec<u8>>)
    requires
        kernel_wf(*k),
        k.has_cur_ms(),
    ensures
        r matches Some(v) ==> cstr_at(*k, vaddr, v@),
        r is None ==> forall|pb: Seq<u8>| !(#[trigger] cstr_at(*k, vaddr, pb)),
{
    let mut v: Vec<u8> = Vec::new();
    let mut addr: usize = vaddr;
    loop
        invariant
            kernel_wf(*k),
            k.has_cur_ms(),
            vaddr <= addr,
            addr - vaddr == v@.len(),
            cstr_prefix_ok(*k, vaddr, v@),
        decreases usize::MAX - addr,
    {
        match k.try_user_read(addr) {
            Some(b) => {
                if b == 0 {
                    proof {
                        assert(((vaddr + v@.len()) as usize) == addr);
                        assert(k.user_addr_ok(k.cur_ms(), (vaddr + v@.len()) as usize));
                        assert(k.user_byte(k.cur_ms(), (vaddr + v@.len()) as usize) == 0);
                    }
                    return Some(v);
                }
                if addr == usize::MAX {
                    proof {
                        assert forall|pb: Seq<u8>| !(#[trigger] cstr_at(*k, vaddr, pb)) by {
                            if cstr_at(*k, vaddr, pb) {
                                if pb.len() < v@.len() {
                                    assert(cstr_byte_ok(*k, vaddr, v@, pb.len() as int));
                                } else {
                                    assert(((vaddr + pb.len()) as usize) == addr);
                                    assert(k.user_byte(k.cur_ms(), addr) == b);
                                }
                            }
                        }
                    }
                    return None;
                }
                let ghost pre_v = v@;
                v.push(b);
                proof {
                    assert forall|i: int|
                        0 <= i < v@.len() implies #[trigger] cstr_byte_ok(*k, vaddr, v@, i) by {
                        if i < pre_v.len() {
                            assert(cstr_byte_ok(*k, vaddr, pre_v, i));
                            assert(v@[i] == pre_v[i]);
                        } else {
                            assert(v@[i] == b);
                            assert(((vaddr + i) as usize) == addr);
                        }
                    }
                }
                addr += 1;
            },
            None => {
                proof {
                    assert forall|pb: Seq<u8>| !(#[trigger] cstr_at(*k, vaddr, pb)) by {
                        if cstr_at(*k, vaddr, pb) {
                            if pb.len() < v@.len() {
                                assert(cstr_byte_ok(*k, vaddr, v@, pb.len() as int));
                            } else if pb.len() == v@.len() {
                                assert(((vaddr + pb.len()) as usize) == addr);
                            } else {
                                assert(cstr_byte_ok(*k, vaddr, pb, v@.len() as int));
                                assert(((vaddr + v@.len()) as usize) == addr);
                            }
                        }
                    }
                }
                return None;
            },
        }
    }
}

/// Open `path` read/write per `flags` at the lowest free descriptor:
/// the fd, or -1 when the path does not resolve or the table is full.
pub fn sys_open(k: &mut Kernel, path_ptr: usize, flags: i32) -> (r: SyscallOutcome)
    requires
        kernel_wf(*old(k)),
        old(k).has_cur_ms(),
    ensures
        kernel_wf(*final(k)),
        final(k).cpu.current is Some,
        final(k).cpu.current matches Some((tid2, th2)) && tid2 == old(k).cpu.current_tid_spec()
            && th2.tf == old(k).cpu.current->Some_0.1.tf && th2.memory_set == old(k).cpu.current->Some_0.1.memory_set && th2.wait == old(k).cpu.current->Some_0.1.wait,
        *final(k) == (Kernel { cpu: final(k).cpu, files: final(k).files, ..*old(k) }),
        final(k).cpu.pool == old(k).cpu.pool,
        r matches SyscallOutcome::Ret(v) ==> v >= 0 ==> {
            &&& 3 <= v < FD_TABLE_SIZE
            &&& cur_ofile(*old(k))[v as int] is None
            &&& forall|j: int| 3 <= j < v ==> cur_ofile(*old(k))[j] is Some
            &&& cur_ofile(*final(k)) == cur_ofile(*old(k)).update(
                v as int,
                Some(old(k).files@.len() as usize),
            )
            &&& final(k).files@.len() == old(k).files@.len() + 1
            &&& forall|c: int| 0 <= c < old(k).files@.len() ==> final(k).files@[c] == old(k).files@[c]
            &&& final(k).files@[old(k).files@.len() as int].fdtype is FdInode
            &&& final(k).files@[old(k).files@.len() as int].readable == ((flags & 1) == 0)
            &&& final(k).files@[old(k).files@.len() as int].writable == ((flags & 3) != 0)
            &&& final(k).files@[old(k).files@.len() as int].offset == 0
            &&& exists|pb: Seq<u8>, ino: int|
                #![trigger cstr_prefix_ok(*old(k), path_ptr, pb), old(k).fs.nodes@[ino]]
                {
                    &&& cstr_prefix_ok(*old(k), path_ptr, pb)
                    &&& 0 <= ino < old(k).fs.nodes@.len()
                    &&& old(k).fs.nodes@[ino].path@ == pb
                    &&& forall|j: int| 0 <= j < ino ==> old(k).fs.nodes@[j].path@ != pb
                    &&& final(k).files@[old(k).files@.len() as int].inode == Some(ino as usize)
                }
        },
        r matches SyscallOutcome::Ret(v) ==> v < 0 ==> {
            &&& v == -1
            &&& final(k).files == old(k).files
            &&& cur_ofile(*final(k)) == cur_ofile(*old(k))
        },
        (exists|pb: Seq<u8>, ino: int|
            #![trigger cstr_at(*old(k), path_ptr, pb), old(k).fs.nodes@[ino]]
            cstr_at(*old(k), path_ptr, pb) && 0 <= ino < old(k).fs.nodes@.len() && old(k).fs.nodes@[ino].path@ == pb) && (exists|fd: int|
            3 <= fd < FD_TABLE_SIZE && (#[trigger] cur_ofile(*old(k))[fd]) is None) ==> (r
            matches SyscallOutcome::Ret(v) && v >= 0),
        r is Ret,
{
    let path = match from_cstr(k, path_ptr) {
        Some(p) => p,
        None => {
            return SyscallOutcome::Ret(-1);
        },
    };
    let ino = match k.fs.lookup(&path) {
        Some(ino) => ino,
        None => {
            proof {
                if exists|pb: Seq<u8>, i2: int|
                    #![trigger cstr_at(*old(k), path_ptr, pb), old(k).fs.nodes@[i2]]
                    cstr_at(*old(k), path_ptr, pb) && 0 <= i2 < old(k).fs.nodes@.len() && old(k).fs.nodes@[i2].path@ == pb {
                    let (pb, i2) = choose|pb: Seq<u8>, i2: int|
                        #![trigger cstr_at(*old(k), path_ptr, pb), old(k).fs.nodes@[i2]]
                        cstr_at(*old(k), path_ptr, pb) && 0 <= i2 < old(k).fs.nodes@.len()
                            && old(k).fs.nodes@[i2].path@ == pb;
                    lemma_cstr_unique(*old(k), path_ptr, pb, path@);
                }
            }
            return SyscallOutcome::Ret(-1);
        },
    };
    let cell = k.files.len();
    let fd = match &mut k.cpu.current {
        Some((_, th)) => match th.alloc_fd(&mut k.files) {
            Some(fd) => fd,
            None => {
                return SyscallOutcome::Ret(-1);
            },
        },
        None => {
            proof {
                assert(false);
            }
            unreached()
        },
    };
    let file = &mut k.files[cell];
    file.open_file(ino, flags);
    proof {
        assert(cstr_prefix_ok(*old(k), path_ptr, path@));
        assert(old(k).fs.nodes@[ino as int].path@ == path@);
        assert(k.files@[old(k).files@.len() as int].inode == Some(ino));
        assert forall|c: int|
            0 <= c < k.files@.len() implies file_valid(#[trigger] k.files@[c], k.fs, k.pipes) by {
            if c < old(k).files@.len() {
                assert(k.files@[c] == old(k).files@[c]);
            }
        }
        assert forall|i: int|
            0 <= i < k.cpu.pool.slots@.len() implies ((#[trigger] k.cpu.pool.slots@[i]).thread
            matches Some(t) ==> thread_wf(t, k.files@.len() as int, k.tables, k.mem)) by {
            match k.cpu.pool.slots@[i].thread {
                Some(t) => {
                    assert(thread_wf(t, old(k).files@.len() as int, k.tables, k.mem));
                },
                None => {},
            }
        }
    }
    SyscallOutcome::Ret(fd as isize)
}

/// Release descriptor `fd`, which must be open; the cell stays with any
/// sharers.
pub fn sys_close(k: &mut Kernel, fd: i32) -> (r: SyscallOutcome)
    requires
        kernel_wf(*old(k)),
        old(k).cpu.current is Some,
        0 <= fd < FD_TABLE_SIZE,
        cur_ofile(*old(k))[fd as int] is Some,
    ensures
        kernel_wf(*final(k)),
        final(k).cpu.current is Some,
        final(k).cpu.current matches Some((tid2, th2)) && tid2 == old(k).cpu.current_tid_spec()
            && th2.tf == old(k).cpu.current->Some_0.1.tf && th2.memory_set == old(k).cpu.current->Some_0.1.memory_set && th2.wait == old(k).cpu.current->Some_0.1.wait,
        *final(k) == (Kernel { cpu: final(k).cpu, ..*old(k) }),
        final(k).cpu.pool == old(k).cpu.pool,
        cur_ofile(*final(k)) == cur_ofile(*old(k)).update(fd as int, None::<usize>),
        r matches SyscallOutcome::Ret(v) && v == 0,
{
    match &mut k.cpu.current {
        Some((_, th)) => {
            th.dealloc_fd(fd as usize);
        },
        None => {
            proof {
                assert(false);
            }
            unreached()
        },
    }
    SyscallOutcome::Ret(0)
}

/// Terminate the calling thread.
pub fn sys_exit(k: &mut Kernel, code: usize) -> (r: SyscallOutcome)
    requires
        kernel_wf(*old(k)),
        old(k).cpu.current is Some,
    ensures
        kernel_wf(*final(k)),
        *final(k) == *old(k),
        r matches SyscallOutcome::Exit(c) && c == code,
{
    SyscallOutcome::Exit(code)
}

/// Fork the calling thread: the child's address space is a deep copy,
/// its fd table names the same cells, and it observes the call returning
/// 0; the parent gets the child's tid, or -1 with the pool full.
pub fn sys_fork(k: &mut Kernel) -> (r: SyscallOutcome)
    requires
        kernel_wf(*old(k)),
        old(k).has_cur_ms(),
    ensures
        kernel_wf(*final(k)),
        final(k).cpu.current == old(k).cpu.current,
        *final(k) == (Kernel {
            cpu: final(k).cpu,
            tables: final(k).tables,
            mem: final(k).mem,
            next_kstack: final(k).next_kstack,
            ..*old(k)
        }),
        final(k).cpu.pool.slots@.len() == old(k).cpu.pool.slots@.len(),
        r matches SyscallOutcome::Ret(v) ==> v >= 0 ==> {
            &&& v < old(k).cpu.pool.slots@.len()
            &&& !old(k).cpu.pool.slots@[v as int].present
            &&& final(k).cpu.pool.slots@[v as int].present
            &&& final(k).cpu.pool.slots@[v as int].status
                is Ready
            &&& (final(k).cpu.pool.slots@[v as int].thread matches Some(child) && {
                &&& child.tf == (crate::process::structs::TrapFrame {
                    a0: 0,
                    ..old(k).cpu.current->Some_0.1.tf
                })
                &&& child.ofile@ == cur_ofile(*old(k))
                &&& child.wait is None
                &&& (child.memory_set matches Some(cms) && crate::memory::memory_set::clone_rel(
                    old(k).cur_ms(),
                    cms,
                    final(k).tables,
                    final(k).mem,
                    old(k).mem.frames@.len() as int,
                ))
            })
            &&& forall|i: int|
                0 <= i < old(k).cpu.pool.slots@.len() && i != v
                    ==> final(k).cpu.pool.slots@[i] == old(k).cpu.pool.slots@[i]
        },
        r matches SyscallOutcome::Ret(v) ==> v < 0 ==> v == -1 && final(k).cpu.pool.slots
            == old(k).cpu.pool.slots,
        (exists|s: int|
            0 <= s < old(k).cpu.pool.slots@.len() && !(#[trigger] old(k).cpu.pool.slots@[s]).present) ==> (r matches SyscallOutcome::Ret(v) && v >= 0),
        r is Ret,
{
    let kstack = k.next_kstack;
    if k.next_kstack < usize::MAX {
        k.next_kstack = k.next_kstack + 1;
    }
    let child = match &k.cpu.current {
        Some((_, th)) => th.fork(&mut k.tables, &mut k.mem, kstack),
        None => {
            proof {
                assert(false);
            }
            unreached()
        },
    };
    proof {
        crate::process::lemma_grow_all(*old(k), *k);
    }
    match k.cpu.add_thread(child) {
        Some(tid) => SyscallOutcome::Ret(tid as isize),
        None => SyscallOutcome::Ret(-1),
    }
}

/// Return elapsed time: the cycle counter scaled down.
pub fn sys_times(k: &Kernel) -> (r: SyscallOutcome)
    requires
        k.cycle as int / 200000 <= isize::MAX as int,
    ensures
        r matches SyscallOutcome::Ret(v) && v == k.cycle as int / 200000,
{
    let q = k.cycle / 200000;
    SyscallOutcome::Ret(q as isize)
}

/// Allocate two descriptors wired to one fresh shared byte queue and
/// write their numbers, as two little-endian 32-bit values, into the
/// caller's buffer. -1 when fewer than two descriptors are free.
pub fn sys_pipe(k: &mut Kernel, pipefd_ptr: usize) -> (r: SyscallOutcome)
    requires
        kernel_wf(*old(k)),
        old(k).has_cur_ms(),
        pipefd_ptr + 8 <= usize::MAX,
        forall|a: int|
            pipefd_ptr <= a < pipefd_ptr + 8 ==> old(k).user_addr_ok(
                old(k).cur_ms(),
                #[trigger] (a as usize),
            ),
    ensures
        kernel_wf(*final(k)),
        final(k).cpu.current is Some,
        final(k).cpu.current matches Some((tid2, th2)) && tid2 == old(k).cpu.current_tid_spec()
            && th2.tf == old(k).cpu.current->Some_0.1.tf && th2.memory_set == old(k).cpu.current->Some_0.1.memory_set && th2.wait == old(k).cpu.current->Some_0.1.wait,
        *final(k) == (Kernel {
            cpu: final(k).cpu,
            files: final(k).files,
            pipes: final(k).pipes,
            mem: final(k).mem,
            ..*old(k)
        }),
        final(k).cpu.pool == old(k).cpu.pool,
        r is Ret,
        r matches SyscallOutcome::Ret(v) ==> v == 0 || v == -1,
        r matches SyscallOutcome::Ret(v) ==> v == 0 ==> {
            &&& final(k).pipes.pipes@.len() == old(k).pipes.pipes@.len() + 1
            &&& exists|fd1: usize, fd2: usize|
                {
                    &&& 3 <= fd1 < fd2 < FD_TABLE_SIZE
                    &&& cur_ofile(*old(k))[fd1 as int] is None
                    &&& cur_ofile(*old(k))[fd2 as int] is None
                    &&& (forall|j: int| 3 <= j < fd1 ==> cur_ofile(*old(k))[j] is Some)
                    &&& (forall|j: int| fd1 < j < fd2 ==> cur_ofile(*old(k))[j] is Some)
                    &&& (#[trigger] cur_ofile(*final(k))[fd1 as int]) matches Some(c1)
                        && final(k).files@[c1 as int].fdtype is FdPipe && final(k).files@[
                        c1 as int
                    ].pipe == Some(old(k).pipes.pipes@.len() as usize) && final(k).files@[
                        c1 as int
                    ].readable && final(k).files@[c1 as int].writable
                    &&& (#[trigger] cur_ofile(*final(k))[fd2 as int]) matches Some(c2)
                        && final(k).files@[c2 as int].fdtype is FdPipe && final(k).files@[
                        c2 as int
                    ].pipe == Some(old(k).pipes.pipes@.len() as usize) && final(k).files@[
                        c2 as int
                    ].readable && final(k).files@[c2 as int].writable
                    &&& final(k).user_byte(final(k).cur_ms(), pipefd_ptr) == fd1 as u8
                    &&& final(k).user_byte(final(k).cur_ms(), (pipefd_ptr + 4) as usize) == fd2
                        as u8
                    &&& (forall|j: int|
                        0 <= j < 8 && j != 0 && j != 4 ==> final(k).user_byte(
                            final(k).cur_ms(),
                            #[trigger] ((pipefd_ptr + j) as usize),
                        ) == 0)
                }
        },
        r matches SyscallOutcome::Ret(v) ==> v == -1 ==> cur_ofile(*final(k)) =~= cur_ofile(
            *old(k),
        ),
        (exists|f1: int, f2: int|
            3 <= f1 < f2 < FD_TABLE_SIZE && (#[trigger] cur_ofile(*old(k))[f1]) is None && (
            #[trigger] cur_ofile(*old(k))[f2]) is None) ==> (r matches SyscallOutcome::Ret(v) && v
            == 0),
{
    let cell1 = k.files.len();
    let fd1 = match &mut k.cpu.current {
        Some((_, th)) => match th.alloc_fd(&mut k.files) {
            Some(fd) => fd,
            None => {
                return SyscallOutcome::Ret(-1);
            },
        },
        None => {
            proof {
                assert(false);
            }
            unreached()
        },
    };
    let cell2 = k.files.len();
    let fd2 = match &mut k.cpu.current {
        Some((_, th)) => match th.alloc_fd(&mut k.files) {
            Some(fd) => fd,
            None => {
                th.dealloc_fd(fd1);
                proof {
                    assert(cur_ofile(*k) =~= cur_ofile(*old(k)));
                    lemma_files_grow_wf(*old(k), *k);
                }
                return SyscallOutcome::Ret(-1);
            },
        },
        None => {
            proof {
                assert(false);
            }
            unreached()
        },
    };
    let pipe_id = k.pipes.create();
    let file1 = &mut k.files[cell1];
    file1.open_pipe(pipe_id);
    let file2 = &mut k.files[cell2];
    file2.open_pipe(pipe_id);
    proof {
        lemma_files_grow_wf(*old(k), *k);
    }
    let ghost mid = *k;
    let mut i: usize = 0;
    while i < 8
        invariant
            kernel_wf(*k),
            0 <= i <= 8,
            pipefd_ptr + 8 <= usize::MAX,
            fd1 < FD_TABLE_SIZE,
            fd2 < FD_TABLE_SIZE,
            *k == (Kernel { mem: k.mem, ..mid }),
            k.mem.frames@.len() == mid.mem.frames@.len(),
            k.has_cur_ms(),
            forall|a: int|
                pipefd_ptr <= a < pipefd_ptr + 8 ==> k.user_addr_ok(
                    k.cur_ms(),
                    #[trigger] (a as usize),
                ),
            forall|j: int|
                0 <= j < i ==> k.user_byte(
                    k.cur_ms(),
                    #[trigger] ((pipefd_ptr + j) as usize),
                ) == (if j == 0 {
                    fd1 as u8
                } else if j == 4 {
                    fd2 as u8
                } else {
                    0u8
                }),
        decreases 8 - i,
    {
        let b: u8 = if i == 0 {
            fd1 as u8
        } else if i == 4 {
            fd2 as u8
        } else {
            0
        };
        let ghost pre = *k;
        k.user_write_byte(pipefd_ptr + i, b);
        proof {
            assert forall|j: int|
                0 <= j < i implies k.user_byte(
                k.cur_ms(),
                #[trigger] ((pipefd_ptr + j) as usize),
            ) == (if j == 0 {
                fd1 as u8
            } else if j == 4 {
                fd2 as u8
            } else {
                0u8
            }) by {
                crate::kernel::lemma_user_byte_unchanged(
                    pre,
                    *k,
                    (pipefd_ptr + i) as usize,
                    (pipefd_ptr + j) as usize,
                    crate::memory::memory_set::target_frame(
                        pre.tables.tables@[pre.cur_ms().page_table as int].at(
                            (((pipefd_ptr + i) as usize) as int / (
                            crate::consts::PAGE_SIZE as int)) as usize,
                        ).target,
                    ),
                );
            }
        }
        i += 1;
    }
    proof {
        assert(cur_ofile(*k)[fd1 as int] == Some(cell1));
        assert(cur_ofile(*k)[fd2 as int] == Some(cell2));
        assert(k.files@[cell1 as int].fdtype is FdPipe);
        assert(k.files@[cell1 as int].pipe == Some(old(k).pipes.pipes@.len() as usize));
        assert(k.files@[cell1 as int].readable && k.files@[cell1 as int].writable);
        assert(k.files@[cell2 as int].fdtype is FdPipe);
        assert(k.files@[cell2 as int].pipe == Some(old(k).pipes.pipes@.len() as usize));
        assert(k.files@[cell2 as int].readable && k.files@[cell2 as int].writable);
        assert(cur_ofile(*old(k))[fd1 as int] is None);
        assert(cur_ofile(*old(k))[fd2 as int] is None);
        assert(fd1 < fd2) by {
            if fd2 < fd1 {
                assert(cur_ofile(*old(k)).update(fd1 as int, Some(cell1))[fd2 as int]
                    is Some);
            }
        }
        assert(forall|j: int| 3 <= j < fd1 ==> cur_ofile(*old(k))[j] is Some);
        assert forall|j: int| fd1 < j < fd2 implies cur_ofile(*old(k))[j] is Some by {
            assert(cur_ofile(*old(k)).update(fd1 as int, Some(cell1))[j] is Some);
        }
        assert(k.user_byte(k.cur_ms(), ((pipefd_ptr + 0) as usize)) == fd1 as u8);
        assert(k.user_byte(k.cur_ms(), ((pipefd_ptr + 4) as usize)) == fd2 as u8);
        assert forall|j: int|
            0 <= j < 8 && j != 0 && j != 4 implies k.user_byte(
            k.cur_ms(),
            #[trigger] ((pipefd_ptr + j) as usize),
        ) == 0 by {}
    }
    SyscallOutcome::Ret(0)
}

/// With files, pipes and the current thread's descriptor table altered
/// consistently — and nothing else — the kernel invariant stands again.
proof fn lemma_files_grow_wf(k0: Kernel, k1: Kernel)
    requires
        kernel_wf(k0),
        k1.mem == k0.mem,
        k1.tables == k0.tables,
        k1.fs == k0.fs,
        k1.kernel_set == k0.kernel_set,
        k1.timer == k0.timer,
        k1.layout == k0.layout,
        k1.files@.len() >= k0.files@.len(),
        forall|c: int|
            0 <= c < k1.files@.len() ==> file_valid(#[trigger] k1.files@[c], k1.fs, k1.pipes),
        k1.pipes.wf(),
        k1.cpu.pool == k0.cpu.pool,
        k1.cpu.idle == k0.cpu.idle,
        k1.cpu.current is Some && k0.cpu.current is Some,
        k1.cpu.current->Some_0.0 == k0.cpu.current->Some_0.0,
        k1.cpu.current->Some_0.1.memory_set == k0.cpu.current->Some_0.1.memory_set,
        k1.cpu.current->Some_0.1.ofile@.len() == k0.cpu.current->Some_0.1.ofile@.len(),
        forall|fd: int|
            0 <= fd < k1.cpu.current->Some_0.1.ofile@.len() ==> (
            #[trigger] k1.cpu.current->Some_0.1.ofile@[fd] matches Some(c) ==> c
                < k1.files@.len()),
    ensures
        kernel_wf(k1),
{
    assert(k1.cpu.wf()) by {
        assert(k1.cpu.pool.wf());
        match k1.cpu.current {
            Some((tid, _)) => {
                assert(k0.cpu.current matches Some((t0, _)) && t0 == tid);
            },
            None => {},
        }
    }
    assert forall|i: int|
        0 <= i < k1.cpu.pool.slots@.len() implies ((#[trigger] k1.cpu.pool.slots@[i]).thread
        matches Some(t) ==> thread_wf(t, k1.files@.len() as int, k1.tables, k1.mem)) by {
        match k1.cpu.pool.slots@[i].thread {
            Some(t) => {
                assert(thread_wf(t, k0.files@.len() as int, k0.tables, k0.mem));
            },
            None => {},
        }
    }
}

/// Read from descriptor `fd` into the caller's buffer. fd 0 is console
/// input: one byte, blocking while none is buffered. An inode read takes
/// up to `len` bytes at the file offset and advances it. A pipe read
/// takes one byte, or reports that the caller must sleep a tick and
/// retry while the queue is empty.
pub fn sys_read(k: &mut Kernel, fd: usize, base: usize, len: usize) -> (r: SyscallOutcome)
    requires
        kernel_wf(*old(k)),
        old(k).has_cur_ms(),
        fd == 0 ==> old(k).user_addr_ok(old(k).cur_ms(), base),
        fd != 0 ==> {
            &&& fd < FD_TABLE_SIZE
            &&& cur_ofile(*old(k))[fd as int] is Some
            &&& old(k).files@[cur_cell(*old(k), fd as int)].readable
            &&& !(old(k).files@[cur_cell(*old(k), fd as int)].fdtype is FdNone)
            &&& old(k).files@[cur_cell(*old(k), fd as int)].fdtype is FdPipe
                ==> old(k).user_addr_ok(old(k).cur_ms(), base)
            &&& old(k).files@[cur_cell(*old(k), fd as int)].fdtype is FdInode ==> {
                &&& base + len <= usize::MAX
                &&& len as int <= isize::MAX as int
                &&& crate::kernel::user_range_ok(*old(k), old(k).cur_ms(), base, len as int)
            }
        },
    ensures
        kernel_wf(*final(k)),
        final(k).cpu.current is Some,
        final(k).cpu.current matches Some((tid2, th2)) && tid2 == old(k).cpu.current_tid_spec()
            && th2.tf == old(k).cpu.current->Some_0.1.tf && th2.memory_set == old(k).cpu.current->Some_0.1.memory_set && th2.wait == old(k).cpu.current->Some_0.1.wait,
        final(k).cpu.pool == old(k).cpu.pool,
        final(k).fs == old(k).fs,
        fd == 0 ==> {
            &&& (r matches SyscallOutcome::Ret(v) ==> v == 1 && old(k).stdin.buf@.len() > 0
                && final(k).user_byte(final(k).cur_ms(), base) == old(k).stdin.buf@[0] && final(k).stdin.buf@ == old(k).stdin.buf@.skip(1) && *final(k) == (Kernel {
                mem: final(k).mem,
                stdin: final(k).stdin,
                ..*old(k)
            }))
            &&& (r is WaitStdin ==> old(k).stdin.buf@.len() == 0 && *final(k) == *old(k)
                && final(k).stdin == old(k).stdin)
            &&& (r is Ret || r is WaitStdin)
        },
        fd != 0 && old(k).files@[cur_cell(*old(k), fd as int)].fdtype is FdInode ==> (r matches
            SyscallOutcome::Ret(v) && {
            let cell = cur_cell(*old(k), fd as int);
            let file = old(k).files@[cell];
            let size = old(k).fs.nodes@[file.inode->Some_0 as int].data@.len();
            &&& v == if file.offset + len <= size {
                len as int
            } else {
                size - file.offset
            }
            &&& final(k).files@ == old(k).files@.update(
                cell,
                crate::fs::file::File { offset: (file.offset + v) as usize, ..file },
            )
            &&& *final(k) == (Kernel { mem: final(k).mem, files: final(k).files, ..*old(k) })
            &&& final(k).mem.frames@.len() == old(k).mem.frames@.len()
            &&& forall|j: int|
                0 <= j < v ==> final(k).user_byte(
                    final(k).cur_ms(),
                    #[trigger] ((base + j) as usize),
                ) == old(k).fs.nodes@[file.inode->Some_0 as int].data@[file.offset + j]
        }),
        fd != 0 && old(k).files@[cur_cell(*old(k), fd as int)].fdtype is FdPipe ==> {
            let pipe = old(k).files@[cur_cell(*old(k), fd as int)].pipe->Some_0 as int;
            &&& (r matches SyscallOutcome::Ret(v) ==> v == 1 && old(k).pipes.pipes@[
                pipe
            ].buf@.len() > 0 && final(k).pipes.pipes@[pipe].nread@ == old(k).pipes.pipes@[
                pipe
            ].nread@ + 1 && final(k).user_byte(final(k).cur_ms(), base) == old(k).pipes.pipes@[
                pipe
            ].hist@[old(k).pipes.pipes@[pipe].nread@ as int] && final(k).pipes.pipes@[
                pipe
            ].hist@ == old(k).pipes.pipes@[pipe].hist@ && final(k).pipes.pipes@[pipe].buf@
                == old(k).pipes.pipes@[pipe].buf@.skip(1) && final(k).pipes.pipes@.len() == old(k).pipes.pipes@.len() && (forall|q: int|
                0 <= q < old(k).pipes.pipes@.len() && q != pipe ==> final(k).pipes.pipes@[q]
                    == old(k).pipes.pipes@[q]) && *final(k) == (Kernel {
                mem: final(k).mem,
                pipes: final(k).pipes,
                ..*old(k)
            }))
            &&& (r is SleepRetry ==> old(k).pipes.pipes@[pipe].buf@.len() == 0 && *final(k)
                == (Kernel { pipes: final(k).pipes, ..*old(k) }) && final(k).pipes.pipes@ == old(k).pipes.pipes@)
            &&& (r is Ret || r is SleepRetry)
        },
{
    if fd == 0 {
        let b = match k.stdin.try_pop() {
            Some(b) => b,
            None => {
                return SyscallOutcome::WaitStdin;
            },
        };
        proof {
            lemma_stdin_wf(*old(k), *k);
        }
        k.user_write_byte(base, b);
        return SyscallOutcome::Ret(1);
    }
    let cell = match &k.cpu.current {
        Some((_, th)) => match th.ofile[fd] {
            Some(c) => c,
            None => {
                proof {
                    assert(false);
                }
                unreached()
            },
        },
        None => {
            proof {
                assert(false);
            }
            unreached()
        },
    };
    let fdtype = k.files[cell].get_fdtype();
    match fdtype {
        FileDescriptorType::FdInode => {
            let ino = match k.files[cell].inode {
                Some(ino) => ino,
                None => {
                    proof {
                        assert(false);
                    }
                    unreached()
                },
            };
            let offset = k.files[cell].get_offset();
            let v = k.fs.read_at(ino, offset, len);
            let n = v.len();
            let mut i: usize = 0;
            let ghost mid = *k;
            while i < n
                invariant
                    kernel_wf(*k),
                    0 <= i <= n,
                    base + len <= usize::MAX,
                    n <= len,
                    *k == (Kernel { mem: k.mem, ..mid }),
                    k.mem.frames@.len() == mid.mem.frames@.len(),
                    k.has_cur_ms(),
                    n == v@.len(),
                    forall|a: int|
                        base <= a < base + len ==> k.user_addr_ok(
                            k.cur_ms(),
                            #[trigger] (a as usize),
                        ),
                    forall|j: int|
                        0 <= j < i ==> k.user_byte(k.cur_ms(), #[trigger] ((base + j) as usize))
                            == v@[j],
                decreases n - i,
            {
                let ghost pre = *k;
                k.user_write_byte(base + i, v[i]);
                proof {
                    assert forall|j: int|
                        0 <= j < i implies k.user_byte(
                        k.cur_ms(),
                        #[trigger] ((base + j) as usize),
                    ) == v@[j] by {
                        crate::kernel::lemma_user_byte_unchanged(
                            pre,
                            *k,
                            (base + i) as usize,
                            (base + j) as usize,
                            crate::memory::memory_set::target_frame(
                                pre.tables.tables@[pre.cur_ms().page_table as int].at(
                                    (((base + i) as usize) as int / (
                                    crate::consts::PAGE_SIZE as int)) as usize,
                                ).target,
                            ),
                        );
                    }
                }
                i += 1;
            }
            proof {
                assert(cell as int == cur_cell(*old(k), fd as int));
                assert(k.files@[cell as int] == old(k).files@[cell as int]);
                assert(file_valid(old(k).files@[cell as int], old(k).fs, old(k).pipes));
                assert(offset == old(k).files@[cell as int].offset);
                assert(offset <= old(k).fs.nodes@[ino as int].data@.len());
                assert(offset + n <= old(k).fs.nodes@[ino as int].data@.len());
            }
            let size_now = k.fs.nodes[ino].data.len();
            proof {
                assert(offset + n <= size_now);
            }
            let file = &mut k.files[cell];
            file.set_offset(offset + n);
            proof {
                lemma_files_update_wf(*old(k), *k, cell as int);
            }
            SyscallOutcome::Ret(n as isize)
        },
        FileDescriptorType::FdPipe => {
            let pipe = match k.files[cell].pipe {
                Some(p) => p,
                None => {
                    proof {
                        assert(false);
                    }
                    unreached()
                },
            };
            let b = match k.pipes.pop_byte(pipe) {
                Some(b) => b,
                None => {
                    proof {
                        assert(k.pipes.pipes@ =~= old(k).pipes.pipes@);
                        lemma_pipes_wf(*old(k), *k);
                    }
                    return SyscallOutcome::SleepRetry;
                },
            };
            proof {
                lemma_pipes_wf(*old(k), *k);
            }
            k.user_write_byte(base, b);
            SyscallOutcome::Ret(1)
        },
        FileDescriptorType::FdNone => {
            proof {
                assert(false);
            }
            unreached()
        },
    }
}

/// Write to descriptor `fd` from the caller's buffer. fd 1 is the
/// console: one byte. An inode write puts `len` bytes at the file offset
/// and advances it; a pipe write appends one byte.
pub fn sys_write(k: &mut Kernel, fd: usize, base: usize, len: usize) -> (r: SyscallOutcome)
    requires
        kernel_wf(*old(k)),
        old(k).has_cur_ms(),
        fd == 1 ==> len == 1 && old(k).user_addr_ok(old(k).cur_ms(), base),
        fd != 1 ==> {
            &&& fd < FD_TABLE_SIZE
            &&& cur_ofile(*old(k))[fd as int] is Some
            &&& old(k).files@[cur_cell(*old(k), fd as int)].writable
            &&& !(old(k).files@[cur_cell(*old(k), fd as int)].fdtype is FdNone)
            &&& old(k).files@[cur_cell(*old(k), fd as int)].fdtype is FdPipe
                ==> old(k).user_addr_ok(old(k).cur_ms(), base)
            &&& old(k).files@[cur_cell(*old(k), fd as int)].fdtype is FdInode ==> {
                &&& base + len <= usize::MAX
                &&& len as int <= isize::MAX as int
                &&& old(k).files@[cur_cell(*old(k), fd as int)].offset + len <= usize::MAX
                &&& crate::kernel::user_range_ok(*old(k), old(k).cur_ms(), base, len as int)
            }
        },
    ensures
        kernel_wf(*final(k)),
        final(k).cpu.current is Some,
        final(k).cpu.current matches Some((tid2, th2)) && tid2 == old(k).cpu.current_tid_spec()
            && th2.tf == old(k).cpu.current->Some_0.1.tf && th2.memory_set == old(k).cpu.current->Some_0.1.memory_set && th2.wait == old(k).cpu.current->Some_0.1.wait,
        final(k).cpu.pool == old(k).cpu.pool,
        final(k).mem == old(k).mem,
        fd == 1 ==> (r matches SyscallOutcome::Ret(v) && v == 1 && final(k).stdout@ == old(k).stdout@.push(old(k).user_byte(old(k).cur_ms(), base)) && *final(k) == (Kernel {
            stdout: final(k).stdout,
            ..*old(k)
        })),
        fd != 1 && old(k).files@[cur_cell(*old(k), fd as int)].fdtype is FdInode ==> (r matches
            SyscallOutcome::Ret(v) && {
            let cell = cur_cell(*old(k), fd as int);
            let file = old(k).files@[cell];
            let ino = file.inode->Some_0 as int;
            &&& v == len
            &&& final(k).fs.nodes@[ino].data@ == crate::fs::rootfs::write_bytes_at(
                old(k).fs.nodes@[ino].data@,
                file.offset as int,
                Seq::new(len as nat, |i: int| old(k).user_byte(old(k).cur_ms(), ((base + i) as usize))),
            )
            &&& final(k).fs.nodes@.len() == old(k).fs.nodes@.len()
            &&& (forall|q: int|
                0 <= q < old(k).fs.nodes@.len() && q != ino ==> final(k).fs.nodes@[q] == old(k).fs.nodes@[q])
            &&& final(k).files@ == old(k).files@.update(
                cell,
                crate::fs::file::File { offset: (file.offset + len) as usize, ..file },
            )
            &&& *final(k) == (Kernel { fs: final(k).fs, files: final(k).files, ..*old(k) })
        }),
        fd != 1 && old(k).files@[cur_cell(*old(k), fd as int)].fdtype is FdPipe ==> (r matches
            SyscallOutcome::Ret(v) && {
            let pipe = old(k).files@[cur_cell(*old(k), fd as int)].pipe->Some_0 as int;
            &&& v == 1
            &&& final(k).pipes.pipes@[pipe].hist@ == old(k).pipes.pipes@[pipe].hist@.push(
                old(k).user_byte(old(k).cur_ms(), base),
            )
            &&& final(k).pipes.pipes@[pipe].nread@ == old(k).pipes.pipes@[pipe].nread@
            &&& final(k).pipes.pipes@[pipe].buf@ == old(k).pipes.pipes@[pipe].buf@.push(
                old(k).user_byte(old(k).cur_ms(), base),
            )
            &&& final(k).pipes.pipes@.len() == old(k).pipes.pipes@.len()
            &&& (forall|q: int|
                0 <= q < old(k).pipes.pipes@.len() && q != pipe ==> final(k).pipes.pipes@[q]
                    == old(k).pipes.pipes@[q])
            &&& *final(k) == (Kernel { pipes: final(k).pipes, ..*old(k) })
        }),
{
    if fd == 1 {
        let b = match k.try_user_read(base) {
            Some(b) => b,
            None => {
                proof {
                    assert(false);
                }
                unreached()
            },
        };
        k.stdout.push(b);
        return SyscallOutcome::Ret(1);
    }
    let cell = match &k.cpu.current {
        Some((_, th)) => match th.ofile[fd] {
            Some(c) => c,
            None => {
                proof {
                    assert(false);
                }
                unreached()
            },
        },
        None => {
            proof {
                assert(false);
            }
            unreached()
        },
    };
    let fdtype = k.files[cell].get_fdtype();
    match fdtype {
        FileDescriptorType::FdInode => {
            let ino = match k.files[cell].inode {
                Some(ino) => ino,
                None => {
                    proof {
                        assert(false);
                    }
                    unreached()
                },
            };
            let offset = k.files[cell].get_offset();
            let mut v: Vec<u8> = Vec::new();
            let mut i: usize = 0;
            while i < len
                invariant
                    kernel_wf(*k),
                    *k == *old(k),
                    0 <= i <= len,
                    base + len <= usize::MAX,
                    k.has_cur_ms(),
                    v@.len() == i,
                    forall|a: int|
                        base <= a < base + len ==> k.user_addr_ok(
                            k.cur_ms(),
                            #[trigger] (a as usize),
                        ),
                    forall|j: int|
                        0 <= j < i ==> #[trigger] v@[j] == k.user_byte(
                            k.cur_ms(),
                            ((base + j) as usize),
                        ),
                decreases len - i,
            {
                let b = match k.try_user_read(base + i) {
                    Some(b) => b,
                    None => {
                        proof {
                            assert(false);
                        }
                        unreached()
                    },
                };
                v.push(b);
                i += 1;
            }
            let n = k.fs.write_at(ino, offset, &v);
            let file = &mut k.files[cell];
            file.set_offset(offset + n);
            proof {
                assert(v@ =~= Seq::new(
                    len as nat,
                    |i: int| old(k).user_byte(old(k).cur_ms(), ((base + i) as usize)),
                ));
                lemma_fs_files_update_wf(*old(k), *k, cell as int);
            }
            SyscallOutcome::Ret(n as isize)
        },
        FileDescriptorType::FdPipe => {
            let pipe = match k.files[cell].pipe {
                Some(p) => p,
                None => {
                    proof {
                        assert(false);
                    }
                    unreached()
                },
            };
            let b = match k.try_user_read(base) {
                Some(b) => b,
                None => {
                    proof {
                        assert(false);
                    }
                    unreached()
                },
            };
            k.pipes.push_byte(pipe, b);
            proof {
                lemma_pipes_wf(*old(k), *k);
            }
            SyscallOutcome::Ret(1)
        },
        FileDescriptorType::FdNone => {
            proof {
                assert(false);
            }
            unreached()
        },
    }
}

/// Consuming stdin bytes disturbs no kernel invariant.
proof fn lemma_stdin_wf(k0: Kernel, k1: Kernel)
    requires
        kernel_wf(k0),
        k1 == (Kernel { stdin: k1.stdin, ..k0 }),
    ensures
        kernel_wf(k1),
{
}

/// Updating one file cell to a still-valid descriptor disturbs no kernel
/// invariant.
proof fn lemma_files_update_wf(k0: Kernel, k1: Kernel, cell: int)
    requires
        kernel_wf(k0),
        k1.mem.wf(),
        k1.mem.frames@.len() == k0.mem.frames@.len(),
        k1 == (Kernel { mem: k1.mem, files: k1.files, ..k0 }),
        k1.files@.len() == k0.files@.len(),
        forall|c: int| 0 <= c < k0.files@.len() && c != cell ==> k1.files@[c] == k0.files@[c],
        0 <= cell < k1.files@.len(),
        file_valid(k1.files@[cell], k1.fs, k1.pipes),
    ensures
        kernel_wf(k1),
{
    assert forall|c: int|
        0 <= c < k1.files@.len() implies file_valid(#[trigger] k1.files@[c], k1.fs, k1.pipes) by {
        if c != cell {
            assert(k1.files@[c] == k0.files@[c]);
        }
    }
}

/// A filesystem write plus the matching offset advance disturbs no
/// kernel invariant: grown files keep every valid offset valid.
proof fn lemma_fs_files_update_wf(k0: Kernel, k1: Kernel, cell: int)
    requires
        kernel_wf(k0),
        k1 == (Kernel { fs: k1.fs, files: k1.files, ..k0 }),
        k1.fs.nodes@.len() == k0.fs.nodes@.len(),
        forall|j: int|
            0 <= j < k0.fs.nodes@.len() ==> (#[trigger] k1.fs.nodes@[j]).data@.len()
                >= k0.fs.nodes@[j].data@.len(),
        k1.files@.len() == k0.files@.len(),
        forall|c: int| 0 <= c < k0.files@.len() && c != cell ==> k1.files@[c] == k0.files@[c],
        0 <= cell < k1.files@.len(),
        file_valid(k1.files@[cell], k1.fs, k1.pipes),
    ensures
        kernel_wf(k1),
{
    assert forall|c: int|
        0 <= c < k1.files@.len() implies file_valid(#[trigger] k1.files@[c], k1.fs, k1.pipes) by {
        if c != cell {
            assert(k1.files@[c] == k0.files@[c]);
            assert(file_valid(k0.files@[c], k0.fs, k0.pipes));
        }
    }
}

/// Pushing or popping pipe bytes disturbs no kernel invariant.
proof fn lemma_pipes_wf(k0: Kernel, k1: Kernel)
    requires
        kernel_wf(k0),
        k1 == (Kernel { pipes: k1.pipes, ..k0 }),
        k1.pipes.wf(),
        k1.pipes.pipes@.len() == k0.pipes.pipes@.len(),
    ensures
        kernel_wf(k1),
{
}

/// Load the program named by the string at `path_ptr` as a new thread
/// hosted by the caller; the caller parks until it exits, and the call
/// returns 0. A path that does not resolve — or no room for the thread —
/// is a recoverable failure: -1, caller not parked.
pub fn sys_exec(k: &mut Kernel, path_ptr: usize) -> (r: SyscallOutcome)
    requires
        kernel_wf(*old(k)),
        old(k).has_cur_ms(),
    ensures
        kernel_wf(*final(k)),
        final(k).cpu.current == old(k).cpu.current,
        final(k).cpu.current is Some,
        r matches SyscallOutcome::Ret(v) ==> v == -1 && final(k).cpu.pool.slots == old(k).cpu.pool.slots,
        r matches SyscallOutcome::Park(v) ==> v == 0 && exists|tid: int|
            {
                &&& 0 <= tid < final(k).cpu.pool.slots@.len()
                &&& (#[trigger] final(k).cpu.pool.slots@[tid]).present
                &&& final(k).cpu.pool.slots@[tid].status is Ready
                &&& final(k).cpu.scheduler_queued(tid as usize)
                &&& (final(k).cpu.pool.slots@[tid].thread matches Some(t) && t.wait == Some(
                    old(k).cpu.current_tid_spec(),
                ) && t.tf.sepc == crate::consts::USER_BASE && t.memory_set is Some)
            },
        (exists|pb: Seq<u8>, ino: int|
            #![trigger cstr_at(*old(k), path_ptr, pb), old(k).fs.nodes@[ino]]
            {
                &&& cstr_at(*old(k), path_ptr, pb)
                &&& 0 <= ino < old(k).fs.nodes@.len()
                &&& old(k).fs.nodes@[ino].path@ == pb
                &&& (forall|j: int| 0 <= j < ino ==> old(k).fs.nodes@[j].path@ != pb)
                &&& old(k).fs.nodes@[ino].data@.len() <= crate::consts::USER_STACK_BOTTOM
                    - crate::consts::USER_BASE
            }) && (exists|s: int|
            0 <= s < old(k).cpu.pool.slots@.len() && !(#[trigger] old(k).cpu.pool.slots@[s]).present)
            ==> r is Park,
        r is Ret || r is Park,
{
    let path = match from_cstr(k, path_ptr) {
        Some(p) => p,
        None => {
            return SyscallOutcome::Ret(-1);
        },
    };
    let tid = process::current_tid(k);
    let valid = process::execute(k, &path, Some(tid));
    if valid {
        proof {
            let witness = choose|t: int|
                {
                    &&& 0 <= t < old(k).cpu.pool.slots@.len()
                    &&& !(#[trigger] old(k).cpu.pool.slots@[t]).present
                    &&& k.cpu.pool.slots@[t].present
                    &&& k.cpu.pool.slots@[t].status is Ready
                    &&& k.cpu.scheduler_queued(t as usize)
                    &&& (k.cpu.pool.slots@[t].thread matches Some(t2) && t2.wait == Some(tid)
                        && t2.tf.sepc == crate::consts::USER_BASE && t2.memory_set is Some)
                };
            assert(k.cpu.pool.slots@[witness].present);
        }
        SyscallOutcome::Park(0)
    } else {
        proof {
            if exists|pb: Seq<u8>, ino: int|
                #![trigger cstr_at(*old(k), path_ptr, pb), old(k).fs.nodes@[ino]]
                {
                    &&& cstr_at(*old(k), path_ptr, pb)
                    &&& 0 <= ino < old(k).fs.nodes@.len()
                    &&& old(k).fs.nodes@[ino].path@ == pb
                    &&& (forall|j: int| 0 <= j < ino ==> old(k).fs.nodes@[j].path@ != pb)
                    &&& old(k).fs.nodes@[ino].data@.len() <= crate::consts::USER_STACK_BOTTOM
                        - crate::consts::USER_BASE
                } {
                let (pb, ino) = choose|pb: Seq<u8>, ino: int|
                    #![trigger cstr_at(*old(k), path_ptr, pb), old(k).fs.nodes@[ino]]
                    {
                        &&& cstr_at(*old(k), path_ptr, pb)
                        &&& 0 <= ino < old(k).fs.nodes@.len()
                        &&& old(k).fs.nodes@[ino].path@ == pb
                        &&& (forall|j: int| 0 <= j < ino ==> old(k).fs.nodes@[j].path@ != pb)
                        &&& old(k).fs.nodes@[ino].data@.len() <= crate::consts::USER_STACK_BOTTOM
                            - crate::consts::USER_BASE
                    };
                lemma_cstr_unique(*old(k), path_ptr, pb, path@);
            }
        }
        SyscallOutcome::Ret(-1)
    }
}

/// Set the calling thread's stride pass to `BIG_STRIDE / priority`:
/// larger priorities accumulate stride more slowly and run more often.
/// Priority 0 is clamped to 1.
pub fn sys_set_priority(k: &mut Kernel, priority: usize) -> (r: SyscallOutcome)
    requires
        kernel_wf(*old(k)),
        old(k).cpu.current is Some,
    ensures
        kernel_wf(*final(k)),
        final(k).cpu.current == old(k).cpu.current,
        final(k).cpu.idle == old(k).cpu.idle,
        *final(k) == (Kernel { cpu: final(k).cpu, ..*old(k) }),
        final(k).cpu.pool.slots == old(k).cpu.pool.slots,
        r matches SyscallOutcome::Ret(v) && v == 0,
        (old(k).cpu.pool.scheduler matches
            crate::process::thread_pool::SchedulerKind::Stride(s0) && old(k).cpu.current_tid_spec() < s0.threads@.len()) ==> (final(k).cpu.pool.scheduler matches
            crate::process::thread_pool::SchedulerKind::Stride(s1) && s1.threads@[old(k).cpu.current_tid_spec() as int].pass == (if priority == 0 {
            BIG_STRIDE as int
        } else {
            BIG_STRIDE as int / priority as int
        })),
{
    let tid = process::current_tid(k);
    let pass = if priority == 0 {
        BIG_STRIDE
    } else {
        BIG_STRIDE / priority
    };
    k.cpu.pool.scheduler.set_pass(tid, pass);
    proof {
        assert(k.cpu.wf()) by {
            assert(k.cpu.pool.wf());
        }
    }
    SyscallOutcome::Ret(0)
}


/// Stage a syscall return: write the value into the caller's a0 and
/// advance sepc past the 4-byte `ecall`.
fn stage_return(k: &mut Kernel, v: isize)
    requires
        kernel_wf(*old(k)),
        old(k).cpu.current is Some,
        old(k).cpu.current->Some_0.1.tf.sepc + 4 <= usize::MAX,
    ensures
        kernel_wf(*final(k)),
        *final(k) == (Kernel { cpu: final(k).cpu, ..*old(k) }),
        final(k).cpu.pool == old(k).cpu.pool,
        final(k).cpu.idle == old(k).cpu.idle,
        final(k).cpu.current matches Some((tid, th)) && tid == old(k).cpu.current_tid_spec() && th
            == (crate::process::structs::Thread {
            tf: crate::process::structs::TrapFrame {
                a0: v as usize,
                sepc: (old(k).cpu.current->Some_0.1.tf.sepc + 4) as usize,
                ..old(k).cpu.current->Some_0.1.tf
            },
            ..old(k).cpu.current->Some_0.1
        }),
{
    let t = process::current_thread_mut(k);
    t.tf.a0 = v as usize;
    t.tf.sepc = t.tf.sepc + 4;
    proof {
        let th2 = k.cpu.current->Some_0.1;
        assert(th2.ofile@ == old(k).cpu.current->Some_0.1.ofile@);
        assert(thread_wf(th2, k.files@.len() as int, k.tables, k.mem));
    }
}

/// Dispatch a system call: run the handler for `id`, then either stage
/// the return value and resume, or carry out the blocking the handler
/// asked for — park for `exec`, sleep a tick for an empty pipe, wait on
/// stdin for an empty console — or tear the thread down on exit.
pub fn syscall(k: &mut Kernel, id: usize, args: [usize; 3]) -> (r: SyscallOutcome)
    requires
        kernel_wf(*old(k)),
        old(k).cpu.current is Some,
        old(k).has_cur_ms(),
        old(k).cpu.current->Some_0.1.tf.sepc + 4 <= usize::MAX,
        old(k).ticks < u64::MAX,
        id == SYS_OPEN || id == SYS_CLOSE || id == SYS_PIPE || id == SYS_READ || id == SYS_WRITE
            || id == SYS_EXIT || id == SYS_SETPRIORITY || id == SYS_TIMES || id == SYS_FORK || id
            == SYS_EXEC,
        id == SYS_CLOSE ==> 0 <= args[0] < FD_TABLE_SIZE && cur_ofile(*old(k))[args[0] as int]
            is Some,
        id == SYS_PIPE ==> args[0] + 8 <= usize::MAX && (forall|a: int|
            args[0] <= a < args[0] + 8 ==> old(k).user_addr_ok(
                old(k).cur_ms(),
                #[trigger] (a as usize),
            )),
        id == SYS_READ ==> {
            &&& args[0] == 0 ==> old(k).user_addr_ok(old(k).cur_ms(), args[1])
            &&& args[0] != 0 ==> {
                &&& args[0] < FD_TABLE_SIZE
                &&& cur_ofile(*old(k))[args[0] as int] is Some
                &&& old(k).files@[cur_cell(*old(k), args[0] as int)].readable
                &&& !(old(k).files@[cur_cell(*old(k), args[0] as int)].fdtype is FdNone)
                &&& old(k).files@[cur_cell(*old(k), args[0] as int)].fdtype is FdPipe ==> old(k).user_addr_ok(old(k).cur_ms(), args[1])
                &&& old(k).files@[cur_cell(*old(k), args[0] as int)].fdtype is FdInode ==> {
                    &&& args[1] + args[2] <= usize::MAX
                    &&& args[2] as int <= isize::MAX as int
                    &&& crate::kernel::user_range_ok(
                        *old(k),
                        old(k).cur_ms(),
                        args[1],
                        args[2] as int,
                    )
                }
            }
        },
        id == SYS_WRITE ==> {
            &&& args[0] == 1 ==> args[2] == 1 && old(k).user_addr_ok(old(k).cur_ms(), args[1])
            &&& args[0] != 1 ==> {
                &&& args[0] < FD_TABLE_SIZE
                &&& cur_ofile(*old(k))[args[0] as int] is Some
                &&& old(k).files@[cur_cell(*old(k), args[0] as int)].writable
                &&& !(old(k).files@[cur_cell(*old(k), args[0] as int)].fdtype is FdNone)
                &&& old(k).files@[cur_cell(*old(k), args[0] as int)].fdtype is FdPipe ==> old(k).user_addr_ok(old(k).cur_ms(), args[1])
                &&& old(k).files@[cur_cell(*old(k), args[0] as int)].fdtype is FdInode ==> {
                    &&& args[1] + args[2] <= usize::MAX
                    &&& args[2] as int <= isize::MAX as int
                    &&& old(k).files@[cur_cell(*old(k), args[0] as int)].offset + args[2]
                        <= usize::MAX
                    &&& crate::kernel::user_range_ok(
                        *old(k),
                        old(k).cur_ms(),
                        args[1],
                        args[2] as int,
                    )
                }
            }
        },
        id == SYS_TIMES ==> old(k).cycle as int / 200000 <= isize::MAX as int,
    ensures
        kernel_wf(*final(k)),
        r matches SyscallOutcome::Ret(v) ==> {
            &&& final(k).cpu.current is Some
            &&& final(k).cpu.current->Some_0.1.tf.a0 == v as usize
            &&& final(k).cpu.current->Some_0.1.tf.sepc == old(k).cpu.current->Some_0.1.tf.sepc + 4
        },
        r is Exit ==> final(k).cpu.current is None && !final(k).cpu.pool.slots@[old(k).cpu.current_tid_spec() as int].present,
        (r is SleepRetry || r is WaitStdin || r is Park) ==> final(k).cpu.current is None && final(k).cpu.pool.slots@[old(k).cpu.current_tid_spec() as int].status is Sleeping,
        id == SYS_CLOSE ==> (r matches SyscallOutcome::Ret(v) && v == 0 && cur_ofile(*final(k))
            == cur_ofile(*old(k)).update(args[0] as int, None::<usize>)),
        id == SYS_EXIT ==> r is Exit,
        id == SYS_FORK ==> r is Ret,
        id == SYS_OPEN ==> r is Ret,
        id == SYS_PIPE ==> r is Ret,
        id == SYS_TIMES ==> (r matches SyscallOutcome::Ret(v) && v == old(k).cycle as int
            / 200000) && *final(k) == (Kernel { cpu: final(k).cpu, ..*old(k) }) && final(k).cpu.pool == old(k).cpu.pool && final(k).cpu.idle == old(k).cpu.idle,
        id == SYS_SETPRIORITY ==> (r matches SyscallOutcome::Ret(v) && v == 0) && final(k).cpu.pool.slots == old(k).cpu.pool.slots && ((old(k).cpu.pool.scheduler matches
            crate::process::thread_pool::SchedulerKind::Stride(s0) && old(k).cpu.current_tid_spec() < s0.threads@.len()) ==> (final(k).cpu.pool.scheduler matches
            crate::process::thread_pool::SchedulerKind::Stride(s1) && s1.threads@[old(k).cpu.current_tid_spec() as int].pass == (if args[0] == 0 {
            BIG_STRIDE as int
        } else {
            BIG_STRIDE as int / args[0] as int
        }))),
{
    let outcome = if id == SYS_OPEN {
        sys_open(k, args[0], args[1] as i32)
    } else if id == SYS_CLOSE {
        sys_close(k, args[0] as i32)
    } else if id == SYS_READ {
        sys_read(k, args[0], args[1], args[2])
    } else if id == SYS_WRITE {
        sys_write(k, args[0], args[1], args[2])
    } else if id == SYS_EXIT {
        sys_exit(k, args[0])
    } else if id == SYS_SETPRIORITY {
        sys_set_priority(k, args[0])
    } else if id == SYS_TIMES {
        sys_times(k)
    } else if id == SYS_FORK {
        sys_fork(k)
    } else if id == SYS_PIPE {
        sys_pipe(k, args[0])
    } else {
        sys_exec(k, args[0])
    };
    match outcome {
        SyscallOutcome::Ret(v) => {
            stage_return(k, v);
            SyscallOutcome::Ret(v)
        },
        SyscallOutcome::Exit(code) => {
            process::exit(k, code);
            SyscallOutcome::Exit(code)
        },
        SyscallOutcome::SleepRetry => {
            let tid = process::current_tid(k);
            k.timer.add(k.ticks + 1, tid);
            process::park(k);
            SyscallOutcome::SleepRetry
        },
        SyscallOutcome::WaitStdin => {
            let tid = process::current_tid(k);
            k.stdin.wait(tid);
            proof {
                lemma_stdin_wf(*old(k), *k);
            }
            process::park(k);
            SyscallOutcome::WaitStdin
        },
        SyscallOutcome::Park(v) => {
            stage_return(k, v);
            process::park(k);
            SyscallOutcome::Park(v)
        },
    }
}

/// Law: opening then closing a path leaves the fd table identical to its
/// pre-call state. `open` fills the lowest free descriptor `fd` — a slot
/// holding `None` — with a fresh cell, and `close` clears exactly that
/// slot again.
pub proof fn lemma_open_close_round_trip(ofile: Seq<Option<usize>>, fd: int, cell: usize)
    requires
        0 <= fd < ofile.len(),
        ofile[fd] is None,
    ensures
        ofile.update(fd, Some(cell)).update(fd, None::<usize>) == ofile,
{
    assert(ofile.update(fd, Some(cell)).update(fd, None::<usize>) =~= ofile);
}

} // verus!
