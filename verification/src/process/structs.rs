//! Threads and their saved state: the trap frame staged on the kernel
//! stack, the context the switch primitive swaps, the per-thread file
//! descriptor table, and fork.
//!
//! The trap frame carries the registers the kernel reads or stages —
//! syscall arguments and return value (a0–a2), the stack pointer, and the
//! csr snapshot; the rest of the register bank rides through the
//! black-box trap vector untouched.

use vstd::prelude::*;

use crate::consts::FD_TABLE_SIZE;
use crate::consts::PAGE_SIZE;
use crate::consts::SSTATUS_SPIE;
use crate::consts::SSTATUS_SPP;
use crate::consts::USER_BASE;
use crate::consts::USER_CEILING;
use crate::consts::USER_STACK_BOTTOM;
use crate::consts::USER_STACK_TOP;
use crate::fs::file::File;
use crate::memory::attr::MemoryAttr;
use crate::memory::memory_set::clone_rel;
use crate::memory::memory_set::kernel_areas;
use crate::memory::memory_set::layout_wf;
use crate::memory::memory_set::set_wf;
use crate::memory::memory_set::KernelLayout;
use crate::memory::memory_set::MemoryArea;
use crate::memory::memory_set::MemoryHandler;
use crate::memory::memory_set::MemorySet;
use crate::memory::paging::PageTables;
use crate::memory::phys::PhysMemory;

verus! {

/// The architectural state saved at trap entry, as far as the kernel
/// reads or writes it.
#[derive(Clone, Copy, Debug, PartialEq, Eq, Structural)]
pub struct TrapFrame {
    /// Stack pointer (x2) to restore on return.
    pub sp: usize,
    /// First argument and syscall return value (x10).
    pub a0: usize,
    /// Second argument (x11).
    pub a1: usize,
    /// Third argument (x12).
    pub a2: usize,
    pub sstatus: usize,
    pub sepc: usize,
    pub stval: usize,
    pub scause: usize,
}

/// The callee-saved state the context-switch primitive swaps; the model
/// keeps the saved stack pointer.
#[derive(Clone, Copy, Debug, PartialEq, Eq, Structural)]
pub struct Context {
    pub content_addr: usize,
}

/// A token for an allocated kernel stack.
#[derive(Clone, Copy, Debug, PartialEq, Eq, Structural)]
pub struct KernelStack {
    pub id: usize,
}

pub struct Thread {
    pub context: Context,
    pub kstack: KernelStack,
    /// The trap frame staged at the top of the kernel stack.
    pub tf: TrapFrame,
    /// Absent for kernel threads, which run in the boot address space.
    pub memory_set: Option<MemorySet>,
    /// File descriptor table: each open slot names an open-file cell.
    pub ofile: Vec<Option<usize>>,
    /// The host thread to wake when this thread exits, set by `exec`.
    pub wait: Option<usize>,
}

/// A thread's obligations on the kernel structures it points into.
pub open spec fn thread_wf(t: Thread, nfiles: int, ts: PageTables, mem: PhysMemory) -> bool {
    &&& t.ofile@.len() == FD_TABLE_SIZE
    &&& forall|fd: int|
        0 <= fd < FD_TABLE_SIZE ==> (#[trigger] t.ofile@[fd] matches Some(c) ==> c < nfiles)
    &&& t.memory_set matches Some(ms) ==> set_wf(ms, ts, mem)
}

/// An empty descriptor table.
pub fn empty_ofile() -> (v: Vec<Option<usize>>)
    ensures
        v@.len() == FD_TABLE_SIZE,
        forall|fd: int| 0 <= fd < FD_TABLE_SIZE ==> #[trigger] v@[fd] is None,
{
    let mut v: Vec<Option<usize>> = Vec::new();
    let mut i: usize = 0;
    while i < FD_TABLE_SIZE
        invariant
            0 <= i <= FD_TABLE_SIZE,
            v@.len() == i,
            forall|fd: int| 0 <= fd < i ==> #[trigger] v@[fd] is None,
        decreases FD_TABLE_SIZE - i,
    {
        v.push(None);
        i += 1;
    }
    v
}

impl Thread {
    /// A kernel thread: its trap frame returns to supervisor mode with
    /// interrupts enabled, at `entry`.
    pub fn new_kernel(entry: usize, kstack: usize) -> (t: Thread)
        ensures
            t.tf.sepc == entry,
            t.tf.sstatus == SSTATUS_SPP | SSTATUS_SPIE,
            t.tf.a0 == 0 && t.tf.a1 == 0 && t.tf.a2 == 0,
            t.memory_set is None,
            t.wait is None,
            t.kstack.id == kstack,
            t.ofile@.len() == FD_TABLE_SIZE,
            forall|fd: int| 0 <= fd < FD_TABLE_SIZE ==> #[trigger] t.ofile@[fd] is None,
    {
        Thread {
            context: Context { content_addr: 0 },
            kstack: KernelStack { id: kstack },
            tf: TrapFrame {
                sp: 0,
                a0: 0,
                a1: 0,
                a2: 0,
                sstatus: SSTATUS_SPP | SSTATUS_SPIE,
                sepc: entry,
                stval: 0,
                scause: 0,
            },
            memory_set: None,
            ofile: empty_ofile(),
            wait: None,
        }
    }

    /// Stage initial argument registers for a freshly built thread.
    pub fn append_initial_arguments(&mut self, args: [usize; 3])
        ensures
            *final(self) == (Thread {
                tf: TrapFrame {
                    a0: args[0],
                    a1: args[1],
                    a2: args[2],
                    ..old(self).tf
                },
                ..*old(self)
            }),
    {
        self.tf.a0 = args[0];
        self.tf.a1 = args[1];
        self.tf.a2 = args[2];
    }

    /// A user thread from a program image: the loader places the image at
    /// `USER_BASE` with its entry there, and gives the thread a fresh
    /// address space with a user stack; the trap frame returns to user
    /// mode at the entry with sp at the stack top.
    pub fn new_user(
        data: &Vec<u8>,
        host_tid: Option<usize>,
        ts: &mut PageTables,
        mem: &mut PhysMemory,
        l: &KernelLayout,
        kstack: usize,
    ) -> (t: Thread)
        requires
            old(mem).wf(),
            layout_wf(*l),
            data@.len() <= USER_STACK_BOTTOM - USER_BASE,
        ensures
            final(mem).wf(),
            t.memory_set matches Some(ms) && set_wf(ms, *final(ts), *final(mem))
                && ms.areas@.len() == kernel_areas(*l).len() + 2,
            t.tf.sepc == USER_BASE,
            t.tf.sp == USER_STACK_TOP,
            t.tf.sstatus == SSTATUS_SPIE,
            t.wait == host_tid,
            t.kstack.id == kstack,
            t.ofile@.len() == FD_TABLE_SIZE,
            forall|fd: int| 0 <= fd < FD_TABLE_SIZE ==> #[trigger] t.ofile@[fd] is None,
            final(ts).tables@.len() == old(ts).tables@.len() + 1,
            forall|tt: int|
                0 <= tt < old(ts).tables@.len() ==> final(ts).tables@[tt] == old(ts).tables@[tt],
            final(mem).frames@.len() >= old(mem).frames@.len(),
            forall|i: int|
                0 <= i < old(mem).frames@.len() ==> final(mem).frames@[i] == old(mem).frames@[i],
            final(mem).freed == old(mem).freed,
    {
        let mut ms = MemorySet::new(ts, mem, l);
        let npages = (data.len() + PAGE_SIZE - 1) / PAGE_SIZE;
        let code_end = USER_BASE + npages * PAGE_SIZE;
        proof {
            assert(npages * PAGE_SIZE <= USER_STACK_BOTTOM - USER_BASE) by (nonlinear_arith)
                requires
                    npages == (data@.len() + PAGE_SIZE - 1) / (PAGE_SIZE as int),
                    data@.len() <= USER_STACK_BOTTOM - USER_BASE,
                    PAGE_SIZE == 4096,
                    USER_STACK_BOTTOM - USER_BASE == 0x70000,
            ;
            assert(code_end as int % (PAGE_SIZE as int) == 0) by (nonlinear_arith)
                requires
                    code_end == USER_BASE + npages * PAGE_SIZE,
                    npages * PAGE_SIZE <= USER_STACK_BOTTOM - USER_BASE,
                    PAGE_SIZE == 4096,
                    USER_BASE == 0x10000,
                    USER_STACK_BOTTOM == 0x80000,
            ;
            assert forall|k: int|
                0 <= k < ms.areas@.len() implies (#[trigger] ms.areas@[k]).start
                >= USER_CEILING by {
                assert(ms.areas@[k] == kernel_areas(*l)[k]);
            }
        }
        ms.push(
            ts,
            mem,
            USER_BASE,
            code_end,
            MemoryAttr::new().set_user().set_execute(),
            MemoryHandler::ByFrame,
            Some(data),
        );
        ms.push(
            ts,
            mem,
            USER_STACK_BOTTOM,
            USER_STACK_TOP,
            MemoryAttr::new().set_user(),
            MemoryHandler::ByFrame,
            None,
        );
        Thread {
            context: Context { content_addr: 0 },
            kstack: KernelStack { id: kstack },
            tf: TrapFrame {
                sp: USER_STACK_TOP,
                a0: 0,
                a1: 0,
                a2: 0,
                sstatus: SSTATUS_SPIE,
                sepc: USER_BASE,
                stval: 0,
                scause: 0,
            },
            memory_set: Some(ms),
            ofile: empty_ofile(),
            wait: host_tid,
        }
    }

    /// The lowest free descriptor past the reserved console descriptors
    /// 0..3, wired to a fresh open-file cell; `None` when the table is
    /// full.
    pub fn alloc_fd(&mut self, files: &mut Vec<File>) -> (r: Option<usize>)
        ensures
            match r {
                Some(fd) => {
                    &&& 3 <= fd < old(self).ofile@.len()
                    &&& old(self).ofile@[fd as int] is None
                    &&& forall|j: int| 3 <= j < fd ==> old(self).ofile@[j] is Some
                    &&& final(self).ofile@ == old(self).ofile@.update(
                        fd as int,
                        Some(old(files)@.len() as usize),
                    )
                    &&& final(files)@ == old(files)@.push(
                        File {
                            fdtype: crate::fs::file::FileDescriptorType::FdNone,
                            readable: false,
                            writable: false,
                            inode: None,
                            pipe: None,
                            offset: 0,
                        },
                    )
                },
                None => {
                    &&& (forall|j: int|
                        3 <= j < old(self).ofile@.len() ==> #[trigger] old(self).ofile@[j]
                            is Some)
                    &&& *final(self) == *old(self)
                    &&& *final(files) == *old(files)
                },
            },
            final(self).tf == old(self).tf,
            final(self).memory_set == old(self).memory_set,
            final(self).wait == old(self).wait,
            final(self).ofile@.len() == old(self).ofile@.len(),
    {
        let n = self.ofile.len();
        let mut fd: usize = 3;
        while fd < n
            invariant
                n == self.ofile@.len(),
                3 <= fd <= n + 3,
                fd <= n || fd == 3,
                forall|j: int| 3 <= j < fd ==> self.ofile@[j] is Some,
                *self == *old(self),
                files == old(files),
            decreases n - fd,
        {
            if self.ofile[fd].is_none() {
                let cell = files.len();
                files.push(File::default());
                self.ofile[fd] = Some(cell);
                return Some(fd);
            }
            fd += 1;
        }
        None
    }

    /// Release descriptor `fd`; its cell stays with any sharers.
    pub fn dealloc_fd(&mut self, fd: usize)
        requires
            fd < old(self).ofile@.len(),
            old(self).ofile@[fd as int] is Some,
        ensures
            final(self).ofile@ == old(self).ofile@.update(fd as int, None::<usize>),
            final(self).tf == old(self).tf,
            final(self).memory_set == old(self).memory_set,
            final(self).wait == old(self).wait,
    {
        self.ofile[fd] = None;
    }

    /// Fork this thread: clone the address space eagerly, copy the trap
    /// frame with the child's a0 staged to zero so the child observes
    /// `fork` returning 0, and duplicate the descriptor table cell for
    /// cell.
    pub fn fork(
        &self,
        ts: &mut PageTables,
        mem: &mut PhysMemory,
        kstack: usize,
    ) -> (child: Thread)
        requires
            old(mem).wf(),
            self.memory_set matches Some(ms) && set_wf(ms, *old(ts), *old(mem)),
        ensures
            final(mem).wf(),
            self.memory_set matches Some(pms) && child.memory_set matches Some(cms) && {
                &&& set_wf(pms, *final(ts), *final(mem))
                &&& set_wf(cms, *final(ts), *final(mem))
                &&& clone_rel(pms, cms, *final(ts), *final(mem), old(mem).frames@.len() as int)
                &&& cms.page_table == old(ts).tables@.len()
            },
            child.tf == (TrapFrame { a0: 0, ..self.tf }),
            child.ofile@ == self.ofile@,
            child.wait is None,
            child.kstack.id == kstack,
            final(ts).tables@.len() == old(ts).tables@.len() + 1,
            forall|tt: int|
                0 <= tt < old(ts).tables@.len() ==> final(ts).tables@[tt] == old(ts).tables@[tt],
            final(mem).frames@.len() >= old(mem).frames@.len(),
            forall|i: int|
                0 <= i < old(mem).frames@.len() ==> final(mem).frames@[i] == old(mem).frames@[i],
            final(mem).freed == old(mem).freed,
    {
        let pms = match &self.memory_set {
            Some(ms) => ms,
            None => {
                proof {
                    assert(false);
                }
                unreached()
            },
        };
        let cms = pms.clone(ts, mem);
        let mut ofile2: Vec<Option<usize>> = Vec::new();
        let n = self.ofile.len();
        let mut i: usize = 0;
        while i < n
            invariant
                n == self.ofile@.len(),
                0 <= i <= n,
                ofile2@ == self.ofile@.take(i as int),
            decreases n - i,
        {
            ofile2.push(self.ofile[i]);
            proof {
                assert(ofile2@ =~= self.ofile@.take(i + 1));
            }
            i += 1;
        }
        proof {
            assert(self.ofile@.take(n as int) =~= self.ofile@);
        }
        Thread {
            context: Context { content_addr: 0 },
            kstack: KernelStack { id: kstack },
            tf: TrapFrame { a0: 0, ..self.tf },
            memory_set: Some(cms),
            ofile: ofile2,
            wait: None,
        }
    }
}

} // verus!
