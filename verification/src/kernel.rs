//! The kernel's whole state, gathered in one value: physical memory, the
//! page tables, the root filesystem, pipes, open-file cells, the console,
//! the processor, and the timer. Hardware registers (satp, the cycle
//! counter, the tick count) are fields, so every transition is an
//! ordinary function.

use vstd::prelude::*;

use crate::consts::FD_TABLE_SIZE;
use crate::consts::PAGE_SIZE;
use crate::fs::file::File;
use crate::fs::file::FileDescriptorType;
use crate::fs::pipe::Pipes;
use crate::fs::rootfs::Filesystem;
use crate::fs::stdio::Stdin;
use crate::memory::memory_set::set_wf;
use crate::memory::memory_set::is_frame;
use crate::memory::memory_set::target_frame;
use crate::memory::memory_set::KernelLayout;
use crate::memory::memory_set::layout_wf;
use crate::memory::memory_set::MemorySet;
use crate::memory::page_replace::FifoPageReplace;
use crate::memory::paging::PageTables;
use crate::memory::phys::PhysMemory;
use crate::process::processor::Processor;
use crate::process::structs::thread_wf;
use crate::process::structs::Thread;
use crate::timer::Timer;

verus! {

pub struct Kernel {
    pub mem: PhysMemory,
    pub tables: PageTables,
    pub fs: Filesystem,
    pub pipes: Pipes,
    /// Open-file cells; descriptors name them by index, and a cell shared
    /// across `fork` is simply named twice.
    pub files: Vec<File>,
    pub stdin: Stdin,
    /// Bytes written to the console, in order.
    pub stdout: Vec<u8>,
    pub cpu: Processor,
    pub timer: Timer,
    /// The page-replacement policy. It only selects victims; the call
    /// sites that record each page brought in belong to the demand-paging
    /// fault path, which the core's eager mappings never take, so nothing
    /// here feeds the queue.
    pub page_replace: FifoPageReplace,
    /// Timer interrupts seen since boot.
    pub ticks: u64,
    /// The cycle counter, advanced by `TIMEBASE` per timer interrupt.
    pub cycle: u64,
    /// The satp register: the token of the active address space.
    pub satp: u64,
    pub layout: KernelLayout,
    /// The boot address space, which kernel threads run in.
    pub kernel_set: MemorySet,
    pub next_kstack: usize,
}

/// A file cell's obligations on the filesystem and pipe tables.
pub open spec fn file_valid(f: File, fs: Filesystem, pipes: Pipes) -> bool {
    &&& f.fdtype is FdInode ==> (f.inode matches Some(ino) && ino < fs.nodes@.len() && f.offset
        <= fs.nodes@[f.inode->Some_0 as int].data@.len())
    &&& f.fdtype is FdPipe ==> (f.pipe matches Some(p) && p < pipes.pipes@.len())
}

pub open spec fn kernel_wf(k: Kernel) -> bool {
    &&& k.mem.wf()
    &&& k.pipes.wf()
    &&& k.timer.wf()
    &&& k.cpu.wf()
    &&& layout_wf(k.layout)
    &&& set_wf(k.kernel_set, k.tables, k.mem)
    &&& forall|c: int| 0 <= c < k.files@.len() ==> file_valid(#[trigger] k.files@[c], k.fs, k.pipes)
    &&& forall|i: int|
        0 <= i < k.cpu.pool.slots@.len() ==> ((#[trigger] k.cpu.pool.slots@[i]).thread matches Some(
            t,
        ) ==> thread_wf(t, k.files@.len() as int, k.tables, k.mem))
    &&& k.cpu.current matches Some((_, t)) ==> thread_wf(
        t,
        k.files@.len() as int,
        k.tables,
        k.mem,
    )
    &&& k.idle_wf()
}

impl Kernel {
    pub open spec fn idle_wf(self) -> bool {
        self.cpu.idle matches Some(t) ==> thread_wf(
            t,
            self.files@.len() as int,
            self.tables,
            self.mem,
        )
    }

    /// The running thread's address space maps `vaddr` to a byte of an
    /// allocator-owned frame.
    pub open spec fn user_addr_ok(self, ms: MemorySet, vaddr: usize) -> bool {
        &&& ms.page_table < self.tables.tables@.len()
        &&& self.tables.tables@[ms.page_table as int].mapped(
            (vaddr as int / (PAGE_SIZE as int)) as usize,
        )
        &&& is_frame(
            self.tables.tables@[ms.page_table as int].at(
                (vaddr as int / (PAGE_SIZE as int)) as usize,
            ).target,
        )
        &&& target_frame(
            self.tables.tables@[ms.page_table as int].at(
                (vaddr as int / (PAGE_SIZE as int)) as usize,
            ).target,
        ) < self.mem.frames@.len()
    }

    /// The byte `vaddr` denotes through `ms`'s page table.
    pub open spec fn user_byte(self, ms: MemorySet, vaddr: usize) -> u8 {
        self.mem.frames@[target_frame(
            self.tables.tables@[ms.page_table as int].at(
                (vaddr as int / (PAGE_SIZE as int)) as usize,
            ).target,
        )]@[vaddr as int % (PAGE_SIZE as int)]
    }
}

/// A whole user range is mapped onto allocator frames.
pub open spec fn user_range_ok(k: Kernel, ms: MemorySet, base: usize, len: int) -> bool {
    forall|a: int| base <= a < base + len ==> k.user_addr_ok(ms, #[trigger] (a as usize))
}

impl Kernel {
    /// The running thread's address space.
    pub open spec fn cur_ms(self) -> MemorySet {
        self.cpu.current->Some_0.1.memory_set->Some_0
    }

    pub open spec fn has_cur_ms(self) -> bool {
        self.cpu.current matches Some((_, t)) && t.memory_set is Some
    }

    /// Read one byte of user memory through the running thread's page
    /// table; `None` when the address does not resolve to an
    /// allocator-owned frame.
    pub fn try_user_read(&self, vaddr: usize) -> (r: Option<u8>)
        requires
            kernel_wf(*self),
            self.has_cur_ms(),
        ensures
            match r {
                Some(b) => self.user_addr_ok(self.cur_ms(), vaddr) && b == self.user_byte(
                    self.cur_ms(),
                    vaddr,
                ),
                None => !self.user_addr_ok(self.cur_ms(), vaddr),
            },
    {
        let ms = match &self.cpu.current {
            Some((_, th)) => match &th.memory_set {
                Some(ms) => ms,
                None => {
                    proof {
                        assert(false);
                    }
                    unreached()
                },
            },
            None => {
                proof {
                    assert(false);
                }
                unreached()
            },
        };
        let vpn = vaddr / PAGE_SIZE;
        let tbl = &self.tables.tables[ms.page_table];
        match tbl.find(vpn) {
            Some(i) => {
                match tbl.entries[i].target {
                    crate::memory::paging::PteTarget::Frame(f) => {
                        if f < self.mem.frames.len() {
                            Some(self.mem.read_byte(f, vaddr % PAGE_SIZE))
                        } else {
                            None
                        }
                    },
                    crate::memory::paging::PteTarget::Linear(_) => None,
                }
            },
            None => None,
        }
    }

    /// Write one byte of user memory through the running thread's page
    /// table.
    pub fn user_write_byte(&mut self, vaddr: usize, b: u8)
        requires
            kernel_wf(*old(self)),
            old(self).has_cur_ms(),
            old(self).user_addr_ok(old(self).cur_ms(), vaddr),
        ensures
            kernel_wf(*final(self)),
            *final(self) == (Kernel { mem: final(self).mem, ..*old(self) }),
            final(self).mem.frames@.len() == old(self).mem.frames@.len(),
            final(self).mem.freed == old(self).mem.freed,
            forall|i: int|
                0 <= i < old(self).mem.frames@.len() && i != target_frame(
                    old(self).tables.tables@[old(self).cur_ms().page_table as int].at(
                        (vaddr as int / (PAGE_SIZE as int)) as usize,
                    ).target,
                ) ==> final(self).mem.frames@[i] == old(self).mem.frames@[i],
            final(self).mem.frames@[target_frame(
                old(self).tables.tables@[old(self).cur_ms().page_table as int].at(
                    (vaddr as int / (PAGE_SIZE as int)) as usize,
                ).target,
            )]@ == old(self).mem.frames@[target_frame(
                old(self).tables.tables@[old(self).cur_ms().page_table as int].at(
                    (vaddr as int / (PAGE_SIZE as int)) as usize,
                ).target,
            )]@.update(vaddr as int % (PAGE_SIZE as int), b),
            final(self).user_byte(final(self).cur_ms(), vaddr) == b,
    {
        let pt_id = match &self.cpu.current {
            Some((_, th)) => match &th.memory_set {
                Some(ms) => ms.page_table,
                None => {
                    proof {
                        assert(false);
                    }
                    unreached()
                },
            },
            None => {
                proof {
                    assert(false);
                }
                unreached()
            },
        };
        let vpn = vaddr / PAGE_SIZE;
        let f = {
            let tbl = &self.tables.tables[pt_id];
            match tbl.find(vpn) {
                Some(i) => match tbl.entries[i].target {
                    crate::memory::paging::PteTarget::Frame(f) => f,
                    crate::memory::paging::PteTarget::Linear(_) => {
                        proof {
                            assert(false);
                        }
                        unreached()
                    },
                },
                None => {
                    proof {
                        assert(false);
                    }
                    unreached()
                },
            }
        };
        self.mem.write_byte(f, vaddr % PAGE_SIZE, b);
        proof {
            lemma_kernel_wf_mem_contents(*old(self), *final(self));
        }
    }
}

/// A write through one user address leaves every other user byte of the
/// running thread's address space in place: distinct pages own distinct
/// frames, and two bytes of one page sit at distinct offsets.
pub proof fn lemma_user_byte_unchanged(k0: Kernel, k1: Kernel, wa: usize, oa: usize, wf_idx: int)
    requires
        kernel_wf(k0),
        k0.has_cur_ms(),
        k0.user_addr_ok(k0.cur_ms(), wa),
        k0.user_addr_ok(k0.cur_ms(), oa),
        oa != wa,
        k1.cpu == k0.cpu,
        k1.tables == k0.tables,
        k1.mem.frames@.len() == k0.mem.frames@.len(),
        wf_idx == target_frame(
            k0.tables.tables@[k0.cur_ms().page_table as int].at(
                (wa as int / (PAGE_SIZE as int)) as usize,
            ).target,
        ),
        forall|i: int|
            0 <= i < k0.mem.frames@.len() && i != wf_idx ==> k1.mem.frames@[i]
                == k0.mem.frames@[i],
        forall|o: int|
            0 <= o < PAGE_SIZE && o != wa as int % (PAGE_SIZE as int) ==> #[trigger] k1.mem.frames@[
                wf_idx
            ]@[o] == k0.mem.frames@[wf_idx]@[o],
    ensures
        k1.user_byte(k1.cur_ms(), oa) == k0.user_byte(k0.cur_ms(), oa),
{
    let t = k0.cpu.current->Some_0.1;
    assert(thread_wf(t, k0.files@.len() as int, k0.tables, k0.mem));
    let msv = k0.cur_ms();
    assert(set_wf(msv, k0.tables, k0.mem));
    let tbl = k0.tables.tables@[msv.page_table as int];
    let vw = (wa as int / (PAGE_SIZE as int)) as usize;
    let vo = (oa as int / (PAGE_SIZE as int)) as usize;
    if vo == vw {
        assert(oa as int % (PAGE_SIZE as int) != wa as int % (PAGE_SIZE as int));
    } else {
        assert(crate::memory::memory_set::frames_injective(tbl));
        assert(target_frame(tbl.at(vo).target) != target_frame(tbl.at(vw).target));
    }
}

/// Rewriting frame contents — lengths kept — disturbs no kernel
/// invariant.
proof fn lemma_kernel_wf_mem_contents(k0: Kernel, k1: Kernel)
    requires
        kernel_wf(k0),
        k1.mem.wf(),
        k1.mem.frames@.len() == k0.mem.frames@.len(),
        k1 == (Kernel { mem: k1.mem, ..k0 }),
    ensures
        kernel_wf(k1),
{
}

} // verus!
