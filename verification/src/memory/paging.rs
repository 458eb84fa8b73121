//! The page table, modeled at the granularity the kernel reasons at: a
//! finite map from virtual page number to entry, plus the root frame
//! whose number forms the satp token. An entry's target is either an
//! allocator-owned frame or a linearly addressed physical page.

use vstd::prelude::*;

use crate::memory::attr::MemoryAttr;
use crate::memory::phys::PhysMemory;

verus! {

#[derive(Clone, Copy, Debug, PartialEq, Eq, Structural)]
pub enum PteTarget {
    /// An allocator-owned frame, by index into `PhysMemory`.
    Frame(usize),
    /// A linearly mapped physical page, by physical page number.
    Linear(usize),
}

#[derive(Clone, Copy, Debug)]
pub struct PageTableEntry {
    pub vpn: usize,
    pub target: PteTarget,
    pub attr: MemoryAttr,
    /// The hardware-set accessed bit, read and cleared by page
    /// replacement.
    pub accessed: bool,
}

pub struct PageTableImpl {
    /// Frame number of the top-level table; the token names it.
    pub root_ppn: usize,
    pub entries: Vec<PageTableEntry>,
}

impl PageTableImpl {
    /// One entry per virtual page number.
    pub open spec fn wf(self) -> bool {
        forall|i: int, j: int|
            #![trigger self.entries@[i].vpn, self.entries@[j].vpn]
            0 <= i < j < self.entries@.len() ==> self.entries@[i].vpn != self.entries@[j].vpn
    }

    pub open spec fn mapped(self, vpn: usize) -> bool {
        exists|i: int| 0 <= i < self.entries@.len() && self.entries@[i].vpn == vpn
    }

    pub open spec fn idx_of(self, vpn: usize) -> int {
        choose|i: int| 0 <= i < self.entries@.len() && self.entries@[i].vpn == vpn
    }

    /// The entry mapping `vpn`.
    pub open spec fn at(self, vpn: usize) -> PageTableEntry {
        self.entries@[self.idx_of(vpn)]
    }

    /// The satp-format token: Sv39 mode over the root frame number.
    pub open spec fn spec_token(self) -> u64 {
        (8u64 << 60) | (self.root_ppn as u64)
    }

    /// A fresh table: a newly allocated root frame, no pages mapped.
    pub fn new_bare(mem: &mut PhysMemory) -> (pt: PageTableImpl)
        requires
            old(mem).wf(),
        ensures
            final(mem).wf(),
            pt.wf(),
            pt.entries@.len() == 0,
            forall|v: usize| !(#[trigger] pt.mapped(v)),
            pt.root_ppn == old(mem).frames@.len(),
            final(mem).frames@.len() == old(mem).frames@.len() + 1,
            forall|i: int|
                0 <= i < old(mem).frames@.len() ==> final(mem).frames@[i] == old(mem).frames@[i],
            final(mem).freed == old(mem).freed,
    {
        let root = mem.allocate_frame();
        PageTableImpl { root_ppn: root, entries: Vec::new() }
    }

    pub fn token(&self) -> (t: u64)
        ensures
            t == self.spec_token(),
    {
        (8u64 << 60) | (self.root_ppn as u64)
    }

    /// Find the index of the entry mapping `vpn`.
    pub fn find(&self, vpn: usize) -> (r: Option<usize>)
        requires
            self.wf(),
        ensures
            match r {
                Some(i) => {
                    &&& i < self.entries@.len()
                    &&& self.entries@[i as int].vpn == vpn
                    &&& self.mapped(vpn)
                    &&& self.idx_of(vpn) == i
                    &&& self.at(vpn) == self.entries@[i as int]
                },
                None => !self.mapped(vpn),
            },
    {
        let n = self.entries.len();
        let mut i: usize = 0;
        while i < n
            invariant
                self.wf(),
                n == self.entries@.len(),
                0 <= i <= n,
                forall|k: int| 0 <= k < i ==> self.entries@[k].vpn != vpn,
            decreases n - i,
        {
            if self.entries[i].vpn == vpn {
                proof {
                    assert(self.entries@[i as int].vpn == vpn);
                    let j = self.idx_of(vpn);
                    assert(0 <= j < self.entries@.len() && self.entries@[j].vpn == vpn);
                    if j < i {
                        assert(self.entries@[j].vpn != self.entries@[i as int].vpn);
                    } else if i < j {
                        assert(self.entries@[i as int].vpn != self.entries@[j].vpn);
                    }
                    assert(j == i);
                }
                return Some(i);
            }
            i += 1;
        }
        proof {
            if self.mapped(vpn) {
                let j = choose|j: int|
                    0 <= j < self.entries@.len() && self.entries@[j].vpn == vpn;
            }
        }
        None
    }

    /// Install a mapping for an unmapped page; every other mapping is
    /// untouched.
    pub fn map_entry(&mut self, vpn: usize, target: PteTarget, attr: MemoryAttr)
        requires
            old(self).wf(),
            !old(self).mapped(vpn),
        ensures
            final(self).wf(),
            final(self).root_ppn == old(self).root_ppn,
            final(self).entries@.len() == old(self).entries@.len() + 1,
            final(self).mapped(vpn),
            final(self).at(vpn) == (PageTableEntry { vpn, target, attr, accessed: false }),
            forall|v: usize|
                v != vpn ==> (#[trigger] final(self).mapped(v) <==> old(self).mapped(v)),
            forall|v: usize|
                v != vpn && old(self).mapped(v) ==> #[trigger] final(self).at(v) == old(self).at(
                    v,
                ),
    {
        let e = PageTableEntry { vpn, target, attr, accessed: false };
        self.entries.push(e);
        proof {
            let n = old(self).entries@.len() as int;
            assert(self.entries@[n] == e);
            assert forall|i: int, j: int|
                #![trigger self.entries@[i].vpn, self.entries@[j].vpn]
                0 <= i < j < self.entries@.len() implies self.entries@[i].vpn
                != self.entries@[j].vpn by {
                if j < n {
                } else {
                    assert(self.entries@[j] == e);
                    if old(self).mapped(e.vpn) {
                    } else {
                        assert(old(self).entries@[i].vpn != e.vpn);
                    }
                }
            }
            assert(self.mapped(vpn)) by {
                assert(self.entries@[n].vpn == vpn);
            }
            assert(self.at(vpn) == e) by {
                let j = self.idx_of(vpn);
                if j != n {
                    assert(old(self).entries@[j].vpn == vpn);
                }
            }
            assert forall|v: usize|
                v != vpn implies (#[trigger] self.mapped(v) <==> old(self).mapped(v)) by {
                if old(self).mapped(v) {
                    let j = old(self).idx_of(v);
                    assert(self.entries@[j].vpn == v);
                }
                if self.mapped(v) {
                    let j = choose|j: int|
                        0 <= j < self.entries@.len() && self.entries@[j].vpn == v;
                    assert(j != n);
                    assert(old(self).entries@[j].vpn == v);
                }
            }
            assert forall|v: usize|
                v != vpn && old(self).mapped(v) implies #[trigger] self.at(v) == old(self).at(
                v,
            ) by {
                let j = old(self).idx_of(v);
                assert(self.entries@[j].vpn == v);
                let j2 = self.idx_of(v);
                assert(self.entries@[j2].vpn == v);
                assert(j2 != n);
                assert(old(self).entries@[j2].vpn == v);
                assert(j2 == j);
            }
        }
    }

    /// Remove the mapping of `vpn`; every other mapping is untouched.
    pub fn unmap_entry(&mut self, vpn: usize)
        requires
            old(self).wf(),
            old(self).mapped(vpn),
        ensures
            final(self).wf(),
            final(self).root_ppn == old(self).root_ppn,
            final(self).entries@.len() == old(self).entries@.len() - 1,
            !final(self).mapped(vpn),
            forall|v: usize|
                v != vpn ==> (#[trigger] final(self).mapped(v) <==> old(self).mapped(v)),
            forall|v: usize|
                v != vpn && old(self).mapped(v) ==> #[trigger] final(self).at(v) == old(self).at(
                    v,
                ),
    {
        let i = match self.find(vpn) {
            Some(i) => i,
            None => {
                proof {
                    assert(false);
                }
                0
            },
        };
        let ghost oldents = self.entries@;
        let ghost oi = i as int;
        self.entries.remove(i);
        proof {
            assert forall|i2: int, j2: int|
                #![trigger self.entries@[i2].vpn, self.entries@[j2].vpn]
                0 <= i2 < j2 < self.entries@.len() implies self.entries@[i2].vpn
                != self.entries@[j2].vpn by {
                let a = if i2 < oi { i2 } else { i2 + 1 };
                let b = if j2 < oi { j2 } else { j2 + 1 };
                assert(self.entries@[i2] == oldents[a]);
                assert(self.entries@[j2] == oldents[b]);
            }
            assert(!self.mapped(vpn)) by {
                if self.mapped(vpn) {
                    let j = choose|j: int|
                        0 <= j < self.entries@.len() && self.entries@[j].vpn == vpn;
                    let a = if j < oi { j } else { j + 1 };
                    assert(oldents[a].vpn == vpn);
                    assert(oldents[oi].vpn == vpn);
                }
            }
            assert forall|v: usize|
                v != vpn implies (#[trigger] self.mapped(v) <==> old(self).mapped(v)) by {
                if old(self).mapped(v) {
                    let j = old(self).idx_of(v);
                    assert(oldents[j].vpn == v);
                    assert(j != oi);
                    if j < oi {
                        assert(self.entries@[j].vpn == v);
                    } else {
                        assert(self.entries@[j - 1].vpn == v);
                    }
                }
                if self.mapped(v) {
                    let j = choose|j: int|
                        0 <= j < self.entries@.len() && self.entries@[j].vpn == v;
                    let a = if j < oi { j } else { j + 1 };
                    assert(oldents[a].vpn == v);
                }
            }
            assert forall|v: usize|
                v != vpn && old(self).mapped(v) implies #[trigger] self.at(v) == old(self).at(
                v,
            ) by {
                let j = old(self).idx_of(v);
                assert(oldents[j].vpn == v);
                assert(j != oi);
                let j2 = self.idx_of(v);
                assert(self.mapped(v));
                assert(self.entries@[j2].vpn == v);
                let a = if j2 < oi { j2 } else { j2 + 1 };
                assert(oldents[a].vpn == v);
                assert(a == j);
            }
        }
    }

    /// Set or clear the accessed bit of a mapped page, as the hardware
    /// and the replacement policy do.
    pub fn set_accessed(&mut self, vpn: usize, value: bool)
        requires
            old(self).wf(),
            old(self).mapped(vpn),
        ensures
            final(self).wf(),
            final(self).root_ppn == old(self).root_ppn,
            final(self).entries@.len() == old(self).entries@.len(),
            forall|v: usize| #[trigger] final(self).mapped(v) <==> old(self).mapped(v),
            final(self).at(vpn) == (PageTableEntry { accessed: value, ..old(self).at(vpn) }),
            forall|v: usize|
                v != vpn && old(self).mapped(v) ==> #[trigger] final(self).at(v) == old(self).at(
                    v,
                ),
    {
        let i = match self.find(vpn) {
            Some(i) => i,
            None => {
                proof {
                    assert(false);
                }
                0
            },
        };
        let e = self.entries[i];
        let ghost oldents = self.entries@;
        let ghost oi = i as int;
        self.entries[i] = PageTableEntry { accessed: value, ..e };
        proof {
            assert forall|i2: int, j2: int|
                #![trigger self.entries@[i2].vpn, self.entries@[j2].vpn]
                0 <= i2 < j2 < self.entries@.len() implies self.entries@[i2].vpn
                != self.entries@[j2].vpn by {
                assert(self.entries@[i2].vpn == oldents[i2].vpn);
                assert(self.entries@[j2].vpn == oldents[j2].vpn);
            }
            assert forall|v: usize|
                #[trigger] self.mapped(v) <==> old(self).mapped(v) by {
                if old(self).mapped(v) {
                    let j = old(self).idx_of(v);
                    assert(self.entries@[j].vpn == v);
                }
                if self.mapped(v) {
                    let j = choose|j: int|
                        0 <= j < self.entries@.len() && self.entries@[j].vpn == v;
                    assert(oldents[j].vpn == v);
                }
            }
            assert(self.at(vpn) == (PageTableEntry { accessed: value, ..old(self).at(vpn) })) by {
                let j2 = self.idx_of(vpn);
                assert(self.mapped(vpn));
                assert(self.entries@[j2].vpn == vpn);
                assert(j2 == oi);
                assert(old(self).idx_of(vpn) == oi);
            }
            assert forall|v: usize|
                v != vpn && old(self).mapped(v) implies #[trigger] self.at(v) == old(self).at(
                v,
            ) by {
                let j = old(self).idx_of(v);
                let j2 = self.idx_of(v);
                assert(self.mapped(v));
                assert(self.entries@[j2].vpn == v);
                assert(oldents[j2].vpn == v);
                assert(j2 == j);
                assert(j != oi);
            }
        }
    }
}

/// The kernel's table of page tables. Memory sets and the replacement
/// queue both name a table by its index here, the plain-value rendering
/// of a reference-counted shared cell.
pub struct PageTables {
    pub tables: Vec<PageTableImpl>,
}

impl PageTables {
    pub fn new() -> (ts: PageTables)
        ensures
            ts.tables@.len() == 0,
    {
        PageTables { tables: Vec::new() }
    }
}

} // verus!
