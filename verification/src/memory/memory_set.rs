//! Memory sets: an address space as an ordered collection of areas plus
//! the page table realizing them. Each area's handler fixes how its pages
//! map: `Linear` shares physical pages at a fixed offset, `ByFrame` backs
//! every page with a fresh allocator frame.

use vstd::arithmetic::div_mod::lemma_div_is_ordered;
use vstd::prelude::*;

use crate::consts::PAGE_SIZE;
use crate::memory::attr::MemoryAttr;
use crate::memory::paging::PageTableEntry;
use crate::memory::paging::PageTableImpl;
use crate::memory::paging::PageTables;
use crate::memory::paging::PteTarget;
use crate::memory::phys::PhysMemory;

verus! {

#[derive(Clone, Copy, Debug)]
pub enum MemoryHandler {
    /// Kernel segments and the physical window: page `v` maps to physical
    /// page `v - offset / PAGE_SIZE`, without allocating.
    Linear { offset: usize },
    /// User segments: every page is backed by a fresh, zeroed frame.
    ByFrame,
}

#[derive(Clone, Copy, Debug)]
pub struct MemoryArea {
    pub start: usize,
    pub end: usize,
    pub attr: MemoryAttr,
    pub handler: MemoryHandler,
}

pub open spec fn area_wf(a: MemoryArea) -> bool {
    &&& a.start as int % (PAGE_SIZE as int) == 0
    &&& a.end as int % (PAGE_SIZE as int) == 0
    &&& a.start <= a.end
    &&& match a.handler {
        MemoryHandler::Linear { offset } => offset as int % (PAGE_SIZE as int) == 0 && offset <= a.start,
        MemoryHandler::ByFrame => true,
    }
}

/// First virtual page number of the area.
pub open spec fn area_vs(a: MemoryArea) -> int {
    a.start as int / (PAGE_SIZE as int)
}

/// One past the last virtual page number of the area.
pub open spec fn area_ve(a: MemoryArea) -> int {
    a.end as int / (PAGE_SIZE as int)
}

pub open spec fn contains_vpn(a: MemoryArea, v: usize) -> bool {
    area_vs(a) <= v < area_ve(a)
}

/// Two areas that share no addresses.
pub open spec fn disjoint(a: MemoryArea, b: MemoryArea) -> bool {
    a.end <= b.start || b.end <= a.start
}

pub open spec fn is_frame(t: PteTarget) -> bool {
    t is Frame
}

pub open spec fn target_frame(t: PteTarget) -> int {
    match t {
        PteTarget::Frame(f) => f as int,
        PteTarget::Linear(p) => p as int,
    }
}

/// What an entry installed by `a`'s handler looks like, against a frame
/// table of `nframes` frames.
pub open spec fn entry_matches(e: PageTableEntry, a: MemoryArea, nframes: int) -> bool {
    &&& e.attr == a.attr
    &&& match a.handler {
        MemoryHandler::Linear { offset } => e.target == PteTarget::Linear(
            (e.vpn as int - offset as int / (PAGE_SIZE as int)) as usize,
        ),
        MemoryHandler::ByFrame => is_frame(e.target) && 0 <= target_frame(e.target) < nframes,
    }
}

/// Disjoint areas cover disjoint virtual page numbers.
pub proof fn lemma_disjoint_vpn(a: MemoryArea, b: MemoryArea, v: usize)
    requires
        area_wf(a),
        area_wf(b),
        disjoint(a, b),
        contains_vpn(a, v),
    ensures
        !contains_vpn(b, v),
{
    if a.end <= b.start {
        lemma_div_is_ordered(a.end as int, b.start as int, PAGE_SIZE as int);
    } else {
        lemma_div_is_ordered(b.end as int, a.start as int, PAGE_SIZE as int);
    }
}

impl MemoryHandler {
    /// Establish the mapping of page `v` in `pt` as this handler does:
    /// linearly, or by allocating and zeroing a fresh frame.
    pub fn map_page(&self, pt: &mut PageTableImpl, mem: &mut PhysMemory, v: usize, attr: &MemoryAttr)
        requires
            old(pt).wf(),
            !old(pt).mapped(v),
            old(mem).wf(),
            match *self {
                MemoryHandler::Linear { offset } => offset as int / (PAGE_SIZE as int) <= v as int,
                MemoryHandler::ByFrame => true,
            },
        ensures
            final(pt).wf(),
            final(mem).wf(),
            final(pt).root_ppn == old(pt).root_ppn,
            final(pt).mapped(v),
            final(pt).at(v).vpn == v,
            final(pt).at(v).attr == *attr,
            final(pt).at(v).accessed == false,
            forall|u: usize| u != v ==> (#[trigger] final(pt).mapped(u) <==> old(pt).mapped(u)),
            forall|u: usize|
                u != v && old(pt).mapped(u) ==> #[trigger] final(pt).at(u) == old(pt).at(u),
            final(mem).frames@.len() >= old(mem).frames@.len(),
            forall|i: int|
                0 <= i < old(mem).frames@.len() ==> final(mem).frames@[i] == old(mem).frames@[i],
            final(mem).freed == old(mem).freed,
            match *self {
                MemoryHandler::Linear { offset } => {
                    &&& final(pt).at(v).target == PteTarget::Linear(
                        (v as int - offset as int / (PAGE_SIZE as int)) as usize,
                    )
                    &&& *final(mem) == *old(mem)
                },
                MemoryHandler::ByFrame => {
                    &&& final(pt).at(v).target == PteTarget::Frame(old(mem).frames@.len() as usize)
                    &&& final(mem).frames@.len() == old(mem).frames@.len() + 1
                    &&& final(mem).frames@[old(mem).frames@.len() as int]@
                        == crate::memory::phys::zero_page()
                },
            },
    {
        match *self {
            MemoryHandler::Linear { offset } => {
                let ppn = v - offset / PAGE_SIZE;
                pt.map_entry(v, PteTarget::Linear(ppn), *attr);
            },
            MemoryHandler::ByFrame => {
                let f = mem.allocate_frame();
                pt.map_entry(v, PteTarget::Frame(f), *attr);
            },
        }
    }

    /// Remove the mapping of page `v`; a `ByFrame` handler releases the
    /// backing frame.
    pub fn unmap_page(&self, pt: &mut PageTableImpl, mem: &mut PhysMemory, v: usize)
        requires
            old(pt).wf(),
            old(pt).mapped(v),
        ensures
            final(pt).wf(),
            final(pt).root_ppn == old(pt).root_ppn,
            !final(pt).mapped(v),
            forall|u: usize| u != v ==> (#[trigger] final(pt).mapped(u) <==> old(pt).mapped(u)),
            forall|u: usize|
                u != v && old(pt).mapped(u) ==> #[trigger] final(pt).at(u) == old(pt).at(u),
            final(mem).frames == old(mem).frames,
    {
        let e = match pt.find(v) {
            Some(i) => pt.entries[i],
            None => {
                proof {
                    assert(false);
                }
                pt.entries[0]
            },
        };
        pt.unmap_entry(v);
        match *self {
            MemoryHandler::ByFrame => {
                match e.target {
                    PteTarget::Frame(f) => mem.release_frame(f),
                    PteTarget::Linear(_) => {},
                }
            },
            MemoryHandler::Linear { .. } => {},
        }
    }

    /// Re-establish the mapping of page `v` in `dst` from `src`: the same
    /// linear page for `Linear`, a fresh frame holding a byte-for-byte
    /// copy for `ByFrame`.
    pub fn clone_map(
        &self,
        dst: &mut PageTableImpl,
        src: &PageTableImpl,
        mem: &mut PhysMemory,
        v: usize,
        attr: &MemoryAttr,
    )
        requires
            old(dst).wf(),
            !old(dst).mapped(v),
            old(mem).wf(),
            src.wf(),
            src.mapped(v),
            match *self {
                MemoryHandler::Linear { offset } => offset as int / (PAGE_SIZE as int) <= v as int,
                MemoryHandler::ByFrame => is_frame(src.at(v).target) && 0 <= target_frame(
                    src.at(v).target,
                ) < old(mem).frames@.len(),
            },
        ensures
            final(dst).wf(),
            final(mem).wf(),
            final(dst).root_ppn == old(dst).root_ppn,
            final(dst).mapped(v),
            final(dst).at(v).vpn == v,
            final(dst).at(v).attr == *attr,
            forall|u: usize| u != v ==> (#[trigger] final(dst).mapped(u) <==> old(dst).mapped(u)),
            forall|u: usize|
                u != v && old(dst).mapped(u) ==> #[trigger] final(dst).at(u) == old(dst).at(u),
            final(mem).frames@.len() >= old(mem).frames@.len(),
            forall|i: int|
                0 <= i < old(mem).frames@.len() ==> final(mem).frames@[i] == old(mem).frames@[i],
            final(mem).freed == old(mem).freed,
            match *self {
                MemoryHandler::Linear { offset } => {
                    &&& final(dst).at(v).target == PteTarget::Linear(
                        (v as int - offset as int / (PAGE_SIZE as int)) as usize,
                    )
                    &&& *final(mem) == *old(mem)
                },
                MemoryHandler::ByFrame => {
                    &&& final(dst).at(v).target == PteTarget::Frame(
                        old(mem).frames@.len() as usize,
                    )
                    &&& final(mem).frames@.len() == old(mem).frames@.len() + 1
                    &&& final(mem).frames@[old(mem).frames@.len() as int]@ == old(mem).frames@[
                        target_frame(src.at(v).target)
                    ]@
                },
            },
    {
        match *self {
            MemoryHandler::Linear { offset } => {
                let ppn = v - offset / PAGE_SIZE;
                dst.map_entry(v, PteTarget::Linear(ppn), *attr);
            },
            MemoryHandler::ByFrame => {
                let sf = match src.find(v) {
                    Some(i) => match src.entries[i].target {
                        PteTarget::Frame(f) => f,
                        PteTarget::Linear(_) => {
                            proof {
                                assert(false);
                            }
                            0
                        },
                    },
                    None => {
                        proof {
                            assert(false);
                        }
                        0
                    },
                };
                let nf = mem.allocate_frame();
                mem.copy_frame(sf, nf);
                dst.map_entry(v, PteTarget::Frame(nf), *attr);
            },
        }
    }
}

pub struct MemorySet {
    pub areas: Vec<MemoryArea>,
    /// The set's page table, by index into the kernel's table of tables.
    pub page_table: usize,
}

/// The memory set invariant: a well-formed page table; well-formed,
/// pairwise disjoint areas; every area page mapped as its handler says;
/// and every mapped page covered by an area.
pub open spec fn set_wf(ms: MemorySet, ts: PageTables, mem: PhysMemory) -> bool {
    &&& ms.page_table < ts.tables@.len()
    &&& ts.tables@[ms.page_table as int].wf()
    &&& forall|k: int| 0 <= k < ms.areas@.len() ==> area_wf(#[trigger] ms.areas@[k])
    &&& forall|i: int, j: int|
        #![trigger ms.areas@[i], ms.areas@[j]]
        0 <= i < j < ms.areas@.len() ==> disjoint(ms.areas@[i], ms.areas@[j])
    &&& forall|k: int, v: usize|
        0 <= k < ms.areas@.len() && #[trigger] contains_vpn(ms.areas@[k], v) ==> ts.tables@[
            ms.page_table as int
        ].mapped(v) && entry_matches(
            ts.tables@[ms.page_table as int].at(v),
            ms.areas@[k],
            mem.frames@.len() as int,
        )
    &&& forall|v: usize|
        #[trigger] ts.tables@[ms.page_table as int].mapped(v) ==> exists|k: int|
            0 <= k < ms.areas@.len() && contains_vpn(ms.areas@[k], v)
    &&& frames_injective(ts.tables@[ms.page_table as int])
}

/// No two virtual pages of one table share an allocator frame: every
/// `ByFrame` page owns its backing frame alone.
pub open spec fn frames_injective(tbl: PageTableImpl) -> bool {
    forall|v1: usize, v2: usize|
        #![trigger tbl.at(v1), tbl.at(v2)]
        v1 != v2 && tbl.mapped(v1) && tbl.mapped(v2) && is_frame(tbl.at(v1).target) && is_frame(
            tbl.at(v2).target,
        ) ==> target_frame(tbl.at(v1).target) != target_frame(tbl.at(v2).target)
}

/// In a well-formed set, a frame-backed page's frame number lies below
/// the frame table's length.
pub proof fn lemma_mapped_frame_bounded(ms: MemorySet, ts: PageTables, mem: PhysMemory, v: usize)
    requires
        set_wf(ms, ts, mem),
        ts.tables@[ms.page_table as int].mapped(v),
        is_frame(ts.tables@[ms.page_table as int].at(v).target),
    ensures
        0 <= target_frame(ts.tables@[ms.page_table as int].at(v).target) < mem.frames@.len(),
{
    let k = choose|k: int| 0 <= k < ms.areas@.len() && contains_vpn(ms.areas@[k], v);
    assert(contains_vpn(ms.areas@[k], v));
    assert(entry_matches(
        ts.tables@[ms.page_table as int].at(v),
        ms.areas@[k],
        mem.frames@.len() as int,
    ));
}

/// Law: in a well-formed memory set, every virtual page mapped in the
/// page table lies inside exactly one area.
pub proof fn lemma_mapped_page_in_exactly_one_area(
    ms: MemorySet,
    ts: PageTables,
    mem: PhysMemory,
    v: usize,
)
    requires
        set_wf(ms, ts, mem),
        ts.tables@[ms.page_table as int].mapped(v),
    ensures
        exists|k: int| 0 <= k < ms.areas@.len() && contains_vpn(ms.areas@[k], v),
        forall|i: int, j: int|
            0 <= i < ms.areas@.len() && 0 <= j < ms.areas@.len() && #[trigger] contains_vpn(
                ms.areas@[i],
                v,
            ) && #[trigger] contains_vpn(ms.areas@[j], v) ==> i == j,
{
    assert forall|i: int, j: int|
        0 <= i < ms.areas@.len() && 0 <= j < ms.areas@.len() && #[trigger] contains_vpn(
            ms.areas@[i],
            v,
        ) && #[trigger] contains_vpn(ms.areas@[j], v) implies i == j by {
        if i < j {
            lemma_disjoint_vpn(ms.areas@[i], ms.areas@[j], v);
        }
        if j < i {
            lemma_disjoint_vpn(ms.areas@[j], ms.areas@[i], v);
        }
    }
}

/// How a cloned address space relates to its source, over the tables and
/// frames as they stand after the clone; `nf0` is the frame count before
/// it. Every page of every `Linear` area shares the source's physical
/// page; every page of every `ByFrame` area sits in a fresh frame —
/// distinct from the source's — holding byte-for-byte the same contents.
pub open spec fn clone_rel(
    src: MemorySet,
    dst: MemorySet,
    ts: PageTables,
    mem: PhysMemory,
    nf0: int,
) -> bool {
    &&& dst.areas@ == src.areas@
    &&& forall|k: int, v: usize|
        0 <= k < src.areas@.len() && #[trigger] contains_vpn(src.areas@[k], v)
            ==> match src.areas@[k].handler {
            MemoryHandler::Linear { .. } => ts.tables@[dst.page_table as int].at(v).target
                == ts.tables@[src.page_table as int].at(v).target,
            MemoryHandler::ByFrame => {
                &&& is_frame(ts.tables@[dst.page_table as int].at(v).target)
                &&& target_frame(ts.tables@[dst.page_table as int].at(v).target) >= nf0
                &&& target_frame(ts.tables@[dst.page_table as int].at(v).target) != target_frame(
                    ts.tables@[src.page_table as int].at(v).target,
                )
                &&& mem.frames@[target_frame(ts.tables@[dst.page_table as int].at(v).target)]@
                    == mem.frames@[target_frame(ts.tables@[src.page_table as int].at(v).target)]@
            },
        }
}

/// A well-formed set stays well-formed when other tables change and the
/// frame table only grows.
pub proof fn lemma_set_wf_preserved(
    ms: MemorySet,
    ts0: PageTables,
    ts1: PageTables,
    mem0: PhysMemory,
    mem1: PhysMemory,
)
    requires
        set_wf(ms, ts0, mem0),
        ms.page_table < ts1.tables@.len(),
        ts1.tables@[ms.page_table as int] == ts0.tables@[ms.page_table as int],
        mem1.frames@.len() >= mem0.frames@.len(),
    ensures
        set_wf(ms, ts1, mem1),
{
}

/// Byte `j` of the frame backing virtual page `v` in table `pt`.
pub open spec fn page_byte(ts: PageTables, mem: PhysMemory, pt: int, v: usize, j: int) -> u8 {
    mem.frames@[target_frame(ts.tables@[pt].at(v).target)]@[j]
}

/// The byte that page `v`, byte `j`, of a `ByFrame` area starting at
/// virtual page `vs` holds after its data was copied in: the matching
/// byte of `data`, or zero past `data`'s end.
pub open spec fn loaded_byte(data: Option<Seq<u8>>, vs: int, v: int, j: int) -> u8 {
    match data {
        Some(d) => if (v - vs) * (PAGE_SIZE as int) + j < d.len() {
            d[(v - vs) * (PAGE_SIZE as int) + j]
        } else {
            0u8
        },
        None => 0u8,
    }
}

/// Where the linker placed the kernel's sections, handed to the kernel at
/// boot: section bounds as virtual addresses, the linear-mapping offset,
/// and the end of physical memory as a physical address.
#[derive(Clone, Copy, Debug)]
pub struct KernelLayout {
    pub stext: usize,
    pub etext: usize,
    pub srodata: usize,
    pub erodata: usize,
    pub sdata: usize,
    pub edata: usize,
    pub sbss: usize,
    pub ebss: usize,
    pub kernel_end: usize,
    pub physical_memory_end: usize,
    pub offset: usize,
}

pub open spec fn layout_wf(l: KernelLayout) -> bool {
    &&& l.stext as int % (PAGE_SIZE as int) == 0
    &&& l.etext as int % (PAGE_SIZE as int) == 0
    &&& l.srodata as int % (PAGE_SIZE as int) == 0
    &&& l.erodata as int % (PAGE_SIZE as int) == 0
    &&& l.sdata as int % (PAGE_SIZE as int) == 0
    &&& l.edata as int % (PAGE_SIZE as int) == 0
    &&& l.sbss as int % (PAGE_SIZE as int) == 0
    &&& l.ebss as int % (PAGE_SIZE as int) == 0
    &&& l.kernel_end as int % (PAGE_SIZE as int) == 0
    &&& l.physical_memory_end as int % (PAGE_SIZE as int) == 0
    &&& l.offset as int % (PAGE_SIZE as int) == 0
    &&& crate::consts::USER_CEILING <= l.offset
    &&& l.offset <= l.stext
    &&& l.stext <= l.etext <= l.srodata <= l.erodata <= l.sdata <= l.edata <= l.sbss <= l.ebss
        <= l.kernel_end
    &&& l.kernel_end + PAGE_SIZE <= l.physical_memory_end + l.offset
    &&& l.physical_memory_end + l.offset <= usize::MAX
}

/// The five linearly mapped kernel areas: .text read-execute, .rodata
/// read-only, .data and .bss read-write, and the physical-memory window.
pub open spec fn kernel_areas(l: KernelLayout) -> Seq<MemoryArea> {
    seq![
        MemoryArea {
            start: l.stext,
            end: l.etext,
            attr: MemoryAttr { user: false, readonly: true, execute: true },
            handler: MemoryHandler::Linear { offset: l.offset },
        },
        MemoryArea {
            start: l.srodata,
            end: l.erodata,
            attr: MemoryAttr { user: false, readonly: true, execute: false },
            handler: MemoryHandler::Linear { offset: l.offset },
        },
        MemoryArea {
            start: l.sdata,
            end: l.edata,
            attr: MemoryAttr { user: false, readonly: false, execute: false },
            handler: MemoryHandler::Linear { offset: l.offset },
        },
        MemoryArea {
            start: l.sbss,
            end: l.ebss,
            attr: MemoryAttr { user: false, readonly: false, execute: false },
            handler: MemoryHandler::Linear { offset: l.offset },
        },
        MemoryArea {
            start: (l.kernel_end + PAGE_SIZE) as usize,
            end: (l.physical_memory_end + l.offset) as usize,
            attr: MemoryAttr { user: false, readonly: false, execute: false },
            handler: MemoryHandler::Linear { offset: l.offset },
        },
    ]
}

impl MemorySet {
    /// Install a new area: check it overlaps nothing, map every page
    /// through the handler, and copy the initial bytes in, page by page,
    /// through the destination page table.
    pub fn push(
        &mut self,
        ts: &mut PageTables,
        mem: &mut PhysMemory,
        start: usize,
        end: usize,
        attr: MemoryAttr,
        handler: MemoryHandler,
        data: Option<&Vec<u8>>,
    )
        requires
            set_wf(*old(self), *old(ts), *old(mem)),
            old(mem).wf(),
            area_wf(MemoryArea { start, end, attr, handler }),
            forall|k: int|
                0 <= k < old(self).areas@.len() ==> disjoint(
                    #[trigger] old(self).areas@[k],
                    MemoryArea { start, end, attr, handler },
                ),
            data is Some ==> handler is ByFrame,
        ensures
            final(mem).wf(),
            set_wf(*final(self), *final(ts), *final(mem)),
            final(self).areas@ == old(self).areas@.push(
                MemoryArea { start, end, attr, handler },
            ),
            final(self).page_table == old(self).page_table,
            final(ts).tables@.len() == old(ts).tables@.len(),
            forall|t: int|
                0 <= t < old(ts).tables@.len() && t != old(self).page_table ==> final(ts).tables@[t] == old(ts).tables@[t],
            final(mem).frames@.len() >= old(mem).frames@.len(),
            forall|i: int|
                0 <= i < old(mem).frames@.len() ==> final(mem).frames@[i] == old(mem).frames@[i],
            final(mem).freed == old(mem).freed,
            forall|u: usize|
                (#[trigger] final(ts).tables@[old(self).page_table as int].mapped(u) <==> old(ts).tables@[old(self).page_table as int].mapped(u) || (start as int / (
                PAGE_SIZE as int) <= u < end as int / (PAGE_SIZE as int))),
            forall|u: usize|
                old(ts).tables@[old(self).page_table as int].mapped(u) ==> #[trigger] final(ts).tables@[old(self).page_table as int].at(u) == old(ts).tables@[
                    old(self).page_table as int
                ].at(u),
            handler is ByFrame ==> forall|v: usize, j: int|
                #![trigger page_byte(*final(ts), *final(mem), old(self).page_table as int, v, j)]
                start as int / (PAGE_SIZE as int) <= v < end as int / (PAGE_SIZE as int) && 0 <= j
                    < PAGE_SIZE ==> {
                    &&& is_frame(final(ts).tables@[old(self).page_table as int].at(v).target)
                    &&& old(mem).frames@.len() <= target_frame(
                        final(ts).tables@[old(self).page_table as int].at(v).target,
                    ) < final(mem).frames@.len()
                    &&& page_byte(*final(ts), *final(mem), old(self).page_table as int, v, j)
                        == loaded_byte(
                        match data {
                            Some(d) => Some(d@),
                            None => None,
                        },
                        start as int / (PAGE_SIZE as int),
                        v as int,
                        j,
                    )
                },
    {
        let ghost newarea = MemoryArea { start, end, attr, handler };
        let pt = self.page_table;
        let ghost opt = ts.tables@[pt as int];
        let vs = start / PAGE_SIZE;
        let ve = end / PAGE_SIZE;
        let nf0 = mem.frames.len();
        proof {
            assert(area_vs(newarea) == vs && area_ve(newarea) == ve);
        }
        let mut v = vs;
        while v < ve
            invariant
                set_wf(*old(self), *old(ts), *old(mem)),
                old(mem).wf(),
                area_wf(newarea),
                newarea == (MemoryArea { start, end, attr, handler }),
                forall|k: int|
                    0 <= k < old(self).areas@.len() ==> disjoint(
                        #[trigger] old(self).areas@[k],
                        newarea,
                    ),
                *self == *old(self),
                pt == self.page_table,
                opt == old(ts).tables@[pt as int],
                vs == start as int / (PAGE_SIZE as int),
                ve == end as int / (PAGE_SIZE as int),
                vs <= v <= ve,
                nf0 == old(mem).frames@.len(),
                ts.tables@.len() == old(ts).tables@.len(),
                forall|t: int|
                    0 <= t < old(ts).tables@.len() && t != pt ==> ts.tables@[t] == old(ts).tables@[t],
                mem.wf(),
                mem.frames@.len() >= nf0,
                forall|i: int| 0 <= i < nf0 ==> mem.frames@[i] == old(mem).frames@[i],
                mem.freed == old(mem).freed,
                ts.tables@[pt as int].wf(),
                forall|u: usize|
                    (#[trigger] ts.tables@[pt as int].mapped(u) <==> opt.mapped(u) || (vs <= u
                        < v)),
                forall|u: usize|
                    opt.mapped(u) ==> #[trigger] ts.tables@[pt as int].at(u) == opt.at(u),
                forall|u: usize|
                    #![trigger ts.tables@[pt as int].at(u)]
                    vs <= u < v ==> {
                        &&& ts.tables@[pt as int].at(u).vpn == u
                        &&& ts.tables@[pt as int].at(u).attr == attr
                        &&& match handler {
                            MemoryHandler::Linear { offset } => ts.tables@[pt as int].at(
                                u,
                            ).target == PteTarget::Linear(
                                (u as int - offset as int / (PAGE_SIZE as int)) as usize,
                            ),
                            MemoryHandler::ByFrame => is_frame(
                                ts.tables@[pt as int].at(u).target,
                            ) && target_frame(ts.tables@[pt as int].at(u).target) == nf0 + (u
                                - vs) && mem.frames@[nf0 + (u - vs)]@
                                == crate::memory::phys::zero_page(),
                        }
                    },
                match handler {
                    MemoryHandler::Linear { .. } => mem.frames@.len() == nf0,
                    MemoryHandler::ByFrame => mem.frames@.len() == nf0 + (v - vs),
                },
            decreases ve - v,
        {
            proof {
                if opt.mapped(v) {
                    let k = choose|k: int|
                        0 <= k < old(self).areas@.len() && contains_vpn(old(self).areas@[k], v);
                    lemma_disjoint_vpn(old(self).areas@[k], newarea, v);
                }
            }
            let ghost pre_tbl = ts.tables@[pt as int];
            let ghost pre_mem = *mem;
            let table = &mut ts.tables[pt];
            handler.map_page(table, mem, v, &attr);
            let len_now = mem.frames.len();
            proof {
                assert(len_now as int == mem.frames@.len());
                assert forall|u: usize|
                    #![trigger ts.tables@[pt as int].at(u)]
                    vs <= u < v + 1 implies {
                    &&& ts.tables@[pt as int].at(u).vpn == u
                    &&& ts.tables@[pt as int].at(u).attr == attr
                    &&& match handler {
                        MemoryHandler::Linear { offset } => ts.tables@[pt as int].at(u).target
                            == PteTarget::Linear(
                            (u as int - offset as int / (PAGE_SIZE as int)) as usize,
                        ),
                        MemoryHandler::ByFrame => is_frame(ts.tables@[pt as int].at(u).target)
                            && target_frame(ts.tables@[pt as int].at(u).target) == nf0 + (u - vs)
                            && mem.frames@[nf0 + (u - vs)]@ == crate::memory::phys::zero_page(),
                    }
                } by {
                    if u < v {
                        assert(pre_tbl.mapped(u));
                        let pe = pre_tbl.at(u);
                        assert(pe.vpn == u);
                        assert(pe.attr == attr);
                        assert(ts.tables@[pt as int].at(u) == pe);
                        match handler {
                            MemoryHandler::Linear { offset } => {
                                assert(pe.target == PteTarget::Linear(
                                    (u as int - offset as int / (PAGE_SIZE as int)) as usize,
                                ));
                            },
                            MemoryHandler::ByFrame => {
                                assert(is_frame(pe.target));
                                assert(target_frame(pe.target) == nf0 + (u - vs));
                                assert(pre_mem.frames@[nf0 + (u - vs)]@
                                    == crate::memory::phys::zero_page());
                                assert(nf0 + (u - vs) < pre_mem.frames@.len());
                                assert(mem.frames@[nf0 + (u - vs)] == pre_mem.frames@[nf0 + (u
                                    - vs)]);
                            },
                        }
                    } else {
                        assert(u == v);
                        assert(ts.tables@[pt as int].at(v).vpn == v);
                        assert(ts.tables@[pt as int].at(v).attr == attr);
                        match handler {
                            MemoryHandler::Linear { offset } => {
                                assert(ts.tables@[pt as int].at(v).target == PteTarget::Linear(
                                    (v as int - offset as int / (PAGE_SIZE as int)) as usize,
                                ));
                            },
                            MemoryHandler::ByFrame => {
                                assert(pre_mem.frames@.len() == nf0 + (v - vs));
                                assert(ts.tables@[pt as int].at(v).target == PteTarget::Frame(
                                    pre_mem.frames@.len() as usize,
                                ));
                                assert(mem.frames@[pre_mem.frames@.len() as int]@
                                    == crate::memory::phys::zero_page());
                            },
                        }
                    }
                }
            }
            v += 1;
        }
        if let Some(d) = data {
            proof {
                assert forall|u: int|
                    vs <= u < ve implies #[trigger] mem.frames@[nf0 + (u - vs)]@
                    == crate::memory::phys::zero_page() by {
                    let e = ts.tables@[pt as int].at(u as usize);
                    assert(e.vpn == u as usize);
                }
            }
            let mut v2 = vs;
            let mut base: usize = 0;
            while v2 < ve
                invariant
                    handler is ByFrame,
                    vs <= v2 <= ve,
                    base == (v2 - vs) * (PAGE_SIZE as int),
                    base <= end,
                    end as int == ve * (PAGE_SIZE as int),
                    vs == start as int / (PAGE_SIZE as int),
                    ve == end as int / (PAGE_SIZE as int),
                    mem.wf(),
                    mem.frames@.len() >= nf0 + (ve - vs),
                    forall|i: int| 0 <= i < nf0 ==> mem.frames@[i] == old(mem).frames@[i],
                    mem.freed == old(mem).freed,
                    nf0 == old(mem).frames@.len(),
                    forall|i: int|
                        nf0 + (ve - vs) <= i < mem.frames@.len() ==> mem.frames@[i] == old(mem).frames@[i],
                    forall|u: usize|
                        #![trigger ts.tables@[pt as int].at(u)]
                        vs <= u < ve ==> is_frame(ts.tables@[pt as int].at(u).target)
                            && target_frame(ts.tables@[pt as int].at(u).target) == nf0 + (u
                            - vs),
                    forall|u: int, j: int|
                        vs <= u < v2 && 0 <= j < PAGE_SIZE ==> #[trigger] mem.frames@[nf0 + (u
                            - vs)]@[j] == loaded_byte(Some(d@), vs as int, u, j),
                    forall|u: int|
                        v2 <= u < ve ==> #[trigger] mem.frames@[nf0 + (u - vs)]@
                            == crate::memory::phys::zero_page(),
                decreases ve - v2,
            {
                let len_now = mem.frames.len();
                let f = nf0 + (v2 - vs);
                let mut j: usize = 0;
                while j < PAGE_SIZE
                    invariant
                        0 <= j <= PAGE_SIZE,
                        vs <= v2 < ve,
                        f == nf0 + (v2 - vs),
                        base == (v2 - vs) * (PAGE_SIZE as int),
                        base + PAGE_SIZE <= ve * (PAGE_SIZE as int),
                        mem.wf(),
                        f < mem.frames@.len(),
                        mem.frames@.len() >= nf0 + (ve - vs),
                        forall|i: int| 0 <= i < nf0 ==> mem.frames@[i] == old(mem).frames@[i],
                        mem.freed == old(mem).freed,
                        nf0 == old(mem).frames@.len(),
                        forall|i: int|
                            nf0 + (ve - vs) <= i < mem.frames@.len() ==> mem.frames@[i] == old(mem).frames@[i],
                        forall|u: int, jj: int|
                            vs <= u < v2 && 0 <= jj < PAGE_SIZE ==> #[trigger] mem.frames@[nf0 + (
                            u - vs)]@[jj] == loaded_byte(Some(d@), vs as int, u, jj),
                        forall|u: int|
                            v2 < u < ve ==> #[trigger] mem.frames@[nf0 + (u - vs)]@
                                == crate::memory::phys::zero_page(),
                        forall|kk: int|
                            0 <= kk < j ==> #[trigger] mem.frames@[f as int]@[kk] == loaded_byte(
                                Some(d@),
                                vs as int,
                                v2 as int,
                                kk,
                            ),
                        forall|kk: int|
                            j <= kk < PAGE_SIZE ==> #[trigger] mem.frames@[f as int]@[kk] == 0u8,
                    decreases PAGE_SIZE - j,
                {
                    if base + j < d.len() {
                        let b = d[base + j];
                        mem.write_byte(f, j, b);
                    }
                    j += 1;
                }
                base += PAGE_SIZE;
                v2 += 1;
            }
        }
        self.areas.push(MemoryArea { start, end, attr, handler });
        proof {
            let table = ts.tables@[pt as int];
            let n0 = old(self).areas@.len() as int;
            assert(self.areas@[n0] == newarea);
            assert forall|k: int, u: usize|
                0 <= k < self.areas@.len() && #[trigger] contains_vpn(self.areas@[k], u)
                implies table.mapped(u) && entry_matches(
                table.at(u),
                self.areas@[k],
                mem.frames@.len() as int,
            ) by {
                if k < n0 {
                    assert(contains_vpn(old(self).areas@[k], u));
                    lemma_disjoint_vpn(old(self).areas@[k], newarea, u);
                    assert(opt.mapped(u));
                } else {
                    assert(vs <= u < ve);
                }
            }
            assert forall|u: usize| #[trigger] table.mapped(u) implies exists|k: int|
                0 <= k < self.areas@.len() && contains_vpn(self.areas@[k], u) by {
                if opt.mapped(u) {
                    let k = choose|k: int|
                        0 <= k < old(self).areas@.len() && contains_vpn(old(self).areas@[k], u);
                    assert(contains_vpn(self.areas@[k], u));
                } else {
                    assert(contains_vpn(self.areas@[n0], u));
                }
            }
        }
    }

    /// Whether `[start, end)` overlaps none of the present areas.
    pub fn test_free_area(&self, start: usize, end: usize) -> (r: bool)
        ensures
            r <==> forall|k: int|
                0 <= k < self.areas@.len() ==> disjoint(
                    #[trigger] self.areas@[k],
                    MemoryArea {
                        start,
                        end,
                        attr: MemoryAttr { user: false, readonly: false, execute: false },
                        handler: MemoryHandler::ByFrame,
                    },
                ),
    {
        let n = self.areas.len();
        let mut k: usize = 0;
        let ghost probe = MemoryArea {
            start,
            end,
            attr: MemoryAttr { user: false, readonly: false, execute: false },
            handler: MemoryHandler::ByFrame,
        };
        while k < n
            invariant
                n == self.areas@.len(),
                0 <= k <= n,
                probe.start == start && probe.end == end,
                forall|j: int| 0 <= j < k ==> disjoint(#[trigger] self.areas@[j], probe),
            decreases n - k,
        {
            let a = &self.areas[k];
            if !(a.end <= start || end <= a.start) {
                return false;
            }
            k += 1;
        }
        true
    }

    /// The satp-format token of this set's page table.
    pub fn token(&self, ts: &PageTables) -> (t: u64)
        requires
            self.page_table < ts.tables@.len(),
        ensures
            t == ts.tables@[self.page_table as int].spec_token(),
    {
        ts.tables[self.page_table].token()
    }

    /// Activate this address space: write its token to the satp register.
    /// Only one set is active on the hart at any moment.
    pub fn activate(&self, ts: &PageTables, satp: &mut u64)
        requires
            self.page_table < ts.tables@.len(),
        ensures
            *final(satp) == ts.tables@[self.page_table as int].spec_token(),
    {
        *satp = self.token(ts);
    }

    /// Deep-copy this address space: a fresh page table, the areas list
    /// duplicated, and every page re-established by its area's handler —
    /// `Linear` pages shared, `ByFrame` pages backed by fresh frames
    /// holding byte-for-byte copies.
    pub fn clone(&self, ts: &mut PageTables, mem: &mut PhysMemory) -> (ms: MemorySet)
        requires
            set_wf(*self, *old(ts), *old(mem)),
            old(mem).wf(),
        ensures
            final(mem).wf(),
            set_wf(*self, *final(ts), *final(mem)),
            set_wf(ms, *final(ts), *final(mem)),
            ms.areas@ == self.areas@,
            ms.page_table == old(ts).tables@.len(),
            final(ts).tables@.len() == old(ts).tables@.len() + 1,
            forall|t: int|
                0 <= t < old(ts).tables@.len() ==> final(ts).tables@[t] == old(ts).tables@[t],
            final(mem).frames@.len() >= old(mem).frames@.len(),
            forall|i: int|
                0 <= i < old(mem).frames@.len() ==> final(mem).frames@[i] == old(mem).frames@[i],
            final(mem).freed == old(mem).freed,
            clone_rel(*self, ms, *final(ts), *final(mem), old(mem).frames@.len() as int),
    {
        let new_id = ts.tables.len();
        let pt = self.page_table;
        let mut npt = PageTableImpl::new_bare(mem);
        let na = self.areas.len();
        let mut newareas: Vec<MemoryArea> = Vec::new();
        let mut k: usize = 0;
        while k < na
            invariant
                set_wf(*self, *old(ts), *old(mem)),
                old(mem).wf(),
                pt == self.page_table,
                na == self.areas@.len(),
                0 <= k <= na,
                newareas@ == self.areas@.take(k as int),
                *ts == *old(ts),
                new_id == old(ts).tables@.len(),
                mem.wf(),
                mem.frames@.len() >= old(mem).frames@.len(),
                forall|i: int|
                    0 <= i < old(mem).frames@.len() ==> mem.frames@[i] == old(mem).frames@[i],
                mem.freed == old(mem).freed,
                npt.wf(),
                forall|u: usize|
                    #[trigger] npt.mapped(u) && is_frame(npt.at(u).target) ==> 0 <= target_frame(
                        npt.at(u).target,
                    ) < mem.frames@.len(),
                frames_injective(npt),
                forall|u: usize|
                    #[trigger] npt.mapped(u) <==> exists|j: int|
                        0 <= j < k && contains_vpn(self.areas@[j], u),
                forall|j: int, u: usize|
                    0 <= j < k && #[trigger] contains_vpn(self.areas@[j], u) ==> {
                        &&& npt.at(u).vpn == u
                        &&& npt.at(u).attr == self.areas@[j].attr
                        &&& match self.areas@[j].handler {
                            MemoryHandler::Linear { .. } => npt.at(u).target == ts.tables@[
                                pt as int
                            ].at(u).target,
                            MemoryHandler::ByFrame => {
                                &&& is_frame(npt.at(u).target)
                                &&& old(mem).frames@.len() <= target_frame(npt.at(u).target)
                                    < mem.frames@.len()
                                &&& mem.frames@[target_frame(npt.at(u).target)]@
                                    == mem.frames@[target_frame(
                                    ts.tables@[pt as int].at(u).target,
                                )]@
                            },
                        }
                    },
            decreases na - k,
        {
            let a = self.areas[k];
            let vs = a.start / PAGE_SIZE;
            let ve = a.end / PAGE_SIZE;
            proof {
                assert(area_wf(a));
                assert(area_vs(a) == vs && area_ve(a) == ve);
            }
            let mut v = vs;
            while v < ve
                invariant
                    set_wf(*self, *old(ts), *old(mem)),
                    old(mem).wf(),
                    pt == self.page_table,
                    na == self.areas@.len(),
                    0 <= k < na,
                    a == self.areas@[k as int],
                    area_wf(a),
                    vs == area_vs(a),
                    ve == area_ve(a),
                    vs <= v <= ve,
                    *ts == *old(ts),
                    new_id == old(ts).tables@.len(),
                    mem.wf(),
                    mem.frames@.len() >= old(mem).frames@.len(),
                    forall|i: int|
                        0 <= i < old(mem).frames@.len() ==> mem.frames@[i] == old(mem).frames@[i],
                    mem.freed == old(mem).freed,
                    npt.wf(),
                    forall|u: usize|
                        #[trigger] npt.mapped(u) && is_frame(npt.at(u).target) ==> 0
                            <= target_frame(npt.at(u).target) < mem.frames@.len(),
                    frames_injective(npt),
                    forall|u: usize|
                        #[trigger] npt.mapped(u) <==> (exists|j: int|
                            0 <= j < k && contains_vpn(self.areas@[j], u)) || (vs <= u < v),
                    forall|j: int, u: usize|
                        (0 <= j < k && #[trigger] contains_vpn(self.areas@[j], u)) || (j == k
                            && vs <= u < v && contains_vpn(self.areas@[j], u)) ==> {
                            &&& npt.at(u).vpn == u
                            &&& npt.at(u).attr == self.areas@[j].attr
                            &&& match self.areas@[j].handler {
                                MemoryHandler::Linear { .. } => npt.at(u).target == ts.tables@[
                                    pt as int
                                ].at(u).target,
                                MemoryHandler::ByFrame => {
                                    &&& is_frame(npt.at(u).target)
                                    &&& old(mem).frames@.len() <= target_frame(npt.at(u).target)
                                        < mem.frames@.len()
                                    &&& mem.frames@[target_frame(npt.at(u).target)]@
                                        == mem.frames@[target_frame(
                                        ts.tables@[pt as int].at(u).target,
                                    )]@
                                },
                            }
                        },
                decreases ve - v,
            {
                let ghost pre_npt = npt;
                let ghost pre_mem = *mem;
                proof {
                    assert(contains_vpn(a, v));
                    if npt.mapped(v) {
                        if exists|j: int| 0 <= j < k && contains_vpn(self.areas@[j], v) {
                            let j = choose|j: int|
                                0 <= j < k && contains_vpn(self.areas@[j], v);
                            lemma_disjoint_vpn(self.areas@[j], a, v);
                        }
                    }
                    assert(ts.tables@[pt as int].mapped(v));
                    assert(entry_matches(
                        ts.tables@[pt as int].at(v),
                        a,
                        old(mem).frames@.len() as int,
                    ));
                }
                a.handler.clone_map(&mut npt, &ts.tables[pt], mem, v, &a.attr);
                let len_now = mem.frames.len();
                proof {
                    assert(len_now as int == mem.frames@.len());
                    assert forall|u: usize|
                        #[trigger] npt.mapped(u) && is_frame(npt.at(u).target) implies 0
                        <= target_frame(npt.at(u).target) < mem.frames@.len() by {
                        if u != v {
                            assert(pre_npt.mapped(u));
                            assert(npt.at(u) == pre_npt.at(u));
                            assert(target_frame(pre_npt.at(u).target) < pre_mem.frames@.len());
                        }
                    }
                    assert forall|u1: usize, u2: usize|
                        #![trigger npt.at(u1), npt.at(u2)]
                        u1 != u2 && npt.mapped(u1) && npt.mapped(u2) && is_frame(
                            npt.at(u1).target,
                        ) && is_frame(npt.at(u2).target) implies target_frame(npt.at(u1).target)
                        != target_frame(npt.at(u2).target) by {
                        if u1 != v && u2 != v {
                            assert(pre_npt.mapped(u1));
                            assert(pre_npt.mapped(u2));
                            assert(npt.at(u1) == pre_npt.at(u1));
                            assert(npt.at(u2) == pre_npt.at(u2));
                        } else {
                            let w = if u1 == v {
                                u2
                            } else {
                                u1
                            };
                            if is_frame(npt.at(v).target) {
                                assert(pre_npt.mapped(w));
                                assert(npt.at(w) == pre_npt.at(w));
                                assert(target_frame(pre_npt.at(w).target)
                                    < pre_mem.frames@.len());
                                assert(target_frame(npt.at(v).target)
                                    >= pre_mem.frames@.len());
                            }
                        }
                    }
                    assert forall|j: int, u: usize|
                        (0 <= j < k && #[trigger] contains_vpn(self.areas@[j], u)) || (j == k
                            && vs <= u < v + 1 && contains_vpn(self.areas@[j], u)) implies {
                        &&& npt.at(u).vpn == u
                        &&& npt.at(u).attr == self.areas@[j].attr
                        &&& match self.areas@[j].handler {
                            MemoryHandler::Linear { .. } => npt.at(u).target == ts.tables@[
                                pt as int
                            ].at(u).target,
                            MemoryHandler::ByFrame => {
                                &&& is_frame(npt.at(u).target)
                                &&& old(mem).frames@.len() <= target_frame(npt.at(u).target)
                                    < mem.frames@.len()
                                &&& mem.frames@[target_frame(npt.at(u).target)]@
                                    == mem.frames@[target_frame(
                                    ts.tables@[pt as int].at(u).target,
                                )]@
                            },
                        }
                    } by {
                        if j == k && u == v {
                            assert(entry_matches(
                                ts.tables@[pt as int].at(v),
                                a,
                                old(mem).frames@.len() as int,
                            ));
                        } else {
                            assert(pre_npt.mapped(u));
                            let pe = pre_npt.at(u);
                            assert(pe.vpn == u);
                            assert(npt.at(u) == pe);
                            assert(entry_matches(
                                ts.tables@[pt as int].at(u),
                                self.areas@[j],
                                old(mem).frames@.len() as int,
                            ));
                            match self.areas@[j].handler {
                                MemoryHandler::ByFrame => {
                                    assert(target_frame(pe.target) < pre_mem.frames@.len());
                                    assert(target_frame(ts.tables@[pt as int].at(u).target)
                                        < old(mem).frames@.len());
                                    assert(mem.frames@[target_frame(pe.target)]
                                        == pre_mem.frames@[target_frame(pe.target)]);
                                    assert(mem.frames@[target_frame(
                                        ts.tables@[pt as int].at(u).target,
                                    )] == pre_mem.frames@[target_frame(
                                        ts.tables@[pt as int].at(u).target,
                                    )]);
                                },
                                MemoryHandler::Linear { .. } => {},
                            }
                        }
                    }
                }
                v += 1;
            }
            newareas.push(a);
            proof {
                assert(newareas@ =~= self.areas@.take(k + 1));
                assert forall|u: usize|
                    #[trigger] npt.mapped(u) <==> exists|j: int|
                        0 <= j < k + 1 && contains_vpn(self.areas@[j], u) by {
                    if npt.mapped(u) {
                        if exists|j: int| 0 <= j < k && contains_vpn(self.areas@[j], u) {
                            let j = choose|j: int| 0 <= j < k && contains_vpn(self.areas@[j], u);
                            assert(0 <= j < k + 1 && contains_vpn(self.areas@[j], u));
                        } else {
                            assert(contains_vpn(self.areas@[k as int], u));
                        }
                    }
                }
            }
            k += 1;
        }
        ts.tables.push(npt);
        let ms = MemorySet { areas: newareas, page_table: new_id };
        proof {
            assert(ms.areas@ == self.areas@.take(na as int));
            assert(self.areas@.take(na as int) =~= self.areas@);
            let ntbl = ts.tables@[new_id as int];
            assert forall|kk: int, u: usize|
                0 <= kk < ms.areas@.len() && #[trigger] contains_vpn(ms.areas@[kk], u)
                implies ntbl.mapped(u) && entry_matches(
                ntbl.at(u),
                ms.areas@[kk],
                mem.frames@.len() as int,
            ) by {
                assert(contains_vpn(self.areas@[kk], u));
                assert(entry_matches(
                    ts.tables@[pt as int].at(u),
                    self.areas@[kk],
                    old(mem).frames@.len() as int,
                ));
            }
            assert forall|u: usize| #[trigger] ntbl.mapped(u) implies exists|kk: int|
                0 <= kk < ms.areas@.len() && contains_vpn(ms.areas@[kk], u) by {
                let j = choose|j: int| 0 <= j < na && contains_vpn(self.areas@[j], u);
                assert(contains_vpn(ms.areas@[j], u));
            }
            lemma_set_wf_preserved(*self, *old(ts), *ts, *old(mem), *mem);
        }
        ms
    }

    /// Map the kernel image and the physical-memory window: the five
    /// fixed-offset linear areas every address space carries.
    pub fn map_kernel_and_physical_memory(
        &mut self,
        ts: &mut PageTables,
        mem: &mut PhysMemory,
        l: &KernelLayout,
    )
        requires
            set_wf(*old(self), *old(ts), *old(mem)),
            old(mem).wf(),
            layout_wf(*l),
            forall|k: int|
                0 <= k < old(self).areas@.len() ==> disjoint(
                    #[trigger] old(self).areas@[k],
                    MemoryArea {
                        start: l.stext,
                        end: (l.physical_memory_end + l.offset) as usize,
                        attr: MemoryAttr { user: false, readonly: false, execute: false },
                        handler: MemoryHandler::ByFrame,
                    },
                ),
        ensures
            final(mem).wf(),
            set_wf(*final(self), *final(ts), *final(mem)),
            final(self).areas@ == old(self).areas@ + kernel_areas(*l),
            final(self).page_table == old(self).page_table,
            final(ts).tables@.len() == old(ts).tables@.len(),
            forall|t: int|
                0 <= t < old(ts).tables@.len() && t != old(self).page_table ==> final(ts).tables@[t] == old(ts).tables@[t],
            final(mem).frames@.len() >= old(mem).frames@.len(),
            forall|i: int|
                0 <= i < old(mem).frames@.len() ==> final(mem).frames@[i] == old(mem).frames@[i],
            final(mem).freed == old(mem).freed,
    {
        let offset = l.offset;
        let ghost areas0 = self.areas@;
        self.push(
            ts,
            mem,
            l.stext,
            l.etext,
            MemoryAttr::new().set_readonly().set_execute(),
            MemoryHandler::Linear { offset },
            None,
        );
        self.push(
            ts,
            mem,
            l.srodata,
            l.erodata,
            MemoryAttr::new().set_readonly(),
            MemoryHandler::Linear { offset },
            None,
        );
        self.push(
            ts,
            mem,
            l.sdata,
            l.edata,
            MemoryAttr::new(),
            MemoryHandler::Linear { offset },
            None,
        );
        self.push(
            ts,
            mem,
            l.sbss,
            l.ebss,
            MemoryAttr::new(),
            MemoryHandler::Linear { offset },
            None,
        );
        self.push(
            ts,
            mem,
            l.kernel_end + PAGE_SIZE,
            l.physical_memory_end + offset,
            MemoryAttr::new(),
            MemoryHandler::Linear { offset },
            None,
        );
        proof {
            assert(self.areas@ =~= areas0 + kernel_areas(*l));
        }
    }

    /// A fresh address space: a bare page table registered in the kernel's
    /// store, populated with the kernel and physical-memory mappings.
    pub fn new(ts: &mut PageTables, mem: &mut PhysMemory, l: &KernelLayout) -> (ms: MemorySet)
        requires
            old(mem).wf(),
            layout_wf(*l),
        ensures
            final(mem).wf(),
            set_wf(ms, *final(ts), *final(mem)),
            ms.areas@ == kernel_areas(*l),
            ms.page_table == old(ts).tables@.len(),
            final(ts).tables@.len() == old(ts).tables@.len() + 1,
            forall|t: int|
                0 <= t < old(ts).tables@.len() ==> final(ts).tables@[t] == old(ts).tables@[t],
            final(mem).frames@.len() >= old(mem).frames@.len(),
            forall|i: int|
                0 <= i < old(mem).frames@.len() ==> final(mem).frames@[i] == old(mem).frames@[i],
            final(mem).freed == old(mem).freed,
    {
        let new_id = ts.tables.len();
        let npt = PageTableImpl::new_bare(mem);
        ts.tables.push(npt);
        let mut ms = MemorySet { areas: Vec::new(), page_table: new_id };
        ms.map_kernel_and_physical_memory(ts, mem, l);
        proof {
            assert(ms.areas@ =~= kernel_areas(*l));
        }
        ms
    }
}

} // verus!
