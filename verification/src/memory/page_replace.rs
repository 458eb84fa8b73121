//! Page replacement: first-in first-out with a second chance. Frames wait
//! in an insertion-ordered queue of `(vaddr, page table)` entries; the
//! victim chooser inspects the front entry's accessed bit — set means
//! clear it and rotate the entry to the back, clear means evict it. The
//! loop terminates because every rotation clears one set bit.

use vstd::prelude::*;

use crate::consts::PAGE_SIZE;
use crate::memory::paging::PageTableEntry;
use crate::memory::paging::PageTables;

verus! {

/// Whether queue entry `e = (vaddr, table)` names a mapped page whose
/// accessed bit is set.
pub open spec fn entry_accessed(e: (usize, usize), ts: PageTables) -> bool {
    ts.tables@[e.1 as int].at((e.0 as int / (PAGE_SIZE as int)) as usize).accessed
}

/// How many queued entries have their accessed bit set.
pub open spec fn acc_count(q: Seq<(usize, usize)>, ts: PageTables) -> int
    decreases q.len(),
{
    if q.len() == 0 {
        0
    } else {
        (if entry_accessed(q[0], ts) {
            1int
        } else {
            0int
        }) + acc_count(q.skip(1), ts)
    }
}

proof fn lemma_acc_count_le(q: Seq<(usize, usize)>, ts1: PageTables, ts2: PageTables)
    requires
        forall|i: int|
            0 <= i < q.len() && entry_accessed(#[trigger] q[i], ts2) ==> entry_accessed(q[i], ts1),
    ensures
        acc_count(q, ts2) <= acc_count(q, ts1),
        acc_count(q, ts2) >= 0,
    decreases q.len(),
{
    if q.len() > 0 {
        let rest = q.skip(1);
        assert(forall|i: int| 0 <= i < rest.len() ==> #[trigger] rest[i] == q[i + 1]);
        lemma_acc_count_le(rest, ts1, ts2);
    }
}

proof fn lemma_acc_count_snoc(q: Seq<(usize, usize)>, e: (usize, usize), ts: PageTables)
    ensures
        acc_count(q.push(e), ts) == acc_count(q, ts) + (if entry_accessed(e, ts) {
            1int
        } else {
            0int
        }),
    decreases q.len(),
{
    if q.len() == 0 {
        assert(q.push(e).skip(1) =~= Seq::<(usize, usize)>::empty());
        assert(q.push(e)[0] == e);
        assert(acc_count(q.push(e), ts) == (if entry_accessed(e, ts) {
            1int
        } else {
            0int
        }) + acc_count(q.push(e).skip(1), ts));
        assert(acc_count(q.push(e).skip(1), ts) == 0);
        assert(acc_count(q, ts) == 0);
    } else {
        assert(q.push(e)[0] == q[0]);
        assert(q.push(e).skip(1) =~= q.skip(1).push(e));
        lemma_acc_count_snoc(q.skip(1), e, ts);
        assert(acc_count(q.push(e), ts) == (if entry_accessed(q[0], ts) {
            1int
        } else {
            0int
        }) + acc_count(q.skip(1).push(e), ts));
        assert(acc_count(q, ts) == (if entry_accessed(q[0], ts) {
            1int
        } else {
            0int
        }) + acc_count(q.skip(1), ts));
    }
}

/// The queue's obligation on the tables it points into: each entry names
/// a mapped page of a well-formed table.
pub open spec fn queue_valid(q: Seq<(usize, usize)>, ts: PageTables) -> bool {
    forall|i: int|
        0 <= i < q.len() ==> (#[trigger] q[i]).1 < ts.tables@.len() && ts.tables@[
            q[i].1 as int
        ].wf() && ts.tables@[q[i].1 as int].mapped((q[i].0 as int / (PAGE_SIZE as int)) as usize)
}

/// One page table entry equal to another except that its accessed bit may
/// have been cleared.
pub open spec fn entry_mod_accessed(e1: PageTableEntry, e0: PageTableEntry) -> bool {
    e1 == e0 || e1 == (PageTableEntry { accessed: false, ..e0 })
}

/// What `choose_victim` may do to the tables: clear accessed bits, and
/// nothing else.
pub open spec fn tables_mod_accessed(ts1: PageTables, ts0: PageTables) -> bool {
    &&& ts1.tables@.len() == ts0.tables@.len()
    &&& forall|t: int|
        0 <= t < ts0.tables@.len() ==> {
            &&& (#[trigger] ts1.tables@[t]).root_ppn == ts0.tables@[t].root_ppn
            &&& (ts0.tables@[t].wf() ==> ts1.tables@[t].wf() && (forall|v: usize|
                (#[trigger] ts1.tables@[t].mapped(v) <==> ts0.tables@[t].mapped(v))
                    && (ts0.tables@[t].mapped(v) ==> entry_mod_accessed(
                    ts1.tables@[t].at(v),
                    ts0.tables@[t].at(v),
                ))))
        }
}

pub struct FifoPageReplace {
    pub frames: Vec<(usize, usize)>,
}

impl FifoPageReplace {
    pub fn new() -> (p: FifoPageReplace)
        ensures
            p.frames@.len() == 0,
    {
        FifoPageReplace { frames: Vec::new() }
    }

    /// Record that the page at `vaddr` in table `pt` was brought in.
    pub fn push_frame(&mut self, vaddr: usize, pt: usize)
        ensures
            final(self).frames@ == old(self).frames@.push((vaddr, pt)),
    {
        self.frames.push((vaddr, pt));
    }

    /// Select a frame to evict: starting from the front, each inspected
    /// entry whose accessed bit is set loses the bit and rotates to the
    /// back — its second chance — and the first whose bit is clear is
    /// removed and returned, the relative order of the rest kept.
    /// Eviction itself is the caller's affair; only accessed bits change
    /// in the tables.
    pub fn choose_victim(&mut self, ts: &mut PageTables) -> (r: Option<(usize, usize)>)
        requires
            queue_valid(old(self).frames@, *old(ts)),
        ensures
            tables_mod_accessed(*final(ts), *old(ts)),
            queue_valid(final(self).frames@, *final(ts)),
            match r {
                None => {
                    &&& old(self).frames@.len() == 0
                    &&& *final(self) == *old(self)
                    &&& *final(ts) == *old(ts)
                },
                Some(victim) => {
                    &&& !entry_accessed(victim, *final(ts))
                    &&& exists|m: int|
                        {
                            &&& 0 <= m < old(self).frames@.len()
                            &&& victim == old(self).frames@[m]
                            &&& final(self).frames@ == old(self).frames@.skip(m + 1) + old(
                                self,
                            ).frames@.take(m)
                            &&& forall|j: int|
                                0 <= j < m ==> entry_accessed(
                                    #[trigger] old(self).frames@[j],
                                    *old(ts),
                                ) && !entry_accessed(old(self).frames@[j], *final(ts))
                        }
                },
            },
    {
        if self.frames.len() == 0 {
            return None;
        }
        let ghost mut rot: int = 0;
        let ghost mut wrapped: bool = false;
        let ghost n0 = old(self).frames@.len() as int;
        loop
            invariant
                self.frames@.len() >= 1,
                queue_valid(self.frames@, *ts),
                queue_valid(old(self).frames@, *old(ts)),
                tables_mod_accessed(*ts, *old(ts)),
                self.frames@.len() == n0,
                n0 == old(self).frames@.len(),
                0 <= rot < n0,
                self.frames@ == old(self).frames@.skip(rot) + old(self).frames@.take(rot),
                !wrapped ==> forall|j: int|
                    0 <= j < rot ==> entry_accessed(#[trigger] old(self).frames@[j], *old(ts))
                        && !entry_accessed(old(self).frames@[j], *ts),
                wrapped ==> rot == 0 && forall|j: int|
                    0 <= j < n0 ==> !entry_accessed(#[trigger] old(self).frames@[j], *ts),
            decreases acc_count(self.frames@, *ts) + 1,
        {
            let (va, t) = self.frames[0];
            let vpn = va / PAGE_SIZE;
            let accessed = {
                let tbl = &ts.tables[t];
                match tbl.find(vpn) {
                    Some(i) => tbl.entries[i].accessed,
                    None => {
                        proof {
                            assert(false);
                        }
                        false
                    },
                }
            };
            proof {
                assert(self.frames@[0] == old(self).frames@[rot]);
            }
            if accessed {
                let ghost pre_ts = *ts;
                let ghost pre_q = self.frames@;
                proof {
                    assert(entry_accessed(pre_q[0], pre_ts));
                    assert(!wrapped) by {
                        if wrapped {
                            assert(!entry_accessed(old(self).frames@[0], *ts));
                        }
                    }
                    assert(old(self).frames@[rot] == (va, t));
                    assert(old(ts).tables@[t as int].wf());
                    assert(pre_ts.tables@[t as int].mapped(vpn));
                    assert(entry_mod_accessed(
                        pre_ts.tables@[t as int].at(vpn),
                        old(ts).tables@[t as int].at(vpn),
                    ));
                    assert(entry_accessed(old(self).frames@[rot], *old(ts)));
                }
                let tbl = &mut ts.tables[t];
                tbl.set_accessed(vpn, false);
                let first = self.frames.remove(0);
                self.frames.push(first);
                proof {
                    assert(self.frames@ =~= pre_q.skip(1).push(pre_q[0]));
                    assert(!entry_accessed(pre_q[0], *ts));
                    assert forall|i: int|
                        0 <= i < pre_q.skip(1).len() && entry_accessed(
                            #[trigger] pre_q.skip(1)[i],
                            *ts,
                        ) implies entry_accessed(pre_q.skip(1)[i], pre_ts) by {
                        assert(pre_q.skip(1)[i] == pre_q[i + 1]);
                    }
                    lemma_acc_count_le(pre_q.skip(1), pre_ts, *ts);
                    lemma_acc_count_snoc(pre_q.skip(1), pre_q[0], *ts);
                    assert(acc_count(self.frames@, *ts) == acc_count(pre_q.skip(1), *ts));
                    assert(acc_count(pre_q, pre_ts) == 1 + acc_count(pre_q.skip(1), pre_ts));
                    assert forall|j: int|
                        0 <= j < rot implies entry_accessed(
                        #[trigger] old(self).frames@[j],
                        *old(ts),
                    ) && !entry_accessed(old(self).frames@[j], *ts) by {
                        let e = old(self).frames@[j];
                        assert(!entry_accessed(e, pre_ts));
                        if e.1 == t && (e.0 as int / (PAGE_SIZE as int)) as usize == vpn {
                            assert(ts.tables@[e.1 as int].at(
                                (e.0 as int / (PAGE_SIZE as int)) as usize,
                            ).accessed == false);
                        } else if e.1 == t {
                            assert(ts.tables@[t as int].at(
                                (e.0 as int / (PAGE_SIZE as int)) as usize,
                            ) == pre_ts.tables@[t as int].at(
                                (e.0 as int / (PAGE_SIZE as int)) as usize,
                            ));
                        } else {
                            assert(ts.tables@[e.1 as int] == pre_ts.tables@[e.1 as int]);
                        }
                    }
                    if rot + 1 < n0 {
                        assert(self.frames@ =~= old(self).frames@.skip(rot + 1) + old(
                            self,
                        ).frames@.take(rot + 1));
                        rot = rot + 1;
                    } else {
                        assert(self.frames@ =~= old(self).frames@.skip(0) + old(
                            self,
                        ).frames@.take(0));
                        rot = 0;
                        wrapped = true;
                        assert forall|j: int|
                            0 <= j < n0 implies !entry_accessed(
                            #[trigger] old(self).frames@[j],
                            *ts,
                        ) by {}
                    }
                }
            } else {
                let victim = self.frames.remove(0);
                let ghost pre_q = self.frames@.insert(0, victim);
                proof {
                    assert(pre_q[0] == victim);
                    let m = rot;
                    assert(victim == old(self).frames@[m]);
                    assert(self.frames@ =~= old(self).frames@.skip(m + 1) + old(
                        self,
                    ).frames@.take(m));
                    if wrapped {
                        assert(m == 0);
                    }
                }
                return Some(victim);
            }
        }
    }

    /// Aging hook: first-in first-out needs none.
    pub fn tick(&self) {
    }
}

} // verus!
