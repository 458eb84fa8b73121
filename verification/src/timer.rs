//! The supervisor timer: the re-arm computation and the sleep timer
//! wheel, an ordered sequence of `(deadline_tick, thread)` entries.
//! `tick(now)` fires and removes every entry whose deadline is at or
//! before `now`.

use vstd::prelude::*;

use crate::consts::TIMEBASE;

verus! {

/// The cycle at which the next supervisor timer interrupt is requested:
/// one `TIMEBASE` past the cycle counter read at re-arm time.
pub fn clock_set_next_event(cycle: u64) -> (next: u64)
    requires
        cycle + TIMEBASE <= u64::MAX,
    ensures
        next == cycle + TIMEBASE,
{
    cycle + TIMEBASE
}

pub struct TimerEvent {
    pub deadline: u64,
    /// The thread to wake when the deadline passes.
    pub tid: usize,
}

pub struct Timer {
    pub events: Vec<TimerEvent>,
}

impl Timer {
    /// Entries are kept sorted by deadline; equal deadlines keep their
    /// insertion order.
    pub open spec fn wf(self) -> bool {
        forall|i: int, j: int|
            #![trigger self.events@[i].deadline, self.events@[j].deadline]
            0 <= i < j < self.events@.len() ==> self.events@[i].deadline
                <= self.events@[j].deadline
    }

    pub fn new() -> (t: Timer)
        ensures
            t.wf(),
            t.events@.len() == 0,
    {
        Timer { events: Vec::new() }
    }

    /// Schedule a wakeup of `tid` at `deadline`: insert before the first
    /// later entry, after all entries at or before `deadline`.
    pub fn add(&mut self, deadline: u64, tid: usize)
        requires
            old(self).wf(),
        ensures
            final(self).wf(),
            final(self).events@.len() == old(self).events@.len() + 1,
            exists|k: int|
                {
                    &&& 0 <= k <= old(self).events@.len()
                    &&& final(self).events@ == old(self).events@.insert(
                        k,
                        TimerEvent { deadline, tid },
                    )
                    &&& forall|i: int| 0 <= i < k ==> old(self).events@[i].deadline <= deadline
                    &&& forall|i: int|
                        k <= i < old(self).events@.len() ==> old(self).events@[i].deadline
                            > deadline
                },
    {
        let n = self.events.len();
        let mut k: usize = 0;
        while k < n && self.events[k].deadline <= deadline
            invariant
                n == self.events@.len(),
                0 <= k <= n,
                forall|i: int| 0 <= i < k ==> self.events@[i].deadline <= deadline,
            decreases n - k,
        {
            k += 1;
        }
        proof {
            assert(forall|i: int|
                k <= i < self.events@.len() ==> self.events@[i].deadline > deadline) by {
                if k < self.events@.len() {
                    assert(self.events@[k as int].deadline > deadline);
                }
            }
        }
        let ghost pre = self.events@;
        self.events.insert(k, TimerEvent { deadline, tid });
        proof {
            assert(final(self).events@ == pre.insert(k as int, TimerEvent { deadline, tid }));
            assert forall|i: int, j: int|
                #![trigger self.events@[i].deadline, self.events@[j].deadline]
                0 <= i < j < self.events@.len() implies self.events@[i].deadline
                <= self.events@[j].deadline by {
                if i < k && j > k {
                    assert(self.events@[i] == pre[i]);
                    assert(self.events@[j] == pre[j - 1]);
                }
            }
        }
    }

    /// Fire every entry whose deadline is at or before `now`; the fired
    /// threads come back in deadline order for the caller to wake.
    pub fn tick(&mut self, now: u64) -> (fired: Vec<usize>)
        requires
            old(self).wf(),
        ensures
            final(self).wf(),
            fired@.len() <= old(self).events@.len(),
            final(self).events@ == old(self).events@.skip(fired@.len() as int),
            forall|i: int|
                0 <= i < fired@.len() ==> {
                    &&& #[trigger] fired@[i] == old(self).events@[i].tid
                    &&& old(self).events@[i].deadline <= now
                },
            forall|i: int|
                0 <= i < final(self).events@.len() ==> (#[trigger] final(self).events@[i]).deadline
                    > now,
    {
        let ghost pre = self.events@;
        let mut fired: Vec<usize> = Vec::new();
        while self.events.len() > 0 && self.events[0].deadline <= now
            invariant
                fired@.len() + self.events@.len() == pre.len(),
                self.events@ == pre.skip(fired@.len() as int),
                forall|i: int|
                    0 <= i < fired@.len() ==> {
                        &&& #[trigger] fired@[i] == pre[i].tid
                        &&& pre[i].deadline <= now
                    },
                forall|i: int, j: int|
                    #![trigger pre[i].deadline, pre[j].deadline]
                    0 <= i < j < pre.len() ==> pre[i].deadline <= pre[j].deadline,
            decreases self.events@.len(),
    {
            let e = self.events.remove(0);
            fired.push(e.tid);
            proof {
                assert(self.events@ =~= pre.skip(fired@.len() as int));
            }
        }
        proof {
            assert forall|i: int|
                0 <= i < self.events@.len() implies #[trigger] self.events@[i].deadline
                > now by {
                if self.events@.len() > 0 {
                    assert(self.events@[0].deadline > now);
                    assert(self.events@[i] == pre[fired@.len() + i]);
                    assert(pre[fired@.len() as int] == self.events@[0]);
                }
            }
        }
        fired
    }
}

} // verus!
