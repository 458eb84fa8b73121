//! Scheduling policies: round-robin over a ready queue with per-thread
//! time slices, and stride scheduling with per-thread `(stride, pass)`.
//!
//! Both policies answer to one capability set: `push` a ready thread,
//! `pop` the next thread to run, `tick` the running thread's accounting,
//! `exit` a departing thread.

use vstd::prelude::*;

use crate::consts::BIG_STRIDE;
use crate::consts::MAX_THREADS;

verus! {

/// The capability set a thread pool asks of a scheduling policy.
pub trait Scheduler: Sized {
    /// The policy's internal invariant.
    spec fn wf(&self) -> bool;

    /// Whether `tid` is enqueued and would eventually be popped.
    spec fn queued(&self, tid: usize) -> bool;

    /// Enqueue a ready thread that is not already enqueued.
    fn push(&mut self, tid: usize)
        requires
            old(self).wf(),
            !old(self).queued(tid),
            tid < MAX_THREADS,
        ensures
            final(self).wf(),
            final(self).queued(tid),
            forall|t: usize|
                t != tid ==> (#[trigger] final(self).queued(t) <==> old(self).queued(t)),
    ;

    /// Dequeue the thread that should run next, if any is enqueued.
    fn pop(&mut self) -> (r: Option<usize>)
        requires
            old(self).wf(),
        ensures
            final(self).wf(),
            match r {
                Some(tid) => {
                    &&& old(self).queued(tid)
                    &&& !final(self).queued(tid)
                    &&& forall|t: usize|
                        t != tid ==> (#[trigger] final(self).queued(t) <==> old(self).queued(t))
                },
                None => {
                    &&& forall|t: usize| !(#[trigger] old(self).queued(t))
                    &&& forall|t: usize| !(#[trigger] final(self).queued(t))
                },
            },
    ;

    /// Account one timer tick to the running thread; true when its
    /// quantum is spent and it should yield.
    fn tick(&mut self) -> (expired: bool)
        requires
            old(self).wf(),
        ensures
            final(self).wf(),
            forall|t: usize| #[trigger] final(self).queued(t) <==> old(self).queued(t),
    ;

    /// The thread left the pool for good.
    fn exit(&mut self, tid: usize)
        requires
            old(self).wf(),
        ensures
            final(self).wf(),
            forall|t: usize| #[trigger] final(self).queued(t) <==> old(self).queued(t),
    ;
}

/// Round-robin: ready threads wait in a queue; each carries a remaining
/// time slice, refilled to `max_time` when it was spent at enqueue time.
/// A thread that left mid-quantum resumes with its partial remainder.
pub struct RRScheduler {
    pub queue: Vec<usize>,
    pub times: Vec<usize>,
    pub max_time: usize,
    pub current: Option<usize>,
}

/// The sum of the remaining time slices of the queued threads.
pub open spec fn ready_time_sum(q: Seq<usize>, times: Seq<usize>) -> int
    decreases q.len(),
{
    if q.len() == 0 {
        0
    } else {
        times[q[0] as int] + ready_time_sum(q.skip(1), times)
    }
}

proof fn lemma_ready_time_sum_bound(q: Seq<usize>, times: Seq<usize>, max: int)
    requires
        forall|k: int|
            0 <= k < q.len() ==> #[trigger] q[k] < times.len() && times[q[k] as int] <= max,
    ensures
        ready_time_sum(q, times) <= max * q.len(),
    decreases q.len(),
{
    if q.len() == 0 {
    } else {
        let rest = q.skip(1);
        assert(forall|k: int| 0 <= k < rest.len() ==> #[trigger] rest[k] == q[k + 1]);
        lemma_ready_time_sum_bound(rest, times, max);
        assert(max * q.len() == max + max * rest.len()) by (nonlinear_arith)
            requires rest.len() == q.len() - 1 && q.len() >= 1;
    }
}

impl RRScheduler {
    pub open spec fn inv(&self) -> bool {
        &&& self.max_time >= 1
        &&& forall|k: int| 0 <= k < self.queue@.len() ==> #[trigger] self.queue@[k] < self.times@.len()
        &&& forall|k: int| 0 <= k < self.times@.len() ==> #[trigger] self.times@[k] <= self.max_time
        &&& forall|i: int, j: int|
            #![trigger self.queue@[i], self.queue@[j]]
            0 <= i < j < self.queue@.len() ==> self.queue@[i] != self.queue@[j]
        &&& match self.current {
            Some(t) => t < self.times@.len(),
            None => true,
        }
    }

    pub fn new(max_time_slice: usize) -> (s: RRScheduler)
        requires
            max_time_slice >= 1,
        ensures
            s.wf(),
            s.max_time == max_time_slice,
            s.queue@.len() == 0,
            s.current is None,
            forall|t: usize| !(#[trigger] s.queued(t)),
    {
        RRScheduler { queue: Vec::new(), times: Vec::new(), max_time: max_time_slice, current: None }
    }
}

impl Scheduler for RRScheduler {
    open spec fn wf(&self) -> bool {
        self.inv()
    }

    open spec fn queued(&self, tid: usize) -> bool {
        self.queue@.contains(tid)
    }

    fn push(&mut self, tid: usize)
        ensures
            final(self).queue@ == old(self).queue@.push(tid),
            final(self).max_time == old(self).max_time,
            final(self).current == old(self).current,
            final(self).times@.len() == if tid < old(self).times@.len() {
                old(self).times@.len() as int
            } else {
                tid + 1
            },
            forall|k: int|
                0 <= k < old(self).times@.len() && k != tid ==> final(self).times@[k] == old(self).times@[k],
            forall|k: int|
                old(self).times@.len() <= k < final(self).times@.len() && k != tid ==> final(self).times@[k] == 0,
            final(self).times@[tid as int] == if tid < old(self).times@.len() && old(self).times@[tid as int] != 0 {
                old(self).times@[tid as int] as int
            } else {
                old(self).max_time as int
            },
    {
        while self.times.len() <= tid
            invariant
                self.queue == old(self).queue,
                self.max_time == old(self).max_time,
                self.current == old(self).current,
                self.times@.len() >= old(self).times@.len(),
                self.times@.len() == old(self).times@.len() || self.times@.len() <= tid + 1,
                forall|k: int| 0 <= k < old(self).times@.len() ==> self.times@[k] == old(self).times@[k],
                forall|k: int|
                    old(self).times@.len() <= k < self.times@.len() ==> self.times@[k] == 0,
            decreases tid + 1 - self.times@.len(),
        {
            self.times.push(0);
        }
        if self.times[tid] == 0 {
            self.times[tid] = self.max_time;
        }
        self.queue.push(tid);
        proof {
            assert(self.queue@[self.queue@.len() - 1] == tid);
            assert forall|t: usize|
                t != tid implies (#[trigger] self.queued(t) <==> old(self).queued(t)) by {
                if old(self).queued(t) {
                    let j = choose|j: int| 0 <= j < old(self).queue@.len() && old(self).queue@[j] == t;
                    assert(self.queue@[j] == t);
                }
                if self.queued(t) {
                    let j = choose|j: int| 0 <= j < self.queue@.len() && self.queue@[j] == t;
                    assert(old(self).queue@[j] == t);
                }
            }
        }
    }

    fn pop(&mut self) -> (r: Option<usize>)
        ensures
            match r {
                None => old(self).queue@.len() == 0 && *final(self) == *old(self),
                Some(t) => {
                    &&& old(self).queue@.len() > 0
                    &&& t == old(self).queue@[0]
                    &&& final(self).queue@ == old(self).queue@.skip(1)
                    &&& final(self).times == old(self).times
                    &&& final(self).max_time == old(self).max_time
                    &&& final(self).current == Some(t)
                },
            },
    {
        if self.queue.len() == 0 {
            proof {
                assert forall|t: usize| !(#[trigger] self.queued(t)) by {
                    if self.queue@.contains(t) {
                        let j = choose|j: int| 0 <= j < self.queue@.len() && self.queue@[j] == t;
                    }
                }
            }
            None
        } else {
            let tid = self.queue.remove(0);
            self.current = Some(tid);
            proof {
                let oldq = old(self).queue@;
                assert(oldq[0] == tid);
                assert forall|t: usize|
                    t != tid implies (#[trigger] self.queued(t) <==> old(self).queued(t)) by {
                    if old(self).queued(t) {
                        let j = choose|j: int| 0 <= j < oldq.len() && oldq[j] == t;
                        assert(j != 0);
                        assert(self.queue@[j - 1] == t);
                    }
                    if self.queued(t) {
                        let j = choose|j: int| 0 <= j < self.queue@.len() && self.queue@[j] == t;
                        assert(oldq[j + 1] == t);
                    }
                }
                assert(!self.queued(tid)) by {
                    if self.queue@.contains(tid) {
                        let j = choose|j: int| 0 <= j < self.queue@.len() && self.queue@[j] == tid;
                        assert(oldq[j + 1] == tid);
                        assert(oldq[0] == oldq[j + 1]);
                    }
                }
            }
            Some(tid)
        }
    }

    /// One tick against the current thread's remaining slice; with no
    /// current thread the quantum is vacuously spent.
    fn tick(&mut self) -> (expired: bool)
        ensures
            match old(self).current {
                None => expired && *final(self) == *old(self),
                Some(t) => {
                    &&& final(self).times@ == old(self).times@.update(
                        t as int,
                        (if old(self).times@[t as int] > 0 {
                            old(self).times@[t as int] - 1
                        } else {
                            0
                        }) as usize,
                    )
                    &&& expired == (final(self).times@[t as int] == 0)
                    &&& final(self).queue == old(self).queue
                    &&& final(self).max_time == old(self).max_time
                    &&& final(self).current == old(self).current
                },
            },
    {
        match self.current {
            Some(tid) => {
                if self.times[tid] > 0 {
                    self.times[tid] = self.times[tid] - 1;
                }
                let expired = self.times[tid] == 0;
                proof {
                    assert forall|t: usize|
                        #[trigger] self.queued(t) <==> old(self).queued(t) by {
                        if old(self).queued(t) {
                            let j = choose|j: int|
                                0 <= j < old(self).queue@.len() && old(self).queue@[j] == t;
                            assert(self.queue@[j] == t);
                        }
                        if self.queued(t) {
                            let j = choose|j: int|
                                0 <= j < self.queue@.len() && self.queue@[j] == t;
                            assert(old(self).queue@[j] == t);
                        }
                    }
                }
                expired
            },
            None => true,
        }
    }

    fn exit(&mut self, tid: usize)
        ensures
            final(self).queue == old(self).queue,
            final(self).times == old(self).times,
            final(self).max_time == old(self).max_time,
            final(self).current == if old(self).current == Some(tid) {
                None
            } else {
                old(self).current
            },
    {
        if let Some(c) = self.current {
            if c == tid {
                self.current = None;
            }
        }
    }
}

/// Law: under round-robin every queued thread holds at most `max_time`
/// remaining, so the remaining time summed across all ready threads is at
/// most `max_time` times the number of ready threads.
pub proof fn lemma_rr_ready_time_bound(s: &RRScheduler)
    requires
        s.wf(),
    ensures
        ready_time_sum(s.queue@, s.times@) <= s.max_time * s.queue@.len(),
{
    lemma_ready_time_sum_bound(s.queue@, s.times@, s.max_time as int);
}

/// Per-thread stride state: `stride` accumulates `pass` on every tick the
/// thread runs; the lowest stride runs next.
pub struct StridePassInfo {
    pub valid: bool,
    pub stride: usize,
    pub pass: usize,
}

/// `a + b` wrapped around the machine word.
pub open spec fn wrap_add(a: usize, b: usize) -> usize {
    if a + b <= usize::MAX {
        (a + b) as usize
    } else {
        (a + b - usize::MAX - 1) as usize
    }
}

/// Stride scheduling: `pop` selects the valid thread with the least
/// stride, ties broken by the lowest tid.
pub struct StrideScheduler {
    pub threads: Vec<StridePassInfo>,
    pub current: Option<usize>,
}

impl StrideScheduler {
    pub fn new() -> (s: StrideScheduler)
        ensures
            s.wf(),
            s.threads@.len() == 0,
            s.current is None,
            forall|t: usize| !(#[trigger] s.queued(t)),
    {
        StrideScheduler { threads: Vec::new(), current: None }
    }

    /// Set the pass accumulated per tick by `tid`: the seat of
    /// `setpriority`, which stores `BIG_STRIDE / priority`.
    pub fn set_pass(&mut self, tid: usize, pass: usize)
        requires
            old(self).wf(),
            tid < old(self).threads@.len(),
        ensures
            final(self).wf(),
            final(self).threads@ == old(self).threads@.update(
                tid as int,
                StridePassInfo {
                    pass,
                    ..old(self).threads@[tid as int]
                },
            ),
            final(self).current == old(self).current,
    {
        let valid = self.threads[tid].valid;
        let stride = self.threads[tid].stride;
        self.threads[tid] = StridePassInfo { valid, stride, pass };
    }
}

/// Exactly what `StrideScheduler::pop` does: `None` leaves the state
/// alone and means no thread is valid; otherwise the returned tid is a
/// valid thread of minimal stride — ties to the lowest tid — whose slot
/// is invalidated and recorded as current.
pub open spec fn stride_pop_post(
    pre: StrideScheduler,
    post: StrideScheduler,
    r: Option<usize>,
) -> bool {
    match r {
        None => post == pre && (forall|j: int|
            0 <= j < pre.threads@.len() ==> !(#[trigger] pre.threads@[j]).valid),
        Some(t) => {
            &&& t < pre.threads@.len()
            &&& pre.threads@[t as int].valid
            &&& forall|j: int|
                0 <= j < pre.threads@.len() && (#[trigger] pre.threads@[j]).valid
                    ==> pre.threads@[t as int].stride <= pre.threads@[j].stride && (
                pre.threads@[j].stride == pre.threads@[t as int].stride ==> t <= j)
            &&& post.threads@ == pre.threads@.update(
                t as int,
                StridePassInfo { valid: false, ..pre.threads@[t as int] },
            )
            &&& post.current == Some(t)
        },
    }
}

impl Scheduler for StrideScheduler {
    open spec fn wf(&self) -> bool {
        match self.current {
            Some(t) => t < self.threads@.len(),
            None => true,
        }
    }

    open spec fn queued(&self, tid: usize) -> bool {
        tid < self.threads@.len() && self.threads@[tid as int].valid
    }

    fn push(&mut self, tid: usize)
        ensures
            final(self).current == old(self).current,
            final(self).threads@.len() == if tid < old(self).threads@.len() {
                old(self).threads@.len() as int
            } else {
                tid + 1
            },
            forall|k: int|
                0 <= k < old(self).threads@.len() && k != tid ==> final(self).threads@[k] == old(
                    self,
                ).threads@[k],
            forall|k: int|
                old(self).threads@.len() <= k < final(self).threads@.len() && k != tid
                    ==> #[trigger] final(self).threads@[k] == (StridePassInfo {
                    valid: false,
                    stride: 0,
                    pass: BIG_STRIDE,
                }),
            final(self).threads@[tid as int] == if tid < old(self).threads@.len() {
                (StridePassInfo { valid: true, ..old(self).threads@[tid as int] })
            } else {
                (StridePassInfo { valid: true, stride: 0, pass: BIG_STRIDE })
            },
    {
        while self.threads.len() <= tid
            invariant
                self.current == old(self).current,
                self.threads@.len() >= old(self).threads@.len(),
                self.threads@.len() == old(self).threads@.len() || self.threads@.len() <= tid
                    + 1,
                forall|k: int|
                    0 <= k < old(self).threads@.len() ==> self.threads@[k] == old(self).threads@[k],
                forall|k: int|
                    old(self).threads@.len() <= k < self.threads@.len()
                        ==> #[trigger] self.threads@[k] == (StridePassInfo {
                        valid: false,
                        stride: 0,
                        pass: BIG_STRIDE,
                    }),
            decreases tid + 1 - self.threads@.len(),
        {
            self.threads.push(StridePassInfo { valid: false, stride: 0, pass: BIG_STRIDE });
        }
        let stride = self.threads[tid].stride;
        let pass = self.threads[tid].pass;
        self.threads[tid] = StridePassInfo { valid: true, stride, pass };
    }

    fn pop(&mut self) -> (r: Option<usize>)
        ensures
            stride_pop_post(*old(self), *final(self), r),
    {
        let n = self.threads.len();
        let mut idx: Option<usize> = None;
        let mut i: usize = 0;
        while i < n
            invariant
                n == self.threads@.len(),
                0 <= i <= n,
                match idx {
                    Some(b) => {
                        &&& b < i
                        &&& self.threads@[b as int].valid
                        &&& forall|j: int|
                            0 <= j < i && #[trigger] self.threads@[j].valid ==> self.threads@[
                                b as int
                            ].stride <= self.threads@[j].stride && (self.threads@[j].stride
                                == self.threads@[b as int].stride ==> b <= j)
                    },
                    None => forall|j: int| 0 <= j < i ==> !(#[trigger] self.threads@[j].valid),
                },
            decreases n - i,
        {
            if self.threads[i].valid {
                match idx {
                    Some(b) => {
                        if self.threads[i].stride < self.threads[b].stride {
                            idx = Some(i);
                        }
                    },
                    None => {
                        idx = Some(i);
                    },
                }
            }
            i += 1;
        }
        match idx {
            Some(b) => {
                let stride = self.threads[b].stride;
                let pass = self.threads[b].pass;
                self.threads[b] = StridePassInfo { valid: false, stride, pass };
                self.current = Some(b);
                Some(b)
            },
            None => None,
        }
    }

    /// Each tick the running thread's stride grows by its pass, wrapping
    /// around the machine word; a tick always ends the quantum.
    fn tick(&mut self) -> (expired: bool)
        ensures
            expired,
            final(self).current == old(self).current,
            match old(self).current {
                None => final(self).threads == old(self).threads,
                Some(t) => final(self).threads@ == old(self).threads@.update(
                    t as int,
                    (StridePassInfo {
                        stride: wrap_add(
                            old(self).threads@[t as int].stride,
                            old(self).threads@[t as int].pass,
                        ),
                        ..old(self).threads@[t as int]
                    }),
                ),
            },
    {
        if let Some(tid) = self.current {
            let s = self.threads[tid].stride;
            let p = self.threads[tid].pass;
            let valid = self.threads[tid].valid;
            let ns = if s <= usize::MAX - p {
                s + p
            } else {
                s - (usize::MAX - p) - 1
            };
            self.threads[tid] = StridePassInfo { valid, stride: ns, pass: p };
        }
        true
    }

    fn exit(&mut self, tid: usize)
        ensures
            final(self).threads == old(self).threads,
            final(self).current == if old(self).current == Some(tid) {
                None
            } else {
                old(self).current
            },
    {
        if let Some(c) = self.current {
            if c == tid {
                self.current = None;
            }
        }
    }
}

/// With exactly two valid threads, `pop`'s contract leaves no choice:
/// the first thread is returned exactly when its stride is not larger.
pub proof fn lemma_stride_pop_two_threads(
    pre: StrideScheduler,
    post: StrideScheduler,
    r: Option<usize>,
)
    requires
        pre.threads@.len() == 2,
        pre.threads@[0].valid,
        pre.threads@[1].valid,
        stride_pop_post(pre, post, r),
    ensures
        r == Some(
            if pre.threads@[0].stride <= pre.threads@[1].stride {
                0usize
            } else {
                1usize
            },
        ),
{
    match r {
        None => {
            assert(!pre.threads@[0].valid);
        },
        Some(t) => {
            assert(pre.threads@[t as int].valid);
            if pre.threads@[0].stride <= pre.threads@[1].stride {
                if t != 0 {
                    assert(t == 1);
                    assert(pre.threads@[1].stride <= pre.threads@[0].stride);
                    assert(pre.threads@[0].stride == pre.threads@[1].stride ==> t <= 0);
                }
            } else {
                if t != 1 {
                    assert(t == 0);
                    assert(pre.threads@[0].stride <= pre.threads@[1].stride);
                }
            }
        },
    }
}

} // verus!

use vstd::prelude::*;

verus! {

/// The two-thread stride decision sequence: with both threads runnable,
/// the one with the smaller stride runs — ties to the first — and one
/// tick grows the runner's stride by its pass. That this is the choice
/// `StrideScheduler::pop`'s contract forces on two valid threads is
/// `lemma_stride_pop_two_threads`; that one tick adds the pass is
/// `tick`'s contract. Counts how often the first thread runs over a
/// window of `n` decisions from strides `(s1, s2)`.
pub open spec fn stride_count_first(p1: int, p2: int, s1: int, s2: int, n: nat) -> int
    decreases n,
{
    if n == 0 {
        0
    } else {
        if s1 <= s2 {
            1 + stride_count_first(p1, p2, s1 + p1, s2, (n - 1) as nat)
        } else {
            stride_count_first(p1, p2, s1, s2 + p2, (n - 1) as nat)
        }
    }
}

proof fn lemma_stride_window(p1: int, p2: int, s1: int, s2: int, n: nat)
    requires
        1 <= p1 <= p2,
        -p2 <= s1 - s2 <= p1,
    ensures
        stride_count_first(p1, p2, s1, s2, n) * (p1 + p2) >= n * p2 - p2 - (s1 - s2),
    decreases n,
{
    if n == 0 {
    } else {
        if s1 <= s2 {
            lemma_stride_window(p1, p2, s1 + p1, s2, (n - 1) as nat);
            let c = stride_count_first(p1, p2, s1 + p1, s2, (n - 1) as nat);
            assert((1 + c) * (p1 + p2) == (p1 + p2) + c * (p1 + p2)) by (nonlinear_arith);
            assert((n - 1) * p2 == n * p2 - p2) by (nonlinear_arith);
        } else {
            lemma_stride_window(p1, p2, s1, s2 + p2, (n - 1) as nat);
            assert((n - 1) * p2 == n * p2 - p2) by (nonlinear_arith);
        }
    }
}

/// Law: under stride scheduling, two always-runnable threads with passes
/// `p1 <= p2` that start level share the hart in inverse proportion to
/// their passes: over any window of `n` decisions the thread with pass
/// `p1` runs at least `n * p2 / (p1 + p2) - 1` times — stated
/// multiplicatively, so no division rounds the bound, and over
/// mathematical strides, so it speaks of windows short of the wrap-around
/// point of the machine word.
pub proof fn lemma_stride_fairness(p1: int, p2: int, n: nat)
    requires
        1 <= p1 <= p2,
    ensures
        stride_count_first(p1, p2, 0, 0, n) * (p1 + p2) >= n * p2 - p2 - p1,
{
    lemma_stride_window(p1, p2, 0, 0, n);
}

} // verus!
