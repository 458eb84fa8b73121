//! The processor: the one running kernel-side representation of the
//! hart. It owns the thread pool, the idle thread, and the thread checked
//! out as current; every switch goes through idle, so activating the next
//! address space has a single home.

use vstd::prelude::*;

use crate::process::structs::Thread;
use crate::process::thread_pool::SchedulerKind;
use crate::process::thread_pool::Slot;
use crate::process::thread_pool::Status;
use crate::process::thread_pool::ThreadPool;

verus! {

pub struct Processor {
    pub pool: ThreadPool,
    pub idle: Option<Thread>,
    pub current: Option<(usize, Thread)>,
}

/// How many slots report a running thread.
pub open spec fn count_running(s: Seq<Slot>) -> int
    decreases s.len(),
{
    if s.len() == 0 {
        0
    } else {
        (if s[0].present && s[0].status is Running {
            1int
        } else {
            0int
        }) + count_running(s.skip(1))
    }
}

proof fn lemma_count_running_zero(s: Seq<Slot>)
    requires
        forall|i: int| 0 <= i < s.len() ==> !((#[trigger] s[i]).present && s[i].status is Running),
    ensures
        count_running(s) == 0,
    decreases s.len(),
{
    if s.len() > 0 {
        let rest = s.skip(1);
        assert(forall|i: int| 0 <= i < rest.len() ==> #[trigger] rest[i] == s[i + 1]);
        lemma_count_running_zero(rest);
    }
}

proof fn lemma_count_running_one(s: Seq<Slot>, t: int)
    requires
        0 <= t < s.len(),
        s[t].present && s[t].status is Running,
        forall|i: int|
            0 <= i < s.len() && i != t ==> !((#[trigger] s[i]).present && s[i].status
                is Running),
    ensures
        count_running(s) == 1,
    decreases s.len(),
{
    let rest = s.skip(1);
    assert(forall|i: int| 0 <= i < rest.len() ==> #[trigger] rest[i] == s[i + 1]);
    if t == 0 {
        lemma_count_running_zero(rest);
    } else {
        lemma_count_running_one(rest, t - 1);
    }
}

impl Processor {
    /// Processor invariant: the pool is sound, and exactly the checked
    /// out thread's slot — if any — reports Running.
    pub open spec fn wf(&self) -> bool {
        &&& self.pool.wf()
        &&& match self.current {
            None => forall|i: int|
                0 <= i < self.pool.slots@.len() ==> !((#[trigger] self.pool.slots@[i]).present
                    && self.pool.slots@[i].status is Running),
            Some((tid, _)) => {
                &&& tid < self.pool.slots@.len()
                &&& self.pool.slots@[tid as int].present
                &&& self.pool.slots@[tid as int].status is Running
                &&& self.pool.slots@[tid as int].thread is None
                &&& forall|i: int|
                    0 <= i < self.pool.slots@.len() && i != tid ==> !((
                    #[trigger] self.pool.slots@[i]).present && self.pool.slots@[i].status
                        is Running)
            },
        }
    }

    /// Wire the processor up at boot with its idle thread and pool.
    pub fn init(idle: Thread, pool: ThreadPool) -> (p: Processor)
        requires
            pool.wf(),
            forall|i: int|
                0 <= i < pool.slots@.len() ==> !((#[trigger] pool.slots@[i]).present
                    && pool.slots@[i].status is Running),
        ensures
            p.wf(),
            p.current is None,
            p.idle == Some(idle),
            p.pool == pool,
    {
        Processor { pool, idle: Some(idle), current: None }
    }

    /// One pass of the idle loop: acquire the next ready thread and make
    /// it current. `None` means wait for an interrupt.
    pub fn acquire_next(&mut self) -> (r: Option<usize>)
        requires
            old(self).wf(),
            old(self).current is None,
        ensures
            final(self).wf(),
            final(self).idle == old(self).idle,
            match r {
                Some(tid) => {
                    &&& final(self).current matches Some((t, _)) && t == tid
                    &&& old(self).scheduler_queued(tid)
                    &&& tid < old(self).pool.slots@.len()
                    &&& old(self).pool.slots@[tid as int].thread == Some(
                        final(self).current->Some_0.1,
                    )
                    &&& final(self).pool.slots@ == old(self).pool.slots@.update(
                        tid as int,
                        Slot { present: true, status: Status::Running, thread: None },
                    )
                },
                None => {
                    &&& final(self).current is None
                    &&& final(self).pool.slots == old(self).pool.slots
                    &&& forall|t: usize| !(#[trigger] old(self).scheduler_queued(t))
                },
            },
    {
        match self.pool.acquire() {
            Some((tid, th)) => {
                self.current = Some((tid, th));
                proof {
                    assert forall|i: int|
                        0 <= i < self.pool.slots@.len() && i != tid implies !((
                        #[trigger] self.pool.slots@[i]).present && self.pool.slots@[i].status
                            is Running) by {
                        assert(self.pool.slots@[i] == old(self).pool.slots@[i]);
                    }
                }
                Some(tid)
            },
            None => None,
        }
    }

    pub open spec fn scheduler_queued(&self, tid: usize) -> bool {
        self.pool.scheduler.queued(tid)
    }

    pub open spec fn current_tid_spec(&self) -> usize
        recommends
            self.current is Some,
    {
        self.current->Some_0.0
    }

    /// The running thread gives the hart up: back to the pool as ready,
    /// and the processor returns to idle.
    pub fn yield_now(&mut self)
        requires
            old(self).wf(),
            old(self).current is Some,
        ensures
            final(self).wf(),
            final(self).current is None,
            final(self).idle == old(self).idle,
            final(self).pool.slots@.len() == old(self).pool.slots@.len(),
            final(self).pool.slots@[old(self).current_tid_spec() as int].present,
            final(self).pool.slots@[old(self).current_tid_spec() as int].status is Ready,
            final(self).pool.slots@[old(self).current_tid_spec() as int].thread == Some(
                old(self).current->Some_0.1,
            ),
            final(self).pool.scheduler.queued(old(self).current_tid_spec()),
            forall|i: int|
                0 <= i < old(self).pool.slots@.len() && i != old(self).current_tid_spec()
                    ==> final(self).pool.slots@[i] == old(self).pool.slots@[i],
    {
        let (tid, th) = match self.current.take() {
            Some(c) => c,
            None => {
                proof {
                    assert(false);
                }
                unreached()
            },
        };
        proof {
            assert(!self.pool.scheduler.queued(tid));
        }
        self.pool.retrieve(tid, th);
    }

    /// The running thread parks: its slot turns sleeping and keeps the
    /// thread; the processor returns to idle.
    pub fn park(&mut self)
        requires
            old(self).wf(),
            old(self).current is Some,
        ensures
            final(self).wf(),
            final(self).current is None,
            final(self).idle == old(self).idle,
            final(self).pool.slots@.len() == old(self).pool.slots@.len(),
            final(self).pool.slots@[old(self).current_tid_spec() as int].present,
            final(self).pool.slots@[old(self).current_tid_spec() as int].status is Sleeping,
            final(self).pool.slots@[old(self).current_tid_spec() as int].thread == Some(
                old(self).current->Some_0.1,
            ),
            forall|i: int|
                0 <= i < old(self).pool.slots@.len() && i != old(self).current_tid_spec()
                    ==> final(self).pool.slots@[i] == old(self).pool.slots@[i],
    {
        let (tid, th) = match self.current.take() {
            Some(c) => c,
            None => {
                proof {
                    assert(false);
                }
                unreached()
            },
        };
        proof {
            assert(!self.pool.scheduler.queued(tid));
        }
        self.pool.sleep(tid);
        self.pool.retrieve(tid, th);
    }

    /// Whether slot `h` holds a stored, sleeping thread that a wakeup
    /// readies.
    pub open spec fn wakeable(&self, h: usize) -> bool {
        &&& h < self.pool.slots@.len()
        &&& self.pool.slots@[h as int].present
        &&& self.pool.slots@[h as int].status is Sleeping
        &&& self.pool.slots@[h as int].thread is Some
    }

    /// The running thread exits: free its slot, release its resources,
    /// and wake its host if `exec` parked one.
    pub fn exit_current(&mut self, _code: usize) -> (host: Option<usize>)
        requires
            old(self).wf(),
            old(self).current is Some,
        ensures
            final(self).wf(),
            final(self).current is None,
            final(self).idle == old(self).idle,
            final(self).pool.slots@.len() == old(self).pool.slots@.len(),
            !final(self).pool.slots@[old(self).current_tid_spec() as int].present,
            final(self).pool.slots@[old(self).current_tid_spec() as int].thread is None,
            host == old(self).current->Some_0.1.wait,
            match old(self).current->Some_0.1.wait {
                Some(h) => {
                    &&& (h != old(self).current_tid_spec() && old(self).wakeable(h) ==> final(self).pool.slots@[h as int] == (Slot {
                        status: Status::Ready,
                        ..old(self).pool.slots@[h as int]
                    }) && final(self).pool.scheduler.queued(h))
                    &&& forall|i: int|
                        0 <= i < old(self).pool.slots@.len() && i != old(self).current_tid_spec()
                            && i != h ==> final(self).pool.slots@[i] == old(self).pool.slots@[i]
                    &&& !(h != old(self).current_tid_spec() && old(self).wakeable(h))
                        ==> forall|i: int|
                        0 <= i < old(self).pool.slots@.len() && i != old(self).current_tid_spec()
                            ==> final(self).pool.slots@[i] == old(self).pool.slots@[i]
                },
                None => forall|i: int|
                    0 <= i < old(self).pool.slots@.len() && i != old(self).current_tid_spec()
                        ==> final(self).pool.slots@[i] == old(self).pool.slots@[i],
            },
            forall|i: int|
                0 <= i < old(self).pool.slots@.len() && i != old(self).current_tid_spec()
                    ==> final(self).pool.slots@[i].thread == old(self).pool.slots@[i].thread,
    {
        let (tid, th) = match self.current.take() {
            Some(c) => c,
            None => {
                proof {
                    assert(false);
                }
                unreached()
            },
        };
        proof {
            assert(!self.pool.scheduler.queued(tid));
        }
        let host = th.wait;
        self.pool.exit_thread(tid);
        match host {
            Some(h) => {
                if h < self.pool.slots.len() {
                    self.pool.wakeup(h);
                }
            },
            None => {},
        }
        host
    }

    pub fn wake_up(&mut self, tid: usize)
        requires
            old(self).wf(),
        ensures
            final(self).wf(),
            final(self).current == old(self).current,
            final(self).idle == old(self).idle,
            final(self).pool.slots@.len() == old(self).pool.slots@.len(),
            forall|i: int|
                0 <= i < old(self).pool.slots@.len() ==> final(self).pool.slots@[i].thread == old(self).pool.slots@[i].thread && final(self).pool.slots@[i].present == old(self).pool.slots@[i].present,
            old(self).wakeable(tid) ==> final(self).pool.slots@[tid as int] == (Slot {
                status: Status::Ready,
                ..old(self).pool.slots@[tid as int]
            }) && final(self).pool.scheduler.queued(tid),
            !old(self).wakeable(tid) ==> *final(self) == *old(self),
            forall|i: int|
                0 <= i < old(self).pool.slots@.len() && i != tid ==> final(self).pool.slots@[i]
                    == old(self).pool.slots@[i],
    {
        if tid < self.pool.slots.len() {
            self.pool.wakeup(tid);
        }
    }

    pub fn current_tid(&self) -> (tid: usize)
        requires
            self.current is Some,
        ensures
            tid == self.current_tid_spec(),
    {
        match &self.current {
            Some((tid, _)) => *tid,
            None => {
                proof {
                    assert(false);
                }
                0
            },
        }
    }

    /// Mutable access to the running thread.
    pub fn current_thread_mut(&mut self) -> (t: &mut Thread)
        requires
            old(self).wf(),
            old(self).current is Some,
        ensures
            *t == old(self).current->Some_0.1,
            final(self).current matches Some((tid, th)) && tid == old(self).current_tid_spec()
                && th == *final(t),
            final(self).pool == old(self).pool,
            final(self).idle == old(self).idle,
            final(self).wf(),
    {
        match &mut self.current {
            Some((_, th)) => th,
            None => {
                proof {
                    assert(false);
                }
                unreached()
            },
        }
    }

    /// Account a timer tick to the policy; true when the running quantum
    /// is spent and the trap return should yield.
    pub fn tick(&mut self) -> (expired: bool)
        requires
            old(self).wf(),
        ensures
            final(self).wf(),
            final(self).current == old(self).current,
            final(self).idle == old(self).idle,
            final(self).pool.slots == old(self).pool.slots,
    {
        self.pool.tick()
    }

    /// Register a thread with the pool.
    pub fn add_thread(&mut self, thread: Thread) -> (r: Option<usize>)
        requires
            old(self).wf(),
        ensures
            final(self).wf(),
            final(self).current == old(self).current,
            final(self).idle == old(self).idle,
            final(self).pool.slots@.len() == old(self).pool.slots@.len(),
            final(self).pool.scheduler is Stride <==> old(self).pool.scheduler is Stride,
            match r {
                Some(tid) => {
                    &&& tid < old(self).pool.slots@.len()
                    &&& !old(self).pool.slots@[tid as int].present
                    &&& forall|j: int| 0 <= j < tid ==> (#[trigger] old(self).pool.slots@[j]).present
                    &&& final(self).pool.slots@ == old(self).pool.slots@.update(
                        tid as int,
                        Slot { present: true, status: Status::Ready, thread: Some(thread) },
                    )
                    &&& final(self).pool.scheduler.queued(tid)
                },
                None => {
                    &&& final(self).pool.slots == old(self).pool.slots
                    &&& forall|j: int|
                        0 <= j < old(self).pool.slots@.len() ==> (#[trigger] old(self).pool.slots@[j]).present
                },
            },
    {
        self.pool.add(thread)
    }
}

/// Law: the count of slots whose status is Running is zero or one, and it
/// is one exactly when the processor reports a current thread.
pub proof fn lemma_single_running(p: &Processor)
    requires
        p.wf(),
    ensures
        count_running(p.pool.slots@) == if p.current is Some {
            1int
        } else {
            0int
        },
{
    match p.current {
        None => {
            lemma_count_running_zero(p.pool.slots@);
        },
        Some((tid, _)) => {
            lemma_count_running_one(p.pool.slots@, tid as int);
        },
    }
}

} // verus!
