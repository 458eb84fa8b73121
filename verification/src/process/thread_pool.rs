//! The thread pool: a fixed-capacity slot table and the scheduling
//! policy. A tid is its slot's index, stable for the thread's lifetime;
//! slot reuse requires the slot to be empty.

use vstd::prelude::*;

use crate::consts::MAX_THREADS;
use crate::process::scheduler::RRScheduler;
use crate::process::scheduler::Scheduler;
use crate::process::scheduler::StrideScheduler;
use crate::process::structs::Thread;

verus! {

/// The closed set of scheduling policies a pool can carry.
pub enum SchedulerKind {
    RoundRobin(RRScheduler),
    Stride(StrideScheduler),
}

impl SchedulerKind {
    pub open spec fn wf(&self) -> bool {
        match *self {
            SchedulerKind::RoundRobin(ref s) => s.wf(),
            SchedulerKind::Stride(ref s) => s.wf(),
        }
    }

    pub open spec fn queued(&self, tid: usize) -> bool {
        match *self {
            SchedulerKind::RoundRobin(ref s) => s.queued(tid),
            SchedulerKind::Stride(ref s) => s.queued(tid),
        }
    }

    pub fn push(&mut self, tid: usize)
        requires
            old(self).wf(),
            !old(self).queued(tid),
            tid < MAX_THREADS,
        ensures
            final(self).wf(),
            final(self).queued(tid),
            (*final(self) is Stride <==> *old(self) is Stride),
            forall|t: usize|
                t != tid ==> (#[trigger] final(self).queued(t) <==> old(self).queued(t)),
    {
        match self {
            SchedulerKind::RoundRobin(s) => s.push(tid),
            SchedulerKind::Stride(s) => s.push(tid),
        }
    }

    pub fn pop(&mut self) -> (r: Option<usize>)
        requires
            old(self).wf(),
        ensures
            final(self).wf(),
            match r {
                Some(tid) => {
                    &&& old(self).queued(tid)
                    &&& !final(self).queued(tid)
                    &&& forall|t: usize|
                        t != tid ==> (#[trigger] final(self).queued(t) <==> old(self).queued(t))
                },
                None => {
                    &&& forall|t: usize| !(#[trigger] old(self).queued(t))
                    &&& forall|t: usize| !(#[trigger] final(self).queued(t))
                },
            },
    {
        match self {
            SchedulerKind::RoundRobin(s) => s.pop(),
            SchedulerKind::Stride(s) => s.pop(),
        }
    }

    pub fn tick(&mut self) -> (expired: bool)
        requires
            old(self).wf(),
        ensures
            final(self).wf(),
            forall|t: usize| #[trigger] final(self).queued(t) <==> old(self).queued(t),
    {
        match self {
            SchedulerKind::RoundRobin(s) => s.tick(),
            SchedulerKind::Stride(s) => s.tick(),
        }
    }

    pub fn exit(&mut self, tid: usize)
        requires
            old(self).wf(),
        ensures
            final(self).wf(),
            forall|t: usize| #[trigger] final(self).queued(t) <==> old(self).queued(t),
    {
        match self {
            SchedulerKind::RoundRobin(s) => s.exit(tid),
            SchedulerKind::Stride(s) => s.exit(tid),
        }
    }

    /// Store a stride pass for `tid`; round-robin has no per-thread pass
    /// and ignores the call.
    pub fn set_pass(&mut self, tid: usize, pass: usize)
        requires
            old(self).wf(),
        ensures
            final(self).wf(),
            forall|t: usize| #[trigger] final(self).queued(t) <==> old(self).queued(t),
            match (*old(self), *final(self)) {
                (SchedulerKind::Stride(s0), SchedulerKind::Stride(s1)) => if tid
                    < s0.threads@.len() {
                    s1.threads@ == s0.threads@.update(
                        tid as int,
                        crate::process::scheduler::StridePassInfo {
                            pass,
                            ..s0.threads@[tid as int]
                        },
                    ) && s1.current == s0.current
                } else {
                    s1 == s0
                },
                (SchedulerKind::RoundRobin(s0), SchedulerKind::RoundRobin(s1)) => s1 == s0,
                _ => false,
            },
    {
        match self {
            SchedulerKind::RoundRobin(_) => {},
            SchedulerKind::Stride(s) => {
                if tid < s.threads.len() {
                    s.set_pass(tid, pass);
                    proof {
                        assert(s.threads@[tid as int].valid == old(self)->Stride_0.threads@[
                            tid as int
                        ].valid);
                    }
                }
            },
        }
    }
}

#[derive(Clone, Copy, Debug, PartialEq, Eq, Structural)]
pub enum Status {
    Ready,
    Running,
    Sleeping,
}

pub struct Slot {
    pub present: bool,
    pub status: Status,
    /// Absent while the processor holds the thread checked out.
    pub thread: Option<Thread>,
}

pub struct ThreadPool {
    pub slots: Vec<Slot>,
    pub scheduler: SchedulerKind,
}

impl ThreadPool {
    /// Pool invariant: every enqueued tid names a present, ready slot
    /// still holding its thread.
    pub open spec fn wf(&self) -> bool {
        &&& self.slots@.len() <= MAX_THREADS
        &&& self.scheduler.wf()
        &&& forall|tid: usize|
            #[trigger] self.scheduler.queued(tid) ==> tid < self.slots@.len()
                && self.slots@[tid as int].present && self.slots@[tid as int].status
                is Ready && self.slots@[tid as int].thread is Some
    }

    pub open spec fn capacity(&self) -> int {
        self.slots@.len() as int
    }

    pub fn new(capacity: usize, scheduler: SchedulerKind) -> (p: ThreadPool)
        requires
            capacity <= MAX_THREADS,
            scheduler.wf(),
            forall|t: usize| !(#[trigger] scheduler.queued(t)),
        ensures
            p.wf(),
            p.scheduler == scheduler,
            p.slots@.len() == capacity,
            forall|i: int|
                0 <= i < capacity ==> (#[trigger] p.slots@[i]) == (Slot {
                    present: false,
                    status: Status::Ready,
                    thread: None,
                }),
            forall|t: usize| !(#[trigger] p.scheduler.queued(t)),
    {
        let mut slots: Vec<Slot> = Vec::new();
        let mut i: usize = 0;
        while i < capacity
            invariant
                0 <= i <= capacity,
                slots@.len() == i,
                forall|j: int|
                    0 <= j < i ==> (#[trigger] slots@[j]) == (Slot {
                        present: false,
                        status: Status::Ready,
                        thread: None,
                    }),
            decreases capacity - i,
        {
            slots.push(Slot { present: false, status: Status::Ready, thread: None });
            i += 1;
        }
        ThreadPool { slots, scheduler }
    }

    /// Insert `thread` into the first empty slot, mark it ready and
    /// enqueue it; its tid is the slot index. `None` when the pool is
    /// full.
    pub fn add(&mut self, thread: Thread) -> (r: Option<usize>)
        requires
            old(self).wf(),
        ensures
            final(self).wf(),
            final(self).slots@.len() == old(self).slots@.len(),
            final(self).scheduler is Stride <==> old(self).scheduler is Stride,
            match r {
                Some(tid) => {
                    &&& tid < old(self).slots@.len()
                    &&& !old(self).slots@[tid as int].present
                    &&& forall|j: int| 0 <= j < tid ==> (#[trigger] old(self).slots@[j]).present
                    &&& final(self).slots@ == old(self).slots@.update(
                        tid as int,
                        Slot { present: true, status: Status::Ready, thread: Some(thread) },
                    )
                    &&& final(self).scheduler.queued(tid)
                    &&& forall|t: usize|
                        t != tid ==> (#[trigger] final(self).scheduler.queued(t) <==> old(
                            self,
                        ).scheduler.queued(t))
                },
                None => {
                    &&& (forall|j: int|
                        0 <= j < old(self).slots@.len() ==> (#[trigger] old(
                            self,
                        ).slots@[j]).present)
                    &&& final(self).slots == old(self).slots
                    &&& final(self).scheduler == old(self).scheduler
                },
            },
    {
        let n = self.slots.len();
        let mut tid: usize = 0;
        while tid < n
            invariant
                n == self.slots@.len(),
                0 <= tid <= n,
                forall|j: int| 0 <= j < tid ==> (#[trigger] self.slots@[j]).present,
                *self == *old(self),
                self.wf(),
            decreases n - tid,
        {
            if !self.slots[tid].present {
                proof {
                    assert(!self.scheduler.queued(tid));
                }
                self.slots[tid] = Slot {
                    present: true,
                    status: Status::Ready,
                    thread: Some(thread),
                };
                self.scheduler.push(tid);
                return Some(tid);
            }
            tid += 1;
        }
        None
    }

    /// Hand out the next thread to run: dequeue a tid, mark its slot
    /// running, and give the thread to the caller.
    pub fn acquire(&mut self) -> (r: Option<(usize, Thread)>)
        requires
            old(self).wf(),
        ensures
            final(self).wf(),
            final(self).slots@.len() == old(self).slots@.len(),
            match r {
                Some((tid, _)) => {
                    &&& tid < old(self).slots@.len()
                    &&& old(self).scheduler.queued(tid)
                    &&& old(self).slots@[tid as int].present
                    &&& final(self).slots@ == old(self).slots@.update(
                        tid as int,
                        Slot { present: true, status: Status::Running, thread: None },
                    )
                    &&& r matches Some((_, th)) && Some(th) == old(self).slots@[
                        tid as int
                    ].thread
                    &&& !final(self).scheduler.queued(tid)
                    &&& forall|t: usize|
                        t != tid ==> (#[trigger] final(self).scheduler.queued(t) <==> old(
                            self,
                        ).scheduler.queued(t))
                },
                None => {
                    &&& (forall|t: usize| !(#[trigger] old(self).scheduler.queued(t)))
                    &&& final(self).slots == old(self).slots
                },
            },
    {
        match self.scheduler.pop() {
            Some(tid) => {
                let th = match self.slots[tid].thread.take() {
                    Some(th) => th,
                    None => {
                        proof {
                            assert(false);
                        }
                        unreached()
                    },
                };
                self.slots[tid].present = true;
                self.slots[tid].status = Status::Running;
                proof {
                    assert(final(self).slots@ =~= old(self).slots@.update(
                        tid as int,
                        Slot { present: true, status: Status::Running, thread: None },
                    ));
                }
                Some((tid, th))
            },
            None => None,
        }
    }

    /// Take a thread back from the processor: store it in its slot; a
    /// running thread becomes ready and is re-enqueued, a sleeping one
    /// just parks; a freed slot swallows the thread.
    pub fn retrieve(&mut self, tid: usize, thread: Thread)
        requires
            old(self).wf(),
            tid < old(self).slots@.len(),
            !old(self).scheduler.queued(tid),
        ensures
            final(self).wf(),
            final(self).slots@.len() == old(self).slots@.len(),
            !old(self).slots@[tid as int].present ==> *final(self) == *old(self),
            old(self).slots@[tid as int].present && old(self).slots@[tid as int].status
                is Running ==> {
                &&& final(self).slots@ == old(self).slots@.update(
                    tid as int,
                    Slot { present: true, status: Status::Ready, thread: Some(thread) },
                )
                &&& final(self).scheduler.queued(tid)
                &&& forall|t: usize|
                    t != tid ==> (#[trigger] final(self).scheduler.queued(t) <==> old(
                        self,
                    ).scheduler.queued(t))
            },
            old(self).slots@[tid as int].present && !(old(self).slots@[tid as int].status
                is Running) ==> {
                &&& final(self).slots@ == old(self).slots@.update(
                    tid as int,
                    Slot {
                        present: true,
                        status: old(self).slots@[tid as int].status,
                        thread: Some(thread),
                    },
                )
                &&& final(self).scheduler == old(self).scheduler
            },
    {
        if !self.slots[tid].present {
            return ;
        }
        let was_running = matches!(self.slots[tid].status, Status::Running);
        let status = if was_running {
            Status::Ready
        } else {
            self.slots[tid].status
        };
        self.slots[tid] = Slot { present: true, status, thread: Some(thread) };
        if was_running {
            self.scheduler.push(tid);
        }
        proof {
            assert(final(self).slots@ =~= old(self).slots@.update(
                tid as int,
                final(self).slots@[tid as int],
            ));
        }
    }

    /// Free a departing thread's slot; the tid may be reissued once the
    /// slot is empty.
    pub fn exit_thread(&mut self, tid: usize)
        requires
            old(self).wf(),
            tid < old(self).slots@.len(),
            !old(self).scheduler.queued(tid),
        ensures
            final(self).wf(),
            final(self).slots@ == old(self).slots@.update(
                tid as int,
                Slot { present: false, status: Status::Ready, thread: None },
            ),
            forall|t: usize|
                #[trigger] final(self).scheduler.queued(t) <==> old(self).scheduler.queued(t),
    {
        self.slots[tid] = Slot { present: false, status: Status::Ready, thread: None };
        self.scheduler.exit(tid);
    }

    /// Transition a thread that is not enqueued — the running thread, or
    /// one already asleep — to sleeping.
    pub fn sleep(&mut self, tid: usize)
        requires
            old(self).wf(),
            tid < old(self).slots@.len(),
            old(self).slots@[tid as int].present,
            !old(self).scheduler.queued(tid),
        ensures
            final(self).wf(),
            final(self).slots@ == old(self).slots@.update(
                tid as int,
                Slot { status: Status::Sleeping, ..old(self).slots@[tid as int] },
            ),
            final(self).scheduler == old(self).scheduler,
    {
        let present = self.slots[tid].present;
        let thread = self.slots[tid].thread.take();
        self.slots[tid] = Slot { present, status: Status::Sleeping, thread };
    }

    /// Wake `tid` if it sleeps: ready it and enqueue it. Waking a thread
    /// that is not sleeping is a no-op.
    pub fn wakeup(&mut self, tid: usize)
        requires
            old(self).wf(),
            tid < old(self).slots@.len(),
        ensures
            final(self).wf(),
            final(self).slots@.len() == old(self).slots@.len(),
            if old(self).slots@[tid as int].present && old(self).slots@[tid as int].status
                is Sleeping && old(self).slots@[tid as int].thread is Some {
                &&& final(self).slots@ == old(self).slots@.update(
                    tid as int,
                    Slot { status: Status::Ready, ..old(self).slots@[tid as int] },
                )
                &&& final(self).scheduler.queued(tid)
                &&& forall|t: usize|
                    t != tid ==> (#[trigger] final(self).scheduler.queued(t) <==> old(
                        self,
                    ).scheduler.queued(t))
            } else {
                *final(self) == *old(self)
            },
    {
        let wake = self.slots[tid].present && matches!(self.slots[tid].status, Status::Sleeping)
            && self.slots[tid].thread.is_some();
        if wake {
            proof {
                assert(!old(self).scheduler.queued(tid));
            }
            let present = self.slots[tid].present;
            let thread = self.slots[tid].thread.take();
            self.slots[tid] = Slot { present, status: Status::Ready, thread };
            self.scheduler.push(tid);
        }
    }

    /// Account one timer tick to the policy.
    pub fn tick(&mut self) -> (expired: bool)
        requires
            old(self).wf(),
        ensures
            final(self).wf(),
            final(self).slots == old(self).slots,
            forall|t: usize|
                #[trigger] final(self).scheduler.queued(t) <==> old(self).scheduler.queued(t),
    {
        self.scheduler.tick()
    }
}

} // verus!
