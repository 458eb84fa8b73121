//! Condition variables: a first-in first-out queue of waiting thread ids.
//!
//! `wait` records the caller before it parks; `notify` hands back the
//! oldest waiter, whom the caller then wakes through the thread pool.

use vstd::prelude::*;

verus! {

pub struct Condvar {
    pub wait_queue: Vec<usize>,
}

impl Condvar {
    pub fn new() -> (c: Condvar)
        ensures
            c.wait_queue@.len() == 0,
    {
        Condvar { wait_queue: Vec::new() }
    }

    /// Enqueue `tid` as the newest waiter. The caller parks the thread
    /// afterwards.
    pub fn wait(&mut self, tid: usize)
        ensures
            final(self).wait_queue@ == old(self).wait_queue@.push(tid),
    {
        self.wait_queue.push(tid);
    }

    /// Dequeue the oldest waiter, if any. The caller wakes it.
    pub fn notify(&mut self) -> (r: Option<usize>)
        ensures
            match r {
                Some(tid) => {
                    &&& old(self).wait_queue@.len() > 0
                    &&& tid == old(self).wait_queue@[0]
                    &&& final(self).wait_queue@ == old(self).wait_queue@.skip(1)
                },
                None => {
                    &&& old(self).wait_queue@.len() == 0
                    &&& *final(self) == *old(self)
                },
            },
    {
        if self.wait_queue.len() == 0 {
            None
        } else {
            let tid = self.wait_queue.remove(0);
            Some(tid)
        }
    }
}

} // verus!
