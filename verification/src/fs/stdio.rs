//! Console standard input: a byte queue fed by the receive side of the
//! SBI console, with a condition variable on which readers block while the
//! queue is empty.

use vstd::prelude::*;

use crate::sync::condvar::Condvar;

verus! {

pub struct Stdin {
    pub buf: Vec<u8>,
    pub pushed: Condvar,
}

impl Stdin {
    pub fn new() -> (s: Stdin)
        ensures
            s.buf@.len() == 0,
            s.pushed.wait_queue@.len() == 0,
    {
        Stdin { buf: Vec::new(), pushed: Condvar::new() }
    }

    /// A byte arrived from the console. Returns the oldest blocked reader,
    /// if any, for the caller to wake.
    pub fn push_byte(&mut self, b: u8) -> (woken: Option<usize>)
        ensures
            final(self).buf@ == old(self).buf@.push(b),
            match woken {
                Some(tid) => {
                    &&& old(self).pushed.wait_queue@.len() > 0
                    &&& tid == old(self).pushed.wait_queue@[0]
                    &&& final(self).pushed.wait_queue@ == old(self).pushed.wait_queue@.skip(1)
                },
                None => {
                    &&& old(self).pushed.wait_queue@.len() == 0
                    &&& final(self).pushed == old(self).pushed
                },
            },
    {
        self.buf.push(b);
        self.pushed.notify()
    }

    /// Take the oldest buffered byte; `None` when a reader must block.
    pub fn try_pop(&mut self) -> (r: Option<u8>)
        ensures
            match r {
                Some(b) => {
                    &&& old(self).buf@.len() > 0
                    &&& b == old(self).buf@[0]
                    &&& final(self).buf@ == old(self).buf@.skip(1)
                },
                None => {
                    &&& old(self).buf@.len() == 0
                    &&& *final(self) == *old(self)
                },
            },
            final(self).pushed == old(self).pushed,
    {
        if self.buf.len() == 0 {
            None
        } else {
            Some(self.buf.remove(0))
        }
    }

    /// Record `tid` as blocked on input. The caller parks it.
    pub fn wait(&mut self, tid: usize)
        ensures
            final(self).buf@ == old(self).buf@,
            final(self).pushed.wait_queue@ == old(self).pushed.wait_queue@.push(tid),
    {
        self.pushed.wait(tid);
    }
}

} // verus!
