//! Pipes: shared byte queues.
//!
//! A pipe carries, beside its buffered bytes, the ghost history of every
//! byte ever enqueued and the count of bytes dequeued, so that first-in
//! first-out delivery is stated and proved in place.

use vstd::prelude::*;

verus! {

pub struct Pipe {
    pub buf: Vec<u8>,
    /// Every byte ever written to this pipe, in write order.
    pub hist: Ghost<Seq<u8>>,
    /// How many bytes have been read from this pipe.
    pub nread: Ghost<nat>,
}

impl Pipe {
    /// The buffered bytes are exactly the written bytes not yet read.
    pub open spec fn wf(self) -> bool {
        &&& self.nread@ + self.buf@.len() == self.hist@.len()
        &&& self.buf@ == self.hist@.skip(self.nread@ as int)
    }

    /// The bytes dequeued so far, in dequeue order.
    pub open spec fn consumed(self) -> Seq<u8> {
        self.hist@.take(self.nread@ as int)
    }

    pub fn new() -> (p: Pipe)
        ensures
            p.wf(),
            p.hist@ == Seq::<u8>::empty(),
            p.nread@ == 0,
            p.buf@.len() == 0,
    {
        let p = Pipe { buf: Vec::new(), hist: Ghost(Seq::empty()), nread: Ghost(0) };
        proof {
            assert(p.buf@ =~= p.hist@.skip(p.nread@ as int));
        }
        p
    }

    /// Writers append unconditionally: there is no bounded-capacity
    /// backpressure.
    pub fn push_byte(&mut self, b: u8)
        requires
            old(self).wf(),
        ensures
            final(self).wf(),
            final(self).hist@ == old(self).hist@.push(b),
            final(self).nread@ == old(self).nread@,
            final(self).buf@ == old(self).buf@.push(b),
    {
        self.buf.push(b);
        proof {
            self.hist@ = self.hist@.push(b);
            assert(self.buf@ =~= self.hist@.skip(self.nread@ as int));
        }
    }

    /// Dequeue the oldest buffered byte, if any. The byte returned is
    /// exactly the `nread`-th byte ever written.
    pub fn pop_byte(&mut self) -> (r: Option<u8>)
        requires
            old(self).wf(),
        ensures
            final(self).wf(),
            final(self).hist@ == old(self).hist@,
            r is None <==> old(self).buf@.len() == 0,
            r is None ==> *final(self) == *old(self),
            r is Some ==> {
                &&& r == Some(old(self).hist@[old(self).nread@ as int])
                &&& final(self).nread@ == old(self).nread@ + 1
                &&& final(self).buf@ == old(self).buf@.skip(1)
            },
    {
        if self.buf.len() == 0 {
            None
        } else {
            let b = self.buf.remove(0);
            proof {
                self.nread@ = self.nread@ + 1;
                assert(self.buf@ =~= self.hist@.skip(self.nread@ as int));
            }
            Some(b)
        }
    }
}

/// Law: a pipe delivers bytes in enqueue order, and never delivers more
/// than was enqueued. The bytes dequeued so far are exactly the first
/// `nread` bytes ever written, so a single reader facing a single writer
/// sees the written prefix, byte for byte, and
/// `consumed().len() <= hist.len()`.
pub proof fn lemma_pipe_fifo(p: Pipe)
    requires
        p.wf(),
    ensures
        p.consumed().len() <= p.hist@.len(),
        p.consumed() == p.hist@.take(p.nread@ as int),
        p.hist@ == p.consumed() + p.buf@,
{
    assert(p.hist@ =~= p.consumed() + p.buf@);
}

/// The kernel's table of live pipes. A descriptor names a pipe by index,
/// so two descriptors wired to one queue simply hold the same index.
pub struct Pipes {
    pub pipes: Vec<Pipe>,
}

impl Pipes {
    pub open spec fn wf(self) -> bool {
        forall|i: int| 0 <= i < self.pipes@.len() ==> #[trigger] self.pipes@[i].wf()
    }

    pub fn new() -> (ps: Pipes)
        ensures
            ps.wf(),
            ps.pipes@.len() == 0,
    {
        Pipes { pipes: Vec::new() }
    }

    /// Create one shared byte queue; its index is the new pipe's name.
    pub fn create(&mut self) -> (id: usize)
        requires
            old(self).wf(),
        ensures
            final(self).wf(),
            id == old(self).pipes@.len(),
            final(self).pipes@.len() == old(self).pipes@.len() + 1,
            forall|i: int|
                0 <= i < old(self).pipes@.len() ==> final(self).pipes@[i] == old(self).pipes@[i],
            final(self).pipes@[id as int].hist@ == Seq::<u8>::empty(),
            final(self).pipes@[id as int].nread@ == 0,
    {
        let id = self.pipes.len();
        self.pipes.push(Pipe::new());
        id
    }

    pub fn push_byte(&mut self, id: usize, b: u8)
        requires
            old(self).wf(),
            id < old(self).pipes@.len(),
        ensures
            final(self).wf(),
            final(self).pipes@.len() == old(self).pipes@.len(),
            forall|i: int|
                0 <= i < old(self).pipes@.len() && i != id ==> final(self).pipes@[i] == old(self).pipes@[i],
            final(self).pipes@[id as int].hist@ == old(self).pipes@[id as int].hist@.push(b),
            final(self).pipes@[id as int].nread@ == old(self).pipes@[id as int].nread@,
            final(self).pipes@[id as int].buf@ == old(self).pipes@[id as int].buf@.push(b),
    {
        let p = &mut self.pipes[id];
        p.push_byte(b);
    }

    pub fn pop_byte(&mut self, id: usize) -> (r: Option<u8>)
        requires
            old(self).wf(),
            id < old(self).pipes@.len(),
        ensures
            final(self).wf(),
            final(self).pipes@.len() == old(self).pipes@.len(),
            forall|i: int|
                0 <= i < old(self).pipes@.len() && i != id ==> final(self).pipes@[i] == old(self).pipes@[i],
            final(self).pipes@[id as int].hist@ == old(self).pipes@[id as int].hist@,
            r is None <==> old(self).pipes@[id as int].buf@.len() == 0,
            r is None ==> final(self).pipes@[id as int] == old(self).pipes@[id as int],
            r is Some ==> {
                &&& r == Some(
                    old(self).pipes@[id as int].hist@[old(self).pipes@[id as int].nread@ as int],
                )
                &&& final(self).pipes@[id as int].nread@ == old(self).pipes@[id as int].nread@ + 1
                &&& final(self).pipes@[id as int].buf@ == old(self).pipes@[id as int].buf@.skip(1)
            },
    {
        let p = &mut self.pipes[id];
        p.pop_byte()
    }
}

} // verus!
