//! Physical memory owned by the frame allocator, one page of bytes per
//! frame. A frame number is an index into this table; allocation hands
//! out the next fresh, zeroed frame. Frames freed by `unmap` are recorded
//! but never reissued, so a frame number mapped anywhere stays distinct
//! from every later allocation.

use vstd::prelude::*;

use crate::consts::PAGE_SIZE;

verus! {

/// A page of zero bytes.
pub open spec fn zero_page() -> Seq<u8> {
    Seq::new(PAGE_SIZE as nat, |i: int| 0u8)
}

pub struct PhysMemory {
    pub frames: Vec<Vec<u8>>,
    /// Frames released by `unmap`; kept only as a record, never reused.
    pub freed: Vec<usize>,
}

impl PhysMemory {
    pub open spec fn wf(self) -> bool {
        forall|i: int| 0 <= i < self.frames@.len() ==> (#[trigger] self.frames@[i])@.len()
            == PAGE_SIZE
    }

    pub fn new() -> (m: PhysMemory)
        ensures
            m.wf(),
            m.frames@.len() == 0,
    {
        PhysMemory { frames: Vec::new(), freed: Vec::new() }
    }

    /// Allocate a fresh frame, zeroed; its number is the table's previous
    /// length, so it differs from every frame handed out before.
    pub fn allocate_frame(&mut self) -> (fpn: usize)
        requires
            old(self).wf(),
        ensures
            final(self).wf(),
            fpn == old(self).frames@.len(),
            final(self).frames@.len() == old(self).frames@.len() + 1,
            forall|i: int|
                0 <= i < old(self).frames@.len() ==> final(self).frames@[i] == old(self).frames@[i],
            final(self).frames@[fpn as int]@ == zero_page(),
            final(self).freed == old(self).freed,
    {
        let fpn = self.frames.len();
        let mut page: Vec<u8> = Vec::new();
        let mut i: usize = 0;
        while i < PAGE_SIZE
            invariant
                0 <= i <= PAGE_SIZE,
                page@.len() == i,
                forall|k: int| 0 <= k < i ==> page@[k] == 0u8,
            decreases PAGE_SIZE - i,
        {
            page.push(0);
            i += 1;
        }
        proof {
            assert(page@ =~= zero_page());
        }
        self.frames.push(page);
        fpn
    }

    /// Record a frame released by `unmap`. The number is not reissued.
    pub fn release_frame(&mut self, fpn: usize)
        ensures
            final(self).frames == old(self).frames,
            final(self).freed@ == old(self).freed@.push(fpn),
    {
        self.freed.push(fpn);
    }

    pub fn read_byte(&self, fpn: usize, off: usize) -> (b: u8)
        requires
            self.wf(),
            fpn < self.frames@.len(),
            off < PAGE_SIZE,
        ensures
            b == self.frames@[fpn as int]@[off as int],
    {
        self.frames[fpn][off]
    }

    pub fn write_byte(&mut self, fpn: usize, off: usize, b: u8)
        requires
            old(self).wf(),
            fpn < old(self).frames@.len(),
            off < PAGE_SIZE,
        ensures
            final(self).wf(),
            final(self).frames@.len() == old(self).frames@.len(),
            forall|i: int|
                0 <= i < old(self).frames@.len() && i != fpn ==> final(self).frames@[i] == old(self).frames@[i],
            final(self).frames@[fpn as int]@ == old(self).frames@[fpn as int]@.update(
                off as int,
                b,
            ),
            final(self).freed == old(self).freed,
    {
        let frame = &mut self.frames[fpn];
        frame[off] = b;
    }

    /// Copy one frame's bytes onto another, byte for byte.
    pub fn copy_frame(&mut self, src: usize, dst: usize)
        requires
            old(self).wf(),
            src < old(self).frames@.len(),
            dst < old(self).frames@.len(),
            src != dst,
        ensures
            final(self).wf(),
            final(self).frames@.len() == old(self).frames@.len(),
            forall|i: int|
                0 <= i < old(self).frames@.len() && i != dst ==> final(self).frames@[i] == old(self).frames@[i],
            final(self).frames@[dst as int]@ == old(self).frames@[src as int]@,
            final(self).freed == old(self).freed,
    {
        let mut off: usize = 0;
        while off < PAGE_SIZE
            invariant
                old(self).wf(),
                self.wf(),
                0 <= off <= PAGE_SIZE,
                src < self.frames@.len(),
                dst < self.frames@.len(),
                src != dst,
                self.frames@.len() == old(self).frames@.len(),
                forall|i: int|
                    0 <= i < old(self).frames@.len() && i != dst ==> self.frames@[i] == old(self).frames@[i],
                forall|k: int|
                    0 <= k < off ==> self.frames@[dst as int]@[k] == old(self).frames@[
                        src as int
                    ]@[k],
                forall|k: int|
                    off <= k < PAGE_SIZE ==> self.frames@[dst as int]@[k] == old(self).frames@[
                        dst as int
                    ]@[k],
                self.freed == old(self).freed,
            decreases PAGE_SIZE - off,
        {
            let b = self.read_byte(src, off);
            self.write_byte(dst, off, b);
            off += 1;
        }
        proof {
            assert(self.frames@[dst as int]@ =~= old(self).frames@[src as int]@);
        }
    }
}

} // verus!
