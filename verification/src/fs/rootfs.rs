//! The read-only in-memory root filesystem, modeled as what the kernel
//! reads of it: a table of `(path, bytes)` entries. Lookup finds the first
//! entry with the given path; reads and writes act on the entry's bytes at
//! a caller-held offset. An inode is named by its index in the table.

use vstd::prelude::*;

verus! {

pub struct FsNode {
    pub path: Vec<u8>,
    pub data: Vec<u8>,
}

pub struct Filesystem {
    pub nodes: Vec<FsNode>,
}

/// Byte-for-byte comparison of two byte vectors.
pub fn bytes_eq(a: &Vec<u8>, b: &Vec<u8>) -> (r: bool)
    ensures
        r <==> a@ == b@,
{
    if a.len() != b.len() {
        proof {
            assert(a@.len() != b@.len());
        }
        return false;
    }
    let n = a.len();
    let mut i: usize = 0;
    while i < n
        invariant
            n == a@.len() == b@.len(),
            0 <= i <= n,
            forall|k: int| 0 <= k < i ==> a@[k] == b@[k],
        decreases n - i,
    {
        if a[i] != b[i] {
            return false;
        }
        i += 1;
    }
    proof {
        assert(a@ =~= b@);
    }
    true
}

/// The bytes of `data` after writing `src` at `offset <= data.len()`:
/// bytes under the write are replaced, and the file grows where the write
/// runs past its old end.
pub open spec fn write_bytes_at(data: Seq<u8>, offset: int, src: Seq<u8>) -> Seq<u8> {
    if data.len() >= offset + src.len() {
        data.take(offset) + src + data.skip(offset + src.len())
    } else {
        data.take(offset) + src
    }
}

impl Filesystem {
    pub fn new() -> (fs: Filesystem)
        ensures
            fs.nodes@.len() == 0,
    {
        Filesystem { nodes: Vec::new() }
    }

    pub fn add_node(&mut self, path: Vec<u8>, data: Vec<u8>) -> (ino: usize)
        ensures
            ino == old(self).nodes@.len(),
            final(self).nodes@.len() == old(self).nodes@.len() + 1,
            forall|i: int|
                0 <= i < old(self).nodes@.len() ==> final(self).nodes@[i] == old(self).nodes@[i],
            final(self).nodes@[ino as int].path@ == path@,
            final(self).nodes@[ino as int].data@ == data@,
    {
        let ino = self.nodes.len();
        self.nodes.push(FsNode { path, data });
        ino
    }

    /// Look `path` up: the index of the first entry with that path, or
    /// `None` when no entry has it.
    pub fn lookup(&self, path: &Vec<u8>) -> (r: Option<usize>)
        ensures
            match r {
                Some(ino) => {
                    &&& ino < self.nodes@.len()
                    &&& self.nodes@[ino as int].path@ == path@
                    &&& forall|j: int| 0 <= j < ino ==> self.nodes@[j].path@ != path@
                },
                None => forall|j: int|
                    0 <= j < self.nodes@.len() ==> #[trigger] self.nodes@[j].path@ != path@,
            },
    {
        let n = self.nodes.len();
        let mut i: usize = 0;
        while i < n
            invariant
                n == self.nodes@.len(),
                0 <= i <= n,
                forall|j: int| 0 <= j < i ==> #[trigger] self.nodes@[j].path@ != path@,
            decreases n - i,
        {
            if bytes_eq(&self.nodes[i].path, path) {
                return Some(i);
            }
            i += 1;
        }
        None
    }

    /// Read up to `len` bytes of inode `ino` starting at `offset`; returns
    /// the bytes read, which end at `offset + len` or at the file's end,
    /// whichever comes first.
    pub fn read_at(&self, ino: usize, offset: usize, len: usize) -> (v: Vec<u8>)
        requires
            ino < self.nodes@.len(),
        ensures
            v@.len() == if offset >= self.nodes@[ino as int].data@.len() {
                0int
            } else if offset + len <= self.nodes@[ino as int].data@.len() {
                len as int
            } else {
                self.nodes@[ino as int].data@.len() - offset
            },
            offset <= self.nodes@[ino as int].data@.len() ==> v@ == self.nodes@[
                ino as int
            ].data@.subrange(offset as int, offset + v@.len() as int),
    {
        let data = &self.nodes[ino].data;
        let mut v: Vec<u8> = Vec::new();
        if offset >= data.len() {
            proof {
                if offset <= data@.len() {
                    assert(v@ =~= data@.subrange(offset as int, offset as int));
                }
            }
            return v;
        }
        let end = if len <= data.len() - offset {
            offset + len
        } else {
            data.len()
        };
        let mut i: usize = offset;
        while i < end
            invariant
                offset <= i <= end <= data@.len(),
                v@ == data@.subrange(offset as int, i as int),
            decreases end - i,
        {
            v.push(data[i]);
            proof {
                assert(v@ =~= data@.subrange(offset as int, i + 1 as int));
            }
            i += 1;
        }
        v
    }

    /// Write `src` into inode `ino` at `offset`, growing the file where
    /// the write runs past its end; returns the number of bytes written.
    /// An offset never points past the end: it only ever advances over
    /// bytes already read or written.
    pub fn write_at(&mut self, ino: usize, offset: usize, src: &Vec<u8>) -> (n: usize)
        requires
            ino < old(self).nodes@.len(),
            offset <= old(self).nodes@[ino as int].data@.len(),
            offset + src@.len() <= usize::MAX,
        ensures
            n == src@.len(),
            final(self).nodes@.len() == old(self).nodes@.len(),
            forall|i: int|
                0 <= i < old(self).nodes@.len() && i != ino ==> final(self).nodes@[i] == old(self).nodes@[i],
            final(self).nodes@[ino as int].path@ == old(self).nodes@[ino as int].path@,
            final(self).nodes@[ino as int].data@ == write_bytes_at(
                old(self).nodes@[ino as int].data@,
                offset as int,
                src@,
            ),
    {
        let node = &mut self.nodes[ino];
        let ghost orig = node.data@;
        let ghost origpath = node.path@;
        let m = src.len();
        let mut i: usize = 0;
        while i < m
            invariant
                m == src@.len(),
                0 <= i <= m,
                offset + m <= usize::MAX,
                offset <= orig.len(),
                node.data@.len() == if orig.len() >= offset + i {
                    orig.len() as int
                } else {
                    offset + i
                },
                forall|k: int| 0 <= k < offset ==> #[trigger] node.data@[k] == orig[k],
                forall|k: int| 0 <= k < i ==> #[trigger] node.data@[offset + k] == src@[k],
                forall|k: int|
                    offset + i <= k < orig.len() ==> #[trigger] node.data@[k] == orig[k],
                node.path@ == origpath,
            decreases m - i,
        {
            let pos = offset + i;
            if pos < node.data.len() {
                node.data[pos] = src[i];
            } else {
                node.data.push(src[i]);
            }
            i += 1;
        }
        proof {
            let res = write_bytes_at(orig, offset as int, src@);
            assert(node.data@.len() == res.len());
            assert forall|k: int| 0 <= k < res.len() implies node.data@[k] == res[k] by {
                if k < offset {
                    assert(res[k] == orig.take(offset as int)[k]);
                } else if k < offset + m {
                    assert(res[k] == src@[k - offset]);
                    assert(node.data@[offset + (k - offset)] == src@[k - offset]);
                } else {
                    assert(res[k] == orig.skip(offset + m)[k - offset - m]);
                }
            }
            assert(node.data@ =~= res);
        }
        m
    }
}

} // verus!
