//! Per-thread file descriptors.
//!
//! A descriptor cell is `{type, readable, writable, inode?, pipe?, offset}`.
//! Inodes and pipes are named by their index in the kernel's root-filesystem
//! and pipe tables, so a cell is a plain value and two descriptors share a
//! pipe by holding the same index.

use vstd::prelude::*;

verus! {

#[derive(Clone, Copy, Debug, PartialEq, Eq, Structural)]
pub enum FileDescriptorType {
    FdNone,
    FdInode,
    FdPipe,
}

#[derive(Clone, Copy, Debug)]
pub struct File {
    pub fdtype: FileDescriptorType,
    pub readable: bool,
    pub writable: bool,
    /// Index of the backing inode in the root filesystem, for `FdInode`.
    pub inode: Option<usize>,
    /// Index of the backing byte queue in the pipe table, for `FdPipe`.
    pub pipe: Option<usize>,
    pub offset: usize,
}

impl File {
    /// A closed descriptor: no type, no backing object, offset zero.
    pub fn default() -> (f: File)
        ensures
            f.fdtype == FileDescriptorType::FdNone,
            !f.readable,
            !f.writable,
            f.inode is None,
            f.pipe is None,
            f.offset == 0,
    {
        File {
            fdtype: FileDescriptorType::FdNone,
            readable: false,
            writable: false,
            inode: None,
            pipe: None,
            offset: 0,
        }
    }

    pub fn set_readable(&mut self, v: bool)
        ensures
            *final(self) == (File { readable: v, ..*old(self) }),
    {
        self.readable = v;
    }

    pub fn set_writable(&mut self, v: bool)
        ensures
            *final(self) == (File { writable: v, ..*old(self) }),
    {
        self.writable = v;
    }

    pub fn get_readable(&self) -> (r: bool)
        ensures
            r == self.readable,
    {
        self.readable
    }

    pub fn get_writable(&self) -> (r: bool)
        ensures
            r == self.writable,
    {
        self.writable
    }

    pub fn set_fdtype(&mut self, t: FileDescriptorType)
        ensures
            *final(self) == (File { fdtype: t, ..*old(self) }),
    {
        self.fdtype = t;
    }

    pub fn get_fdtype(&self) -> (t: FileDescriptorType)
        ensures
            t == self.fdtype,
    {
        self.fdtype
    }

    pub fn set_offset(&mut self, o: usize)
        ensures
            *final(self) == (File { offset: o, ..*old(self) }),
    {
        self.offset = o;
    }

    pub fn get_offset(&self) -> (o: usize)
        ensures
            o == self.offset,
    {
        self.offset
    }

    /// Point this descriptor at inode `inode`. Readability and writability
    /// follow the open flags: bit 0 set means write-only, bits 0..2 nonzero
    /// mean writable. The offset restarts at zero.
    pub fn open_file(&mut self, inode: usize, flags: i32)
        ensures
            final(self).fdtype == FileDescriptorType::FdInode,
            final(self).readable == ((flags & 1) == 0),
            final(self).writable == ((flags & 3) != 0),
            final(self).inode == Some(inode),
            final(self).pipe == old(self).pipe,
            final(self).offset == 0,
    {
        self.set_fdtype(FileDescriptorType::FdInode);
        self.set_readable(true);
        if (flags & 1) != 0 {
            self.set_readable(false);
        }
        self.set_writable((flags & 3) != 0);
        self.inode = Some(inode);
        self.set_offset(0);
    }

    /// Point this descriptor at pipe `pipe`, readable and writable.
    pub fn open_pipe(&mut self, pipe: usize)
        ensures
            final(self).fdtype == FileDescriptorType::FdPipe,
            final(self).readable,
            final(self).writable,
            final(self).pipe == Some(pipe),
            final(self).inode == old(self).inode,
            final(self).offset == old(self).offset,
    {
        self.set_fdtype(FileDescriptorType::FdPipe);
        self.set_readable(true);
        self.set_writable(true);
        self.pipe = Some(pipe);
    }
}

} // verus!
