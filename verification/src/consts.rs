use vstd::prelude::*;

verus! {

/// Bytes per page.
pub const PAGE_SIZE: usize = 4096;

/// log2 of the page size.
pub const PAGE_SHIFT: usize = 12;

/// Timer cadence: cycles between supervisor timer interrupts.
pub const TIMEBASE: u64 = 100000;

/// Capacity of the thread pool's slot table.
pub const MAX_THREADS: usize = 100;

/// Number of entries in a thread's file-descriptor table.
pub const FD_TABLE_SIZE: usize = 16;

/// Ticks of the timer per second of `sleep`.
pub const TICKS_PER_SEC: usize = 100;

/// Default stride pass: 65536 / priority for priority 1.
pub const BIG_STRIDE: usize = 65536;

/// Base virtual address at which a user program image is loaded.
pub const USER_BASE: usize = 0x10000;

/// Bottom of the user stack area.
pub const USER_STACK_BOTTOM: usize = 0x80000;

/// Top of the user stack area (exclusive; the initial stack pointer).
pub const USER_STACK_TOP: usize = 0x90000;

/// Every user virtual address lies below this; kernel segments lie at or
/// above it.
pub const USER_CEILING: usize = 0x100000;

/// sstatus bit: previous privilege was supervisor.
pub const SSTATUS_SPP: usize = 0x100;

/// sstatus bit: interrupts enabled on return.
pub const SSTATUS_SPIE: usize = 0x20;

} // verus!
