//! Model of a small teaching operating-system kernel for a 64-bit RISC-V
//! target: per-address-space virtual memory built from handler-governed
//! areas, a thread pool multiplexed over one hart by pluggable schedulers,
//! and a minimal POSIX-flavored system-call surface backed by a read-only
//! in-memory root filesystem and pipes.
//!
//! Hardware effects (CSR writes, the context-switch primitive, the SBI
//! console) are represented as explicit state, so every transition of the
//! kernel is an ordinary function with a contract.

pub mod consts;
pub mod fs;
pub mod kernel;
pub mod memory;
pub mod process;
pub mod sync;
pub mod syscall;
pub mod timer;
