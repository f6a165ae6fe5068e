//! Core of a small RISC-V64 kernel: the physical page allocator, the Sv39
//! translation tables, the trap frame, trap and system-call dispatch, the
//! process list with its round-robin scheduler, and a one-word mutex.
//! Hardware access, devices and the console stay with the caller, which
//! performs the work that the dispatchers hand back.

pub mod buffer;
pub mod cpu;
pub mod lock;
pub mod mem;
pub mod page;
pub mod process;
pub mod syscall;
pub mod trap;
