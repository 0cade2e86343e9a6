//! The decision-making core of a small RISC-V teaching kernel: the physical
//! frame allocator, the application loader's memory layout, system call
//! decoding, file-descriptor tables, the process table and the scheduler
//! queue.
pub mod address;
pub mod config;
pub mod frame_allocator;
pub mod fs;
pub mod loader;
pub mod syscall;
pub mod task;
pub mod trap;
pub mod virtio;
