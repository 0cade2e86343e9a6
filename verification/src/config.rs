//! Compile-time constants of the kernel's memory layout.
use vstd::prelude::*;

verus! {

/// Number of bits of a page offset.
pub const PAGE_SIZE_BITS: usize = 12;

/// Size of a page, in bytes.
pub const PAGE_SIZE: usize = 4096;

/// First address past the end of physical memory.
pub const MEMORY_END: usize = 0x8080_0000;

/// Address at which the first application image is loaded.
pub const APP_BASE_ADDRESS: usize = 0x8040_0000;

/// Room reserved for each application image, in bytes.
pub const APP_SIZE_LIMIT: usize = 0x2_0000;

/// Number of applications the loader has stacks for.
pub const MAX_APP_NUM: usize = 4;

/// Size of a user stack, in bytes.
pub const USER_STACK_SIZE: usize = 4096;

/// Size of a kernel stack, in bytes.
pub const KERNEL_STACK_SIZE: usize = 4096 * 2;

/// Size of a disk block of the file system, in bytes.
pub const BLOCK_SZ: usize = 512;

/// Size of a trap context: 32 general registers, `sstatus` and `sepc`, 8 bytes each.
pub const TRAP_CONTEXT_SIZE: usize = 34 * 8;

/// Size of a task context: `ra` and the 12 callee-saved registers, 8 bytes each.
pub const TASK_CONTEXT_SIZE: usize = 13 * 8;

} // verus!
