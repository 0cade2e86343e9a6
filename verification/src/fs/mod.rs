//! Files as the kernel sees them: user buffers and the console.
pub mod stdio;
