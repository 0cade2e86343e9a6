//! Errors of the VirtIO device drivers.
use vstd::prelude::*;

verus! {

/// The error type of VirtIO drivers.
#[derive(Clone, Copy, Debug, PartialEq, Eq, Structural)]
pub enum Error {
    /// The buffer is too small.
    BufferTooSmall,
    /// The device is not ready.
    NotReady,
    /// The queue is already in use.
    AlreadyUsed,
    /// Invalid parameter.
    InvalidParam,
    /// Failed to alloc DMA memory.
    DmaError,
    /// I/O Error
    IoError,
}

/// The result of a VirtIO driver operation.
pub type Result<T = ()> = core::result::Result<T, Error>;

} // verus!
