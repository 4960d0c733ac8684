//! Errors returned by buffer, kernel and queue operations.
use vstd::prelude::*;

verus! {

/// What went wrong.
#[derive(Clone, Copy, Debug, PartialEq, Eq, Structural)]
pub enum OclError {
    /// A length did not match: an init sequence against a buffer's length, or
    /// host data against the buffer it is written to or read from.
    SizeMismatch,
    /// The device layer refused an allocation, transfer or enqueue: a handle
    /// that names nothing, or a kernel argument that does not fit its entry point.
    DeviceError,
    /// A named argument that the kernel was not built with.
    UnknownArgument,
    /// A kernel argument that was never bound.
    UnboundArgument,
    /// A missing global work size, or a local size that does not divide it.
    InvalidGeometry,
    /// An event that ended in error, or a second callback on one event.
    EventError,
}

} // verus!
