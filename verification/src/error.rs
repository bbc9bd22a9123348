//! Typed failure codes shared by every fallible operation of the kernel core.

use vstd::prelude::*;

verus! {

/// Machine-readable reason for a failed operation.
#[derive(Clone, Copy, Debug, PartialEq, Eq, Structural)]
pub enum OsErrorCode {
    Full,
    Empty,
    NoEnoughMemory,
    IndexOutOfRange,
    HostControllerNotHalted,
    InvalidSlotId,
    PortNotConnected,
    InvalidEndpointNumber,
    TransferRingNotSet,
    AlreadyAllocated,
    NotImplemented,
    InvalidDescriptor,
    BufferTooSmall,
    UnknownDevice,
    NoCorrespondingSetupStage,
    TransferFailed,
    InvaludPhase,
    UnknownXhciSpeedId,
    NoWaiter,
    NoPciMsi,
}

/// A typed failure. Errors are always returned, never thrown: callers decide
/// whether to drop the failing branch or surface the code.
#[derive(Clone, Copy, Debug, PartialEq, Eq, Structural)]
pub struct OsError {
    pub code: OsErrorCode,
}

impl OsError {
    /// Wraps a failure code.
    pub fn new(code: OsErrorCode) -> (r: OsError)
        ensures
            r.code == code,
    {
        OsError { code }
    }
}

} // verus!
