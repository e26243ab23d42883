use vstd::prelude::*;

verus! {

/// The failures that the core reports to its immediate caller.
#[derive(Clone, Copy, Debug, PartialEq, Eq, Structural)]
pub enum VmError {
    /// An arena handle is out of range or its slot is empty.
    NotFound,
    /// A byte in an opcode position matches no opcode.
    InvalidOpcode,
    /// A header or stream is shorter than its layout requires.
    Truncated,
    /// A header declares a convention newer than this reader implements.
    UnsupportedVersion,
    /// Executable memory could not be obtained.
    AllocationFailure,
}

} // verus!
