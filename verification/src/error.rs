//! The ways in which a conversion across the boundary can fail.

use vstd::prelude::*;

verus! {

/// Why a value could not cross the boundary. None of these is retried: each
/// shows that the two sides disagree about the protocol.
#[derive(Clone, Copy, Debug, PartialEq, Eq, Structural)]
pub enum BridgeError {
    /// The native library does not export an expected entry point.
    SymbolNotFound,
    /// A buffer of decimal text does not hold a well-formed integer.
    MalformedInteger,
    /// A declared length or count reaches past the allocation it describes.
    OutOfBounds,
    /// An allocator on either side is exhausted.
    AllocationFailure,
}

impl BridgeError {
    /// The message that describes this error.
    pub fn message(&self) -> (text: &'static str)
        ensures
            text@ == match *self {
                BridgeError::SymbolNotFound => "symbol not found in the native library"@,
                BridgeError::MalformedInteger => "malformed integer"@,
                BridgeError::OutOfBounds => "length out of bounds"@,
                BridgeError::AllocationFailure => "allocation failure"@,
            },
    {
        match self {
            BridgeError::SymbolNotFound => "symbol not found in the native library",
            BridgeError::MalformedInteger => "malformed integer",
            BridgeError::OutOfBounds => "length out of bounds",
            BridgeError::AllocationFailure => "allocation failure",
        }
    }
}

} // verus!
