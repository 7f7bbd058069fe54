//! The error kinds of the core: serialization failures, transport
//! failures reported by the network layer, and fatal protocol-invariant
//! violations such as duplicate rendezvous keys or mismatched bit-vector
//! lengths.

use vstd::prelude::*;

use crate::role::Role;

verus! {

#[derive(Clone, Copy, PartialEq, Eq, Structural, Debug)]
pub enum Error {
    /// A message could not be encoded or decoded.
    Serialization { record_id: u32 },
    /// The network layer reported a send or receive failure.
    Transport { peer: Role },
    /// A second receive request arrived for a (channel, record) key that
    /// already has one outstanding. Fatal.
    DuplicateReceive { record_id: u32 },
    /// A second message arrived for a (channel, record) key whose payload
    /// is still buffered. Fatal.
    DuplicateMessage { record_id: u32 },
    /// Two bit-decomposed vectors of different lengths were combined. Fatal.
    MismatchedBitLengths { left: usize, right: usize },
    /// A bit-decomposed vector exceeded the supported width. Fatal.
    TooManyBits { len: usize },
    /// A steps file line is empty or descends more than one level below
    /// its predecessor.
    InvalidStepLine { line: usize },
    /// A steps file holds more lines than step identifiers exist.
    TooManySteps,
    /// A sub-protocol was cancelled by its parent.
    Cancelled,
}

} // verus!
