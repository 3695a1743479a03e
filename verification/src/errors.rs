use vstd::prelude::*;

verus! {

/// Why a block does not extend a given predecessor.
#[allow(inconsistent_fields)]
#[derive(Debug, PartialEq, Eq, Structural)]
pub enum BlockError {
    GenesisNotAllowedHere,
    InvalidIndex { expected: u64, got: u64 },
    InvalidPrevHash,
    InvalidMerkleRoot,
    InvalidProposer { expected: u32, got: u32 },
    InvalidSignature,
}

/// Why a node could not sign.
#[derive(Debug, PartialEq, Eq, Structural)]
pub enum SignError {
    NotValidator,
}

} // verus!
