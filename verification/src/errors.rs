//! Error values surfaced by the input parsers and the debug controller.

use vstd::prelude::*;

verus! {

/// Everything that can go wrong while turning textual inputs into typed
/// VM inputs, or while starting a debug session.
#[derive(Clone, Copy, Debug, PartialEq, Eq, Structural)]
pub enum ParseError {
    /// A decimal string did not parse as an unsigned 64-bit integer.
    NumberFormatError,
    /// A hex string did not decode to the expected number of bytes.
    InvalidHexLength,
    /// An integer was not a valid member of the field.
    FieldOverflow,
    /// Two advice-map entries decoded to the same key.
    DuplicateMapKey,
    /// A dense Merkle tree was given a leaf count that is not a power of two.
    InvalidLeafCount,
    /// A sparse Merkle tree entry's index exceeds the tree's depth.
    IndexOutOfRange,
    /// Two Merkle nodes share a digest but have different children.
    MerkleStoreConflict,
    /// The execution trace yielded no initial snapshot.
    EmptySequence,
    /// A request or result document was not well-formed JSON, or a field
    /// did not have the expected shape.
    InvalidJson,
}

impl ParseError {
    /// A short description of the error, for callers that report it as text.
    pub fn describe(&self) -> (r: &'static str)
        ensures
            r@.len() > 0,
    {
        proof {
            reveal_strlit("failed to parse a decimal value as an unsigned 64-bit integer");
            reveal_strlit("hex string does not decode to the expected number of bytes");
            reveal_strlit("value is not a valid field element");
            reveal_strlit("duplicate advice map key");
            reveal_strlit("merkle tree leaf count must be a power of two");
            reveal_strlit("sparse merkle tree index is out of range for the tree depth");
            reveal_strlit("conflicting children for an existing merkle node");
            reveal_strlit("the execution trace yielded no initial snapshot");
            reveal_strlit("malformed input document");
        }
        match self {
            ParseError::NumberFormatError => {
                "failed to parse a decimal value as an unsigned 64-bit integer"
            },
            ParseError::InvalidHexLength => {
                "hex string does not decode to the expected number of bytes"
            },
            ParseError::FieldOverflow => "value is not a valid field element",
            ParseError::DuplicateMapKey => "duplicate advice map key",
            ParseError::InvalidLeafCount => "merkle tree leaf count must be a power of two",
            ParseError::IndexOutOfRange => {
                "sparse merkle tree index is out of range for the tree depth"
            },
            ParseError::MerkleStoreConflict => {
                "conflicting children for an existing merkle node"
            },
            ParseError::EmptySequence => "the execution trace yielded no initial snapshot",
            ParseError::InvalidJson => "malformed input document",
        }
    }
}

} // verus!
