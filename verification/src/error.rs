//! Error kinds surfaced by the library.

use vstd::prelude::*;

verus! {

/// Terminal failures: a corrupted or mismatched proof, tag bytes that are not
/// UTF-8 where UTF-8 is required, a key or randomness failure during signing,
/// and a tree node that is neither a well-formed leaf nor a well-formed
/// branch.
#[derive(Clone, Copy, Debug, PartialEq, Eq, Structural)]
pub enum Error {
    /// A proof failed fixed-width deserialization or a hash comparison.
    InvalidProof,
    /// Tag content was required to be UTF-8 but was not.
    InvalidTags,
    /// A key, signature or randomness operation failed.
    InvalidHash,
    /// A node was neither a well-formed leaf nor a well-formed branch.
    InvalidNode,
}

} // verus!
