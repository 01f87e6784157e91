//! Content addressing and transaction signing for the Arweave wire protocol.
//!
//! The library splits a byte buffer into size-bounded chunks, builds a binary
//! hash tree over them, derives one inclusion proof per chunk, validates such
//! proofs against a trusted root id, computes the recursive tagged digest
//! ("deep hash") that serves as the signing message for a transaction, and
//! wraps an RSA-PSS signature scheme over that digest.

pub mod crypto;
pub mod encoding;
pub mod error;
pub mod hashing;
pub mod laws;
pub mod merkle;
pub mod model;
pub mod transaction;
