//! Merkle inclusion proofs for transaction receipts.
//!
//! The crate recomputes a Merkle root from a leaf hash and an ordered list of
//! sibling hashes, using a sorted-pair Keccak-256 combination rule, and
//! compares the result to a block's published receipts root. It also supplies
//! the canonical byte encoding of a receipt (the leaf preimage) and a parser
//! for the textual proof representation.

pub mod bytes;
pub mod hash;
pub mod merkle;
pub mod rlp;
pub mod errors;
pub mod receipt;
pub mod parser;
pub mod pipeline;

pub use hash::Hash256;
pub use hash::keccak256_of;
pub use hash::lex_lt;
