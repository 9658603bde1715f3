//! Parsing of textual field elements and digests, and the two TIP-5 hashing
//! operations over them: pairwise hashing and variable-length hashing.

pub mod text;
pub mod error;
pub mod number;
pub mod digest;
pub mod tip5;
pub mod mode;
