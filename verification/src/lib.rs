//! Row-wise text-transformation primitives for columns of text values:
//! ordered deduplication of space-separated tokens, dictionary token
//! mapping, Unicode normalization, diacritic stripping, and removal of
//! content enclosed in matched bracket pairs, together with a row mapper
//! that applies one such transform across a whole column with null
//! propagation.

use vstd::prelude::*;

pub mod brackets;
pub mod chars;
pub mod column;
pub mod dedup;
pub mod mapping;
pub mod tokens;
pub mod unicode;

verus! {

/// A structurally invalid configuration, detected once before any row is
/// processed; no row of the column is transformed when one is reported.
#[derive(Clone, Copy, Debug, PartialEq, Eq, Structural)]
pub enum ConfigError {
    /// The bracket specification has an odd number of characters, so its
    /// last character belongs to no (open, close) pair.
    OddBracketSpec,
    /// The mapping dictionary repeats a key.
    DuplicateMapKey,
}

} // verus!
