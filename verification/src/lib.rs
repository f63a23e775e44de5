//! A directory-jump assistant library: a visit-count database over directory
//! paths, a query resolver that picks the best known directory for a pattern,
//! and the binary / text codecs that persist the database and the user
//! configuration.
use vstd::prelude::*;

pub mod config;
pub mod db;
pub mod order;
pub mod persist;
pub mod resolver;

verus! {

/// The failures the library reports to its caller.
#[derive(Clone, Copy, Debug, PartialEq, Eq, Structural)]
pub enum JumpError {
    /// A resolver query did not compile as a regular-expression pattern.
    InvalidPattern,
    /// Persisted database bytes were not a well-formed encoding.
    CorruptDatabase,
    /// Persisted configuration text was not a well-formed encoding.
    CorruptConfig,
}

} // verus!
