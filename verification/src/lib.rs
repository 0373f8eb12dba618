//! Payload-field indexing engine: an immutable, file-backed inverted index
//! with soft-delete tracking, plus the dispatch layer that picks a concrete
//! index variant for each schema declaration.

use vstd::prelude::*;

pub mod bits;
pub mod codec;
pub mod config;
pub mod index;
pub mod laws;
pub mod selector;

verus! {

/// Failure modes of loading or clearing an index directory.
#[derive(Clone, Copy, PartialEq, Eq, Structural, Debug)]
pub enum OperationError {
    /// A required file is missing from the directory.
    NotFound,
    /// A file is present but its contents are malformed.
    Format,
}

} // verus!
