//! Error types shared across the engine.

use vstd::prelude::*;

verus! {

/// The engine-wide error taxonomy: validation, lookup, conflict,
/// storage and lazy-loading failures, each carrying a message.
#[derive(Debug, Clone, PartialEq, Eq)]
pub enum WaCustomError {
    DatabaseError(String),
    SerializationError(String),
    DeserializationError(String),
    FsError(String),
    LazyLoadingError(String),
    NodeError(String),
    InvalidParams,
    NotImplemented,
}

} // verus!
