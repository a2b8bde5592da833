//! Error types of the store and of the canister layer around it.

use vstd::prelude::*;

verus! {

/// What a storage operation can fail with.
#[derive(Debug, Clone, PartialEq)]
pub enum StorageError {
    /// An operation was attempted before initialization.
    NotReady,
    /// A key that a call site demanded was not there.
    NotFound(String),
    /// A vector's length did not match the index's configured dimension.
    DimensionMismatch { expected: usize, actual: usize },
    /// A persisted record could not be read back.
    Serialization(String),
    /// Any other fault.
    Other(String),
}

pub type StorageResult<T> = Result<T, StorageError>;

/// What a canister-level call can fail with.
#[derive(Debug, Clone, PartialEq)]
pub enum CanisterError {
    NotInitialized,
    AlreadyInitialized,
    Storage(StorageError),
    InvalidInput(String),
    HttpOutcallError(String),
    VetKeyError(String),
    Unauthorized,
    SerializationError(String),
    InternalError(String),
}

pub type CanisterResult<T> = Result<T, CanisterError>;

impl CanisterError {
    /// Wrap a storage fault.
    pub fn storage(e: StorageError) -> (r: CanisterError)
        ensures
            r == CanisterError::Storage(e),
    {
        CanisterError::Storage(e)
    }
}

} // verus!
