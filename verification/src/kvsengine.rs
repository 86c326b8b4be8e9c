//! What the server asks of a storage engine.

use crate::error::KvStoreError;
use vstd::prelude::*;

verus! {

/// A key-value database engine with a very simplified interface. A handle is
/// shared between threads, so every operation takes `&self`; what an
/// operation returns is for the implementation to say.
pub trait KvsEngine {
    /// Set the `value` of a string `key` to a string.
    /// Return an error if the `value` is not written successfully.
    fn set(&self, key: String, value: String) -> Result<(), KvStoreError>;

    /// Get the string value of a string `key`.
    /// If the `key` does not exist, return `None`.
    /// Return an error if the value is not read successfully.
    fn get(&self, key: String) -> Result<Option<String>, KvStoreError>;

    /// Remove a given `key`.
    /// Return an error if the `key` does not exist or is not removed successfully.
    fn remove(&self, key: String) -> Result<(), KvStoreError>;
}

/// An engine that can reclaim the space of overwritten and removed entries.
pub trait KvsCompactor {
    /// Run one pass of compaction.
    fn compact(&self) -> Result<(), KvStoreError>;
}

} // verus!
