//! The key-value access contract to the storage back-end: small capability
//! traits that a concrete back-end implements, one per operation and typed
//! (key, value) pair. The bootstrap worker relies on `Insert` and `Fetch`;
//! `Exist` and `Delete` round out the contract for other callers.

use vstd::prelude::*;

verus! {

/// A storage back-end; each back-end chooses one error type shared by all
/// of its access operations.
pub trait StorageBackend {
    /// An error generated by the back-end.
    type Error;
}

/// Extends the back-end with an `exist` operation for the `(K, V)` pair.
pub trait Exist<K, V>: StorageBackend {
    /// Checks if a value exists in the storage for the given key.
    fn exist(&self, key: &K) -> Result<bool, Self::Error>;
}

/// Extends the back-end with a `delete` operation for the `(K, V)` pair.
pub trait Delete<K, V>: StorageBackend {
    /// Deletes the value associated with the key from the storage.
    fn delete(&mut self, key: &K) -> Result<(), Self::Error>;
}

/// Extends the back-end with an `insert` operation for the `(K, V)` pair.
pub trait Insert<K, V>: StorageBackend {
    /// Inserts the key/value pair into the storage.
    fn insert(&mut self, key: &K, value: &V) -> Result<(), Self::Error>;
}

/// Extends the back-end with a `fetch` operation for the `(K, V)` pair.
pub trait Fetch<K, V>: StorageBackend {
    /// Fetches the value associated with the key, if one is stored.
    fn fetch(&self, key: &K) -> Result<Option<V>, Self::Error>;
}

} // verus!
