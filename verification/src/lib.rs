//! Persistent entity store with monotonic identity allocation and derived
//! search and aggregate projections.
//!
//! The library owns the logic: identifier allocation and the filesystem
//! layout derived from identifiers, the entry record and its persisted
//! encoding, the bulk-import conversion, the projection into a search
//! document, and the denormalized aggregate summary.  File and terminal
//! handling stay with the surrounding application.

use vstd::prelude::*;

pub mod config;
pub mod entry;
pub mod numtext;
pub mod root;
pub mod search;
pub mod store;

verus! {

/// Errors that the store's operations report.
#[derive(Debug, Clone, Copy, PartialEq, Eq, Structural)]
pub enum StoreError {
    /// A query or update found no matching record.
    NotFound,
    /// An insert collided with a record of the same identity.
    DuplicateKey,
    /// The configuration record backing the allocator is absent.
    ConfigMissing,
    /// The aggregate file exists but cannot be read back.
    CorruptAggregate,
    /// The backing database cannot be reached.
    StorageUnavailable,
    /// Persisted bytes are malformed.
    SerializationError,
}

} // verus!
