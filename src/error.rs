//! The failures that the catalog reports to its callers.
use vstd::prelude::*;

verus! {

/// A failure of a store operation. None is recovered from inside the
/// library: each is handed to the caller.
#[derive(PartialEq, Eq, Structural, Clone, Copy, Debug)]
pub enum StoreError {
    /// A new store could not be set up at its location.
    StoreInit,
    /// An existing store is missing or holds an unusable catalog.
    StoreOpen,
    /// A record with the same id is already present.
    DuplicateKey,
    /// A record type is declared twice with different versions.
    SchemaConflict,
    /// A write scope is already open, or none is open to finish.
    WriteConflict,
    /// Text did not name a plant classification.
    Parse,
    /// A snapshot could not be read into a catalog.
    SnapshotRead,
    /// Snapshot text is malformed.
    Decode,
    /// A path could not be read or written.
    Io,
    /// No record carries the requested id.
    NotFound,
    /// Every id is taken: the largest id in use is `u64::MAX`.
    IdsExhausted,
}

} // verus!
