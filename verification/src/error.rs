//! The error kinds of the store.

use vstd::prelude::*;

verus! {

/// Why an operation of the store failed.
#[derive(Clone, Copy, Debug, PartialEq, Eq, Structural)]
pub enum ErrorCode {
    /// The data directory cannot be created or accessed.
    DirectoryUnavailable,
    /// State, snapshot or defaults bytes do not decode.
    CorruptData,
    /// Defaults are required and their source is absent.
    DefaultsMissing,
    /// The key is neither overridden nor has a default.
    KeyNotFound,
    /// No retained snapshot has the identifier.
    SnapshotNotFound,
}

} // verus!
