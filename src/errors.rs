//! The error kinds of the library.
use vstd::prelude::*;

verus! {

#[derive(Debug)]
pub enum NcsError {
    /// A lock could not be taken on a mutation path.
    LockError,
    /// The server answered with a non-success status.
    BadStatusError(u16),
    /// An activity-log payload could not be read.
    InvalidXMLError,
    /// A parent reference dangles.
    WeakUpgradeError,
    /// A path violates its shape rules or a tree invariant.
    InvalidPathError(String),
    /// The first bootstrap was tried while offline.
    NetworkOfflineError,
    /// An entry already exists where one was to be created.
    AlreadyExistsError(String),
    /// A control message could not be read.
    InvalidMessageError(String),
}

} // verus!
