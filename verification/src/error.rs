//! The ways in which a store operation can fail.

use vstd::prelude::*;

verus! {

/// What sort of failure the operating system reported.
#[derive(Clone, Copy, Debug, PartialEq, Eq, Structural)]
pub enum IoErrorKind {
    NotFound,
    AlreadyExists,
    PermissionDenied,
    InvalidData,
    Other,
}

/// A failed file system call.
#[derive(Debug)]
pub struct IoError {
    pub kind: IoErrorKind,
    /// The operating system's own code, where it gave one.
    pub raw_os_error: Option<i32>,
    pub message: String,
}

/// The error of every store operation.
#[derive(Debug)]
pub enum ProviderError {
    /// An invoice that is already yanked cannot be created.
    CreateYanked,
    /// The invoice asked for has been yanked.
    Yanked,
    /// The thing to be created is already there.
    Exists,
    /// Someone else is writing the same thing.
    WriteInProgress,
    /// There is no such invoice or parcel.
    NotFound,
    /// The data does not have the digest that it is stored under.
    DigestMismatch,
    /// The identifier could not be parsed.
    InvalidId(String),
    /// A stored document could not be parsed.
    Malformed(String),
    /// A document could not be written out.
    Unserializable(String),
    /// The file system failed in some other way.
    Io(IoError),
}

/// The store's error for a failed file system call: a missing file is `NotFound`, and
/// everything else is passed on as it is.
pub open spec fn spec_map_io_error(e: IoError) -> ProviderError {
    if e.kind is NotFound {
        ProviderError::NotFound
    } else {
        ProviderError::Io(e)
    }
}

/// Turns a failed file system call into the store's error.
pub fn map_io_error(e: IoError) -> (res: ProviderError)
    ensures
        res == spec_map_io_error(e),
{
    if e.kind == IoErrorKind::NotFound {
        return ProviderError::NotFound;
    }
    ProviderError::Io(e)
}

} // verus!
