//! Virtual File System: the errors, the mounting of volumes, and the
//! layout of the files of the file system in memory.

use vstd::prelude::*;
use crate::metadevs::storage::IoError;

pub mod mount;
pub mod ramfs;

verus! {

/// What can go wrong in the file system.
#[derive(Debug, Clone, Copy, PartialEq, Eq)]
pub enum Error {
    /// File not found
    NotFound,
    /// Permission denied
    PermissionDenied,
    /// File exclusively locked
    Locked,
    /// The item already exists
    AlreadyExists,
    /// Path was malformed (too long, not absolute, not normalised, ... depends)
    MalformedPath,
    /// A general parameter was malformed (empty filename, offset out of range, ...)
    InvalidParameter,
    /// Node was not the requested type (or selected FS driver doesn't support that volume)
    TypeMismatch,
    /// A component of the path was not a directory
    NonDirComponent,
    /// Symbolic link recursion limit reached
    RecursionDepthExceeded,
    /// Block-level IO Error
    BlockIoError(IoError),
    /// Filesystem is read-only
    ReadOnlyFilesystem,
    /// Filesystem driver hit an internal consistency error
    InconsistentFilesystem,
    /// Volume ran out of space
    OutOfSpace,
    /// System has run out of memory
    OutOfMemory,
    /// Operation failed due to a transient error, can can be retried
    TransientError,
    /// Unknown (misc) error
    Unknown(&'static str),
}

impl Error {
    /// The error of the file system that stands for an error of a block
    /// device.
    pub fn from_io(v: IoError) -> (error: Error)
        ensures
            error == Error::BlockIoError(v),
    {
        Error::BlockIoError(v)
    }
}

} // verus!
