//! Failure taxonomy of the projection engine and its mapping onto the
//! POSIX error codes that the kernel-facing layer replies with.

use vstd::prelude::*;

verus! {

/// `errno` value for a name or identifier that does not exist.
pub const ENOENT: i32 = 2;

/// `errno` value for an I/O failure (a failed or malformed remote fetch).
pub const EIO: i32 = 5;

/// `errno` value for an operation the engine does not support.
pub const EPERM: i32 = 1;

/// Everything that can go wrong while answering a filesystem callback.
#[derive(Clone, Copy, Debug, PartialEq, Eq, Structural)]
pub enum FsError {
    /// The path carries no recognized backend protocol segment.
    PathError,
    /// The remote call failed or returned malformed data.
    BackendFailure,
    /// The name or identifier is absent after a completed load.
    NotFound,
    /// The operation is not meaningful for this node, e.g. `read` on a
    /// directory; writes fall under this as well.
    UnsupportedOperation,
}

impl FsError {
    /// The POSIX error code this failure is reported as: `NotFound`
    /// becomes `ENOENT`, `BackendFailure` becomes `EIO`, and both
    /// `PathError` and `UnsupportedOperation` become `EPERM`.
    pub fn errno(&self) -> (code: i32)
        ensures
            code == (match *self {
                FsError::PathError => EPERM as int,
                FsError::BackendFailure => EIO as int,
                FsError::NotFound => ENOENT as int,
                FsError::UnsupportedOperation => EPERM as int,
            }),
    {
        match self {
            FsError::PathError => EPERM,
            FsError::BackendFailure => EIO,
            FsError::NotFound => ENOENT,
            FsError::UnsupportedOperation => EPERM,
        }
    }
}

} // verus!
