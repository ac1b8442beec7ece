//! Errors of the file server, as POSIX error numbers and their categories.
use vstd::prelude::*;

verus! {

/// Operation not permitted.
pub const EPERM: i32 = 1;
/// No such file or directory.
pub const ENOENT: i32 = 2;
/// Bad file descriptor (an unknown fid).
pub const EBADF: i32 = 9;
/// Device or resource busy (a fid that is already live).
pub const EBUSY: i32 = 16;
/// File exists.
pub const EEXIST: i32 = 17;
/// Not a directory.
pub const ENOTDIR: i32 = 20;
/// Invalid argument.
pub const EINVAL: i32 = 22;

/// Category of an error, as reported to callers.
#[derive(Clone, Copy, PartialEq, Eq, Debug, Structural)]
pub enum ErrorKind {
    InvalidInput,
    NotFound,
    AlreadyExists,
    PermissionDenied,
    AlreadyInUse,
    Other,
}

/// An error of a file-server operation: a POSIX error number, which is what
/// the protocol sends back to the client.
#[derive(Clone, Copy, PartialEq, Eq, Debug, Structural)]
pub struct P9Error {
    pub errno: i32,
}

/// The category of an error number.
pub open spec fn kind_of(errno: i32) -> ErrorKind {
    if errno == EINVAL {
        ErrorKind::InvalidInput
    } else if errno == ENOENT || errno == EBADF {
        ErrorKind::NotFound
    } else if errno == EEXIST {
        ErrorKind::AlreadyExists
    } else if errno == EPERM {
        ErrorKind::PermissionDenied
    } else if errno == EBUSY {
        ErrorKind::AlreadyInUse
    } else {
        ErrorKind::Other
    }
}

impl P9Error {
    /// The error for an error number.
    pub fn from_errno(errno: i32) -> (r: P9Error)
        ensures
            r.errno == errno,
    {
        P9Error { errno }
    }

    /// The category of this error.
    pub fn kind(&self) -> (r: ErrorKind)
        ensures
            r == kind_of(self.errno),
    {
        if self.errno == EINVAL {
            ErrorKind::InvalidInput
        } else if self.errno == ENOENT || self.errno == EBADF {
            ErrorKind::NotFound
        } else if self.errno == EEXIST {
            ErrorKind::AlreadyExists
        } else if self.errno == EPERM {
            ErrorKind::PermissionDenied
        } else if self.errno == EBUSY {
            ErrorKind::AlreadyInUse
        } else {
            ErrorKind::Other
        }
    }
}

} // verus!
