//! The ways in which reading or decoding a process record can fail.

use vstd::prelude::*;

verus! {

/// `EPERM`: the operation is not permitted.
pub const EPERM: i32 = 1;

/// `ENOENT`: no such file or directory.
pub const ENOENT: i32 = 2;

/// `ESRCH`: no such process.
pub const ESRCH: i32 = 3;

/// `EACCES`: permission denied.
pub const EACCES: i32 = 13;

/// Why a process record could not be read or decoded.
#[derive(Clone, Copy, Debug, PartialEq, Eq, Structural)]
pub enum Error {
    /// The process, or the file or link asked for, no longer exists.
    NotFound,
    /// The caller may not do this to the process.
    PermissionDenied,
    /// The record does not have the layout of its format.
    Structure,
    /// The field at this position of the record, counted from zero, does not
    /// hold a value of its type.
    Parse { field: usize },
    /// The status field holds no process state.
    InvalidState,
    /// The system did not report usable scaling constants.
    Configuration,
}

impl Error {
    /// The error that an operating-system error number stands for, if it is
    /// one of those that tell of a vanished process or a refused access.
    pub open spec fn of_errno(errno: i32) -> Option<Error> {
        if errno == ENOENT || errno == ESRCH {
            Some(Error::NotFound)
        } else if errno == EPERM || errno == EACCES {
            Some(Error::PermissionDenied)
        } else {
            None
        }
    }

    /// Classifies the error number left by a failed system call.
    pub fn from_errno(errno: i32) -> (r: Option<Error>)
        ensures
            r == Error::of_errno(errno),
    {
        if errno == ENOENT || errno == ESRCH {
            Some(Error::NotFound)
        } else if errno == EPERM || errno == EACCES {
            Some(Error::PermissionDenied)
        } else {
            None
        }
    }
}

} // verus!
