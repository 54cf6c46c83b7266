//! The failures that opening and using a device handle can report.

use vstd::prelude::*;

verus! {

/// The error of `packed_struct`'s packing and unpacking functions. Nothing
/// is read from a value of it.
#[verifier::external_type_specification]
#[verifier::external_body]
pub struct ExPackingError(packed_struct::PackingError);

#[derive(Debug, Clone, Copy, PartialEq, Eq, Structural)]
pub enum Error {
    /// The platform reported a failure without an error number.
    UnknownErrno,
    /// The path that was opened is not a block-special device.
    NotABlockDevice,
    /// The platform's error number, passed on as it came.
    Errno(i32),
    /// The header could not be packed or unpacked.
    FailedSerialization,
    /// The requested byte range ends after the end of the backing store.
    AfterEOFAccess,
}

impl Error {
    /// The error that stands for a failed transfer, given the error number
    /// that the platform reported for it, if it reported one.
    pub open spec fn of_os_error(code: Option<i32>) -> Error {
        match code {
            Some(errno) => Error::Errno(errno),
            None => Error::UnknownErrno,
        }
    }

    /// True of the errors that come from the platform, as opposed to those
    /// that this library raises by its own checks.
    pub open spec fn is_os_error(self) -> bool {
        self is Errno || self is UnknownErrno
    }

    /// Turns the error number of a failed transfer into an `Error`.
    pub fn from_os_error(code: Option<i32>) -> (e: Error)
        ensures
            e == Error::of_os_error(code),
            e.is_os_error(),
    {
        match code {
            Some(errno) => Error::Errno(errno),
            None => Error::UnknownErrno,
        }
    }
}

impl From<packed_struct::PackingError> for Error {
    fn from(e: packed_struct::PackingError) -> (r: Error) {
        Error::FailedSerialization
    }
}

impl vstd::std_specs::convert::FromSpecImpl<packed_struct::PackingError> for Error {
    open spec fn obeys_from_spec() -> bool {
        true
    }

    open spec fn from_spec(e: packed_struct::PackingError) -> Error {
        Error::FailedSerialization
    }
}

} // verus!
