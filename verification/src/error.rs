//! Errors of the simulated file system and ring, and the `errno` numbers they carry.
use vstd::prelude::*;

verus! {

/// Why an operation of the simulation failed.
#[derive(Debug, Clone, Copy, PartialEq, Eq, Structural)]
pub enum Error {
    /// No file of that path exists on the node.
    NotFound,
    /// The file was opened read-only and cannot be written through this handle.
    PermissionDenied,
    /// A failure that the kernel would report by this `errno`.
    Os(i32),
}

/// The class of an [`Error`].
#[derive(Debug, Clone, Copy, PartialEq, Eq, Structural)]
pub enum ErrorKind {
    NotFound,
    PermissionDenied,
    Os,
}

impl Error {
    /// The `errno` that this error carries, if any.
    pub open spec fn errno(self) -> Option<i32> {
        match self {
            Error::Os(code) => Some(code),
            _ => None,
        }
    }

    /// Returns the `errno` that this error carries, if it carries one.
    pub fn raw_os_error(&self) -> (code: Option<i32>)
        ensures
            code == self.errno(),
    {
        match self {
            Error::Os(code) => Some(*code),
            _ => None,
        }
    }

    /// Returns the class of this error.
    pub fn kind(&self) -> (kind: ErrorKind)
        ensures
            kind == (match *self {
                Error::NotFound => ErrorKind::NotFound,
                Error::PermissionDenied => ErrorKind::PermissionDenied,
                Error::Os(_) => ErrorKind::Os,
            }),
    {
        match self {
            Error::NotFound => ErrorKind::NotFound,
            Error::PermissionDenied => ErrorKind::PermissionDenied,
            Error::Os(_) => ErrorKind::Os,
        }
    }
}

/// `EIO` on Linux: input/output error.
pub open spec fn eio_number() -> i32 {
    5
}

/// `EBADF` on Linux: bad file descriptor.
pub open spec fn ebadf_number() -> i32 {
    9
}

/// `EFAULT` on Linux: bad address.
pub open spec fn efault_number() -> i32 {
    14
}

/// `EBUSY` on Linux: device or resource busy.
pub open spec fn ebusy_number() -> i32 {
    16
}

/// `EFBIG` on Linux: file too large.
pub open spec fn efbig_number() -> i32 {
    27
}

/// The constant `libc::EIO`, trusted to have the number that Linux gives it.
#[verifier::external_body]
pub(crate) fn eio() -> (code: i32)
    ensures
        code == eio_number(),
{
    libc::EIO
}

/// The constant `libc::EBADF`, trusted to have the number that Linux gives it.
#[verifier::external_body]
pub(crate) fn ebadf() -> (code: i32)
    ensures
        code == ebadf_number(),
{
    libc::EBADF
}

/// The constant `libc::EFAULT`, trusted to have the number that Linux gives it.
#[verifier::external_body]
pub(crate) fn efault() -> (code: i32)
    ensures
        code == efault_number(),
{
    libc::EFAULT
}

/// The constant `libc::EBUSY`, trusted to have the number that Linux gives it.
#[verifier::external_body]
pub(crate) fn ebusy() -> (code: i32)
    ensures
        code == ebusy_number(),
{
    libc::EBUSY
}

/// The constant `libc::EFBIG`, trusted to have the number that Linux gives it.
#[verifier::external_body]
pub(crate) fn efbig() -> (code: i32)
    ensures
        code == efbig_number(),
{
    libc::EFBIG
}

} // verus!
