use vstd::prelude::*;

verus! {

/// The errors that the ingestion logic reports.
#[derive(Clone, Copy, Debug, PartialEq, Eq, Structural)]
pub enum Error {
    /// A failed system call, with the OS error number.
    Io(i32),
    /// A symbolic link whose target is not valid UTF-8.
    InvalidData,
    /// The import root held no entries on its first directory read.
    EmptyDirectory,
    /// The same path was recorded twice: an internal invariant was broken.
    DuplicateEntry,
}

impl Error {
    /// The error for a failed system call with OS error number `errno`.
    pub fn from_errno(errno: i32) -> (r: Error)
        ensures
            r == Error::Io(errno),
    {
        Error::Io(errno)
    }

    /// The OS error number carried by this error, if it has one.
    pub fn raw_os_error(&self) -> (r: Option<i32>)
        ensures
            r == (match *self {
                Error::Io(e) => Some(e),
                _ => None,
            }),
    {
        match self {
            Error::Io(e) => Some(*e),
            _ => None,
        }
    }
}

} // verus!
