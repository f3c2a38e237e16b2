//! Errors of file operations.

use vstd::prelude::*;

verus! {

/// An I/O failure, with whether it came from strict UTF-8 decoding.
#[derive(Debug)]
pub struct IoError {
    pub message: String,
    pub invalid_utf8: bool,
}

/// Errors that can occur during flowmark operations.
#[derive(Debug)]
pub enum Error {
    Io(IoError),
}

impl Error {
    /// Whether this error was caused by strict UTF-8 decoding.
    pub fn is_invalid_utf8(&self) -> (b: bool)
        ensures
            b == match self {
                Error::Io(e) => e.invalid_utf8,
            },
    {
        match self {
            Error::Io(e) => e.invalid_utf8,
        }
    }
}

} // verus!
