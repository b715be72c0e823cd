//! The errors of this crate.

use vstd::prelude::*;

verus! {

/// A failure of the reader, or of an attempt to read more than it holds.
#[derive(Debug, Clone, Copy, PartialEq, Eq)]
pub enum IoError {
    /// The end of the file came before the bytes that were needed.
    UnexpectedEof(&'static str),
    /// Any other failure.
    Other(&'static str),
}

/// Why no Exif data could be extracted.
#[derive(Debug, Clone, Copy, PartialEq, Eq)]
pub enum Error {
    /// The file is malformed.
    InvalidFormat(&'static str),
    /// The reader failed.
    Io(IoError),
    /// The file holds no Exif data.
    NotFound(&'static str),
    /// The file uses a feature that is not supported.
    NotSupported(&'static str),
}

/// Most errors are about the format of the file.
impl From<&'static str> for Error {
    fn from(err: &'static str) -> (error: Error) {
        Error::InvalidFormat(err)
    }
}

impl vstd::std_specs::convert::FromSpecImpl<&'static str> for Error {
    open spec fn obeys_from_spec() -> bool {
        true
    }

    open spec fn from_spec(err: &'static str) -> Error {
        Error::InvalidFormat(err)
    }
}

} // verus!
