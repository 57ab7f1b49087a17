use vstd::prelude::*;

verus! {

/// Every way a decode can fail. The numeric code of each kind is its
/// position in this list, starting at one.
#[derive(Debug, Clone, Copy, PartialEq, Eq, Structural)]
pub enum Error {
    UnexpectedArgCount,
    UnexpectedArgBytesLength,
    InvalidArgFormat,
    InvalidArgMolFormat,
    InsufficientDNABytes,
    InvalidDNASetSchema,
    InvalidDNAByteLengthSchema,
    InvalidDNARangeSchema,
}

impl Error {
    pub open spec fn spec_code(self) -> u64 {
        match self {
            Error::UnexpectedArgCount => 1,
            Error::UnexpectedArgBytesLength => 2,
            Error::InvalidArgFormat => 3,
            Error::InvalidArgMolFormat => 4,
            Error::InsufficientDNABytes => 5,
            Error::InvalidDNASetSchema => 6,
            Error::InvalidDNAByteLengthSchema => 7,
            Error::InvalidDNARangeSchema => 8,
        }
    }

    /// The process exit status that reports this error.
    pub fn code(&self) -> (r: u64)
        ensures
            r == self.spec_code(),
    {
        match self {
            Error::UnexpectedArgCount => 1,
            Error::UnexpectedArgBytesLength => 2,
            Error::InvalidArgFormat => 3,
            Error::InvalidArgMolFormat => 4,
            Error::InsufficientDNABytes => 5,
            Error::InvalidDNASetSchema => 6,
            Error::InvalidDNAByteLengthSchema => 7,
            Error::InvalidDNARangeSchema => 8,
        }
    }
}

} // verus!
