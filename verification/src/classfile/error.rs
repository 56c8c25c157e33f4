//! The errors class-file parsing can end in.
use vstd::prelude::*;
use vstd::std_specs::convert::FromSpecImpl;

use crate::reader::ReadError;

verus! {

/// Why a class file could not be read.
#[derive(Debug, Clone, Copy, PartialEq, Eq, Structural)]
pub enum Error {
    ConstantPoolIndexOutOfBounds,
    ConstantPoolInvalidEntry,
    ConstantPoolTypeMismatch,
    ConstantPoolVerifyError,
    EndOfFile,
    ExpectedNonZero,
    InvalidMagic,
    InvalidString,
}

/// The class-file error that a read error stands for.
pub open spec fn error_of_read(value: ReadError) -> Error {
    match value {
        ReadError::EndOfFile => Error::EndOfFile,
        ReadError::InvalidMagic => Error::InvalidMagic,
        ReadError::InvalidString => Error::InvalidString,
    }
}

/// A read's outcome with its error turned into a class-file error.
pub open spec fn lift_read<T>(r: Result<T, ReadError>) -> Result<T, Error> {
    match r {
        Ok(v) => Ok(v),
        Err(e) => Err(error_of_read(e)),
    }
}

impl From<ReadError> for Error {
    fn from(value: ReadError) -> (res: Self) {
        match value {
            ReadError::EndOfFile => Self::EndOfFile,
            ReadError::InvalidMagic => Self::InvalidMagic,
            ReadError::InvalidString => Self::InvalidString,
        }
    }
}

impl FromSpecImpl<ReadError> for Error {
    open spec fn obeys_from_spec() -> bool {
        true
    }

    open spec fn from_spec(value: ReadError) -> Self {
        error_of_read(value)
    }
}

/// Turns a read error into the class-file error it stands for.
pub fn lift<T>(r: Result<T, ReadError>) -> (res: Result<T, Error>)
    ensures
        res == lift_read(r),
{
    match r {
        Ok(v) => Ok(v),
        Err(e) => Err(Error::from(e)),
    }
}

/// The Java error a class-file error is thrown as.
#[derive(Debug, Clone, Copy, PartialEq, Eq, Structural)]
pub enum ThrownAs {
    VerifyError,
    ClassFormatError,
}

impl Error {
    /// The Java error this error is thrown as, with its message: a damaged
    /// constant pool gives a `VerifyError`, a damaged file a
    /// `ClassFormatError`.
    pub fn thrown_as(self) -> (res: (ThrownAs, &'static str))
        ensures
            self is ConstantPoolIndexOutOfBounds ==> res.0 == ThrownAs::VerifyError && res.1@
                == "Out-of-bounds constant pool index"@,
            self is ConstantPoolInvalidEntry ==> res.0 == ThrownAs::VerifyError && res.1@ == "Invalid constant pool entry"@,
            self is ConstantPoolTypeMismatch ==> res.0 == ThrownAs::VerifyError && res.1@
                == "Type mismatch for constant pool entry"@,
            self is ConstantPoolVerifyError ==> res.0 == ThrownAs::VerifyError && res.1@ == "Constant pool failed verification"@,
            self is EndOfFile ==> res.0 == ThrownAs::ClassFormatError && res.1@ == "Truncated class file"@,
            self is ExpectedNonZero ==> res.0 == ThrownAs::VerifyError && res.1@ == "Illegal zero constant pool index"@,
            self is InvalidMagic ==> res.0 == ThrownAs::ClassFormatError && res.1@ == "Invalid magic value"@,
            self is InvalidString ==> res.0 == ThrownAs::ClassFormatError && res.1@ == "Illegal UTF8 string"@,
    {
        match self {
            Error::ConstantPoolIndexOutOfBounds => (ThrownAs::VerifyError, "Out-of-bounds constant pool index"),
            Error::ConstantPoolInvalidEntry => (ThrownAs::VerifyError, "Invalid constant pool entry"),
            Error::ConstantPoolTypeMismatch => (ThrownAs::VerifyError, "Type mismatch for constant pool entry"),
            Error::ConstantPoolVerifyError => (ThrownAs::VerifyError, "Constant pool failed verification"),
            Error::EndOfFile => (ThrownAs::ClassFormatError, "Truncated class file"),
            Error::ExpectedNonZero => (ThrownAs::VerifyError, "Illegal zero constant pool index"),
            Error::InvalidMagic => (ThrownAs::ClassFormatError, "Invalid magic value"),
            Error::InvalidString => (ThrownAs::ClassFormatError, "Illegal UTF8 string"),
        }
    }
}

} // verus!
