//! The errors the library reports.
use vstd::prelude::*;

verus! {

/// std's I/O error, carried through as an opaque value.
#[verifier::external_type_specification]
#[verifier::external_body]
pub struct ExIoError(std::io::Error);

/// Why a session call failed.
#[derive(Debug)]
pub enum Error {
    /// The transport failed.
    IoError(std::io::Error),
    /// A response could not be read as the expected value; the reader's message.
    InvalidResponse(String),
    /// A response lacked what the protocol expected of it.
    UnknownInvalidResponse,
    /// The credentials or the tokens were rejected.
    InvalidCredentials,
}

impl Error {
    /// A one-line description of the error.
    pub fn kind_name(&self) -> (r: &'static str)
        ensures
            r@ == match self {
                Error::IoError(_) => "IoError"@,
                Error::InvalidResponse(_) => "InvalidResponse"@,
                Error::UnknownInvalidResponse => "UnknownInvalidResponse"@,
                Error::InvalidCredentials => "InvalidCredentials"@,
            },
    {
        match self {
            Error::IoError(_) => "IoError",
            Error::InvalidResponse(_) => "InvalidResponse",
            Error::UnknownInvalidResponse => "UnknownInvalidResponse",
            Error::InvalidCredentials => "InvalidCredentials",
        }
    }
}

impl From<std::io::Error> for Error {
    fn from(value: std::io::Error) -> (r: Error)
        ensures
            r == Error::IoError(value),
    {
        Error::IoError(value)
    }
}

impl vstd::std_specs::convert::FromSpecImpl<std::io::Error> for Error {
    open spec fn obeys_from_spec() -> bool {
        true
    }

    open spec fn from_spec(v: std::io::Error) -> Error {
        Error::IoError(v)
    }
}

} // verus!
