//! The error type of the library: everything that can go wrong while
//! selecting and acting on processes.

use vstd::prelude::*;
use crate::psentry::ParsingError;

verus! {

#[verifier::external_type_specification]
#[verifier::external_body]
pub struct ExFromUtf8Error(std::string::FromUtf8Error);

#[verifier::external_type_specification]
#[verifier::external_body]
pub struct ExIoError(std::io::Error);

/// An umbrella error that carries whatever went wrong while processing a command.
#[derive(Debug)]
#[allow(inconsistent_fields)]
pub enum Error {
    /// The output of an outside command was not valid UTF-8.
    Utf8Error { e: std::string::FromUtf8Error },
    /// An outside command could not be run.
    IOError { e: std::io::Error },
    /// The user's pattern is not a valid regular expression; the regex
    /// engine's explanation.
    RegexError { e: String },
    /// A line of the process listing does not have the expected shape.
    ParsingError { e: ParsingError },
    /// A user lookup failed: the user is unknown, or the lookup gave no
    /// id or no name.
    LookupError,
}

/// The result of an operation that may fail with an [`Error`].
pub type Result<T> = std::result::Result<T, Error>;

impl From<ParsingError> for Error {
    fn from(e: ParsingError) -> Self {
        Error::ParsingError { e }
    }
}

impl vstd::std_specs::convert::FromSpecImpl<ParsingError> for Error {
    open spec fn obeys_from_spec() -> bool {
        true
    }

    open spec fn from_spec(e: ParsingError) -> Self {
        Error::ParsingError { e }
    }
}

impl From<std::string::FromUtf8Error> for Error {
    fn from(e: std::string::FromUtf8Error) -> Self {
        Error::Utf8Error { e }
    }
}

impl vstd::std_specs::convert::FromSpecImpl<std::string::FromUtf8Error> for Error {
    open spec fn obeys_from_spec() -> bool {
        true
    }

    open spec fn from_spec(e: std::string::FromUtf8Error) -> Self {
        Error::Utf8Error { e }
    }
}

impl From<std::io::Error> for Error {
    fn from(e: std::io::Error) -> Self {
        Error::IOError { e }
    }
}

impl vstd::std_specs::convert::FromSpecImpl<std::io::Error> for Error {
    open spec fn obeys_from_spec() -> bool {
        true
    }

    open spec fn from_spec(e: std::io::Error) -> Self {
        Error::IOError { e }
    }
}

} // verus!
