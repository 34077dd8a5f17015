//! Errors raised while reading a header.
use vstd::prelude::*;
use vstd::string::*;

verus! {

/// `std::io::Error`, carried opaquely by [`ErrorType::Io`].
#[verifier::external_type_specification]
#[verifier::external_body]
pub struct ExIoError(std::io::Error);

/// Why a header could not be read.
#[derive(Debug)]
pub enum ErrorType {
    /// The byte source failed.
    Io(std::io::Error),
    /// A failure of this library, by kind.
    Regular(ErrorKind),
    /// A field could not be decoded; the text says why.
    Custom(String),
}

/// The kinds of [`ErrorType::Regular`].
#[derive(Clone, Copy, Debug, Eq, Hash, PartialEq, Structural)]
pub enum ErrorKind {
    /// Fewer bytes than a whole header were available.
    IO,
}

impl ErrorKind {
    /// A fixed description of the kind.
    pub fn as_str(&self) -> (r: &'static str)
        ensures
            *self == ErrorKind::IO ==> r@ == "cryptdatum I/O error"@,
    {
        match *self {
            ErrorKind::IO => "cryptdatum I/O error",
        }
    }
}

impl ErrorType {
    /// A one-line description: the source's own text for `Io`, and
    /// `cryptdatum error: ` followed by the kind or the text otherwise.
    pub fn message(&self) -> (r: String)
        ensures
            self matches ErrorType::Regular(ErrorKind::IO) ==> r@ == "cryptdatum error: IO"@,
            self matches ErrorType::Custom(s) ==> r@ == "cryptdatum error: "@ + s@,
    {
        match self {
            ErrorType::Io(err) => err.to_string(),
            ErrorType::Regular(ErrorKind::IO) => String::from_str("cryptdatum error: IO"),
            ErrorType::Custom(s) => String::from_str("cryptdatum error: ").concat(s.as_str()),
        }
    }
}

} // verus!
