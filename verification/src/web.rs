//! The web demo's error type: everything it can fail with, folded into two
//! cases, with the conversions its `?` operator leans on.

use vstd::prelude::*;

verus! {

/// Declares `std::io::Error` as an opaque outside type, so that the error
/// conversion below can take one.
#[verifier::external_type_specification]
#[verifier::external_body]
pub struct ExIoError(std::io::Error);

/// Why serving failed: an I/O error or a TLS setup error.
#[derive(Clone, Copy, Debug, PartialEq, Eq, Structural)]
pub enum Error {
    IOError,
    TlsError,
}

impl From<std::io::Error> for Error {
    /// Any I/O failure folds to `IOError`.
    fn from(err: std::io::Error) -> (r: Self) {
        Error::IOError
    }
}

impl vstd::std_specs::convert::FromSpecImpl<std::io::Error> for Error {
    open spec fn obeys_from_spec() -> bool {
        true
    }

    open spec fn from_spec(err: std::io::Error) -> Self {
        Error::IOError
    }
}

impl From<crate::tls::Error> for Error {
    /// Any TLS setup failure folds to `TlsError`.
    fn from(err: crate::tls::Error) -> (r: Self) {
        Error::TlsError
    }
}

impl vstd::std_specs::convert::FromSpecImpl<crate::tls::Error> for Error {
    open spec fn obeys_from_spec() -> bool {
        true
    }

    open spec fn from_spec(err: crate::tls::Error) -> Self {
        Error::TlsError
    }
}

} // verus!
