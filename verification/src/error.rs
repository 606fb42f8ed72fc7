//! The crate-level error type.

use vstd::prelude::*;

verus! {

/// The I/O error type of the standard library, carried through opaquely.
#[verifier::external_type_specification]
#[verifier::external_body]
pub struct ExIoError(std::io::Error);

/// An error surfaced by the connection.
#[derive(Debug)]
pub enum Error {
    /// An unspecified failure.
    SampleError,
    /// An I/O failure on the transport.
    Network(std::io::Error),
}

impl From<std::io::Error> for Error {
    /// Wraps a transport failure.
    fn from(err: std::io::Error) -> (r: Error) {
        Error::Network(err)
    }
}

impl vstd::std_specs::convert::FromSpecImpl<std::io::Error> for Error {
    open spec fn obeys_from_spec() -> bool {
        true
    }

    open spec fn from_spec(err: std::io::Error) -> Error {
        Error::Network(err)
    }
}

} // verus!
