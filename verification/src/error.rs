use vstd::prelude::*;

use crate::pool;

verus! {

/// The error type of std's I/O, declared so a transport-level failure
/// can ride in [`Error`]; the library never inspects it.
#[verifier::external_type_specification]
#[verifier::external_body]
pub struct ExIoError(std::io::Error);

/// The process-level error reported to the operator: a pool fault, or a
/// transport-level I/O failure.
#[derive(Debug)]
pub enum Error {
    Pool(pool::Error),
    Io(std::io::Error),
}

impl From<pool::Error> for Error {
    /// Wraps a pool fault.
    fn from(value: pool::Error) -> (r: Self) {
        Error::Pool(value)
    }
}

impl vstd::std_specs::convert::FromSpecImpl<pool::Error> for Error {
    open spec fn obeys_from_spec() -> bool {
        true
    }

    open spec fn from_spec(v: pool::Error) -> Self {
        Error::Pool(v)
    }
}

impl From<std::io::Error> for Error {
    /// Wraps a transport-level I/O failure.
    fn from(value: std::io::Error) -> (r: Self) {
        Error::Io(value)
    }
}

impl vstd::std_specs::convert::FromSpecImpl<std::io::Error> for Error {
    open spec fn obeys_from_spec() -> bool {
        true
    }

    open spec fn from_spec(v: std::io::Error) -> Self {
        Error::Io(v)
    }
}

} // verus!
