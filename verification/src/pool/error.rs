use vstd::prelude::*;

verus! {

/// Errors raised by the worker pool.
#[derive(Debug, Clone, Copy, PartialEq, Eq, Structural)]
pub enum Error {
    InvalidPoolSize,
    SenderIsNil,
    ReceiverIsDropped,
    MutexPoisoned,
}

} // verus!
