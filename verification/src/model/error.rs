use vstd::prelude::*;
use vstd::string::StringExecFns;

verus! {

/// Errors surfaced by the store and by command parsing.
///
/// `KeyNotFound`, `ValueNotFound` and `UnknownCommand` describe the shape of
/// a request and are always rendered as a response line; `DbPoisoned` marks a
/// store whose lock became unusable and is terminal for that store.
#[derive(Debug, Clone, Copy, PartialEq, Eq, Structural)]
pub enum Error {
    KeyNotFound,
    ValueNotFound,
    UnknownCommand,
    DbPoisoned,
}

impl Error {
    /// The message text rendered for this error.
    pub open spec fn message_spec(&self) -> Seq<char> {
        match self {
            Error::KeyNotFound => "Key not found"@,
            Error::ValueNotFound => "Value not found"@,
            Error::UnknownCommand => "Unknown command"@,
            Error::DbPoisoned => "Db mutex is poisoned"@,
        }
    }

    /// The message text rendered for this error.
    pub fn message(&self) -> (r: String)
        ensures
            r@ == self.message_spec(),
    {
        match self {
            Error::KeyNotFound => String::from_str("Key not found"),
            Error::ValueNotFound => String::from_str("Value not found"),
            Error::UnknownCommand => String::from_str("Unknown command"),
            Error::DbPoisoned => String::from_str("Db mutex is poisoned"),
        }
    }
}

} // verus!
