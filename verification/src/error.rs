//! Errors of store operations.

use vstd::prelude::*;

verus! {

/// Why an operation on a store has no result.
#[derive(Clone, Copy, Debug, PartialEq, Eq)]
pub enum Error {
    /// There is no value for the specified key.
    NotPresent,
    /// Several rows have the same key in the index of this name.
    NonUniqueIndexKey(&'static str),
    /// The subscriber is not (or no longer) registered.
    UnknownSubscriber,
}

/// Treat a missing value as an absent option rather than as an error.
pub trait KvErrorExt<T>: Sized {
    /// What this holds, as a result.
    spec fn outcome(&self) -> Result<T, Error>;

    /// Whether there is a value.
    fn is_some(&self) -> (r: bool)
        ensures
            r <==> self.outcome() is Ok,
    ;

    /// Whether the value is missing (rather than unavailable because of another error).
    fn is_none(&self) -> (r: bool)
        ensures
            r <==> self.outcome() == Err::<T, Error>(Error::NotPresent),
    ;

    /// The value, if there is one.
    ///
    /// The only error may be that the value is missing.
    fn unwrap_opt(self) -> (r: Option<T>)
        requires
            self.outcome() matches Err(e) ==> e == Error::NotPresent,
        ensures
            r == match self.outcome() {
                Ok(value) => Some(value),
                Err(_) => None,
            },
    ;
}

impl<T> KvErrorExt<T> for Result<T, Error> {
    open spec fn outcome(&self) -> Result<T, Error> {
        *self
    }

    fn is_some(&self) -> (r: bool) {
        match self {
            Ok(_) => true,
            Err(_) => false,
        }
    }

    fn is_none(&self) -> (r: bool) {
        match self {
            Err(Error::NotPresent) => true,
            _ => false,
        }
    }

    fn unwrap_opt(self) -> (r: Option<T>) {
        match self {
            Ok(value) => Some(value),
            Err(Error::NotPresent) => None,
            Err(_) => vstd::pervasive::unreached(),
        }
    }
}

} // verus!
