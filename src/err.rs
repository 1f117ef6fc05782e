use vstd::prelude::*;

verus! {

/// Errors raised by the ledger.
#[derive(Debug, Clone, PartialEq, Eq)]
pub enum GulfStreamError {
    Default,
    WrongParentBlockhash,
    LinkAlreadyFilled,
    BlockIsNotValid,
    WrongIndex,
    BlockNotFound,
    TryLockError,
    DidNotFindPreviousBlock,
    TxIsNotValid,
    Generic(String),
    SerDeError(String),
}

impl Default for GulfStreamError {
    fn default() -> (r: Self)
        ensures
            r is Default,
    {
        GulfStreamError::Default
    }
}

impl GulfStreamError {
    /// Wraps a free-form message as a generic error.
    pub fn map(value: String) -> (r: Self)
        ensures
            r == GulfStreamError::Generic(value),
    {
        GulfStreamError::Generic(value)
    }
}

/// A coarse error for conversions that carry no detail.
#[derive(Debug, Clone, Copy, PartialEq, Eq)]
pub enum Error {
    Default,
    CannotConvertIntoString,
}

impl Default for Error {
    fn default() -> (r: Self)
        ensures
            r == Error::Default,
    {
        Error::Default
    }
}

} // verus!
