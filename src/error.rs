use vstd::prelude::*;

verus! {

/// The destination or the source ran out of words mid-operation.
#[derive(Debug, Clone, Copy, PartialEq, Eq, Structural)]
pub struct EndOfInput;

/// The words read do not encode any legal value of the type.
#[derive(Debug, Clone, Copy, PartialEq, Eq, Structural)]
pub struct Invalid;

/// Why a decode failed.
#[derive(Debug, Clone, Copy, PartialEq, Eq, Structural)]
pub enum Error {
    EndOfInput,
    Invalid,
}

impl From<EndOfInput> for Error {
    fn from(e: EndOfInput) -> (r: Self)
        ensures
            r == Error::EndOfInput,
    {
        Error::EndOfInput
    }
}

impl vstd::std_specs::convert::FromSpecImpl<EndOfInput> for Error {
    open spec fn obeys_from_spec() -> bool {
        true
    }

    open spec fn from_spec(v: EndOfInput) -> Error {
        Error::EndOfInput
    }
}

impl From<Invalid> for Error {
    fn from(e: Invalid) -> (r: Self)
        ensures
            r == Error::Invalid,
    {
        Error::Invalid
    }
}

impl vstd::std_specs::convert::FromSpecImpl<Invalid> for Error {
    open spec fn obeys_from_spec() -> bool {
        true
    }

    open spec fn from_spec(v: Invalid) -> Error {
        Error::Invalid
    }
}

} // verus!
