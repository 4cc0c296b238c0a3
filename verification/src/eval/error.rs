//! What can go wrong while a tree is evaluated.

use vstd::prelude::*;
use vstd::string::StringExecFns;

verus! {

/// A failure of one expression; other expressions of the same input are unaffected.
#[derive(Clone, Copy, Debug, PartialEq)]
pub enum Error {
    DivideByZero,
    NegativePowerNotImplemented,
}

impl Error {
    /// The error in words.
    pub open spec fn message(self) -> Seq<char> {
        match self {
            Error::DivideByZero => "divide by zero"@,
            Error::NegativePowerNotImplemented => "negative powers are not implemented"@,
        }
    }

    /// The error in words.
    pub fn to_string(&self) -> (text: String)
        ensures
            text@ == self.message(),
    {
        match self {
            Error::DivideByZero => String::from_str("divide by zero"),
            Error::NegativePowerNotImplemented => String::from_str(
                "negative powers are not implemented",
            ),
        }
    }
}

} // verus!
