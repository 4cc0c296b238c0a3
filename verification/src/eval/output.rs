//! What an evaluated tree yields.

use vstd::prelude::*;
use crate::decimal::{decimal, to_decimal};

verus! {

/// The value of one expression.
#[derive(Clone, Copy, Debug, PartialEq)]
pub enum Output {
    Integer(i64),
}

impl Output {
    /// The value as text: an integer in base ten.
    pub open spec fn rendered(self) -> Seq<char> {
        match self {
            Output::Integer(n) => decimal(n as int),
        }
    }

    /// The value as text.
    pub fn to_string(&self) -> (text: String)
        ensures
            text@ == self.rendered(),
    {
        match self {
            Output::Integer(n) => to_decimal(*n),
        }
    }
}

} // verus!
