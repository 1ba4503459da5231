//! Conversions: a wrapper built `From` a machine integer, and a checked
//! conversion that only accepts even numbers.

use vstd::prelude::*;

verus! {

/// A wrapped number.
#[derive(Debug)]
pub struct Number {
    pub value: i32,
}

impl From<i32> for Number {
    fn from(value: i32) -> (n: Number) {
        Number { value }
    }
}

impl vstd::std_specs::convert::FromSpecImpl<i32> for Number {
    open spec fn obeys_from_spec() -> bool {
        true
    }

    open spec fn from_spec(value: i32) -> Number {
        Number { value }
    }
}

/// An even number.
#[derive(Debug, PartialEq, Eq, Structural)]
pub struct EvenNumber(pub i32);

impl EvenNumber {
    /// Accept exactly the even values.
    pub fn try_from(value: i32) -> (r: Result<EvenNumber, ()>)
        ensures
            value % 2 == 0 ==> r == Ok::<EvenNumber, ()>(EvenNumber(value)),
            value % 2 != 0 ==> r == Err::<EvenNumber, ()>(()),
    {
        if value % 2 == 0 {
            Ok(EvenNumber(value))
        } else {
            Err(())
        }
    }
}

} // verus!
