//! Small printable record types.

use vstd::prelude::*;

verus! {

/// A number that only knows how to show itself for debugging.
#[derive(Debug)]
pub struct DebugPrintable(pub i32);

/// A person with a borrowed name.
#[derive(Debug)]
pub struct Person<'a> {
    pub name: &'a str,
    pub age: u8,
}

} // verus!
