//! A hand-rolled singly linked list of numbers, with its length and a text
//! rendering.

use vstd::prelude::*;
use crate::numerals::{dec_digits, render_u32};

verus! {

use vstd::string::StringExecFns;

/// A cons list of numbers.
pub enum List {
    /// An element and the rest of the list.
    Cons(u32, Box<List>),
    /// The end of the list.
    Nil,
}

impl List {
    /// The elements, head first.
    pub open spec fn view(&self) -> Seq<u32>
        decreases self,
    {
        match self {
            List::Cons(head, tail) => seq![*head] + tail.view(),
            List::Nil => Seq::<u32>::empty(),
        }
    }

    /// The rendering: each element followed by a separator, closed by the
    /// end marker.
    pub open spec fn spec_render(&self) -> Seq<char>
        decreases self,
    {
        match self {
            List::Cons(head, tail) => dec_digits(*head as int) + ", "@ + tail.spec_render(),
            List::Nil => "Nil"@,
        }
    }

    /// An empty list.
    pub fn new() -> (l: List)
        ensures
            l@ == Seq::<u32>::empty(),
    {
        List::Nil
    }

    /// The list with `elem` in front.
    pub fn cons(self, elem: u32) -> (l: List)
        ensures
            l@ == seq![elem] + self@,
    {
        List::Cons(elem, Box::new(self))
    }

    /// How many elements the list holds.
    pub fn len(&self) -> (n: u32)
        requires
            self@.len() <= u32::MAX,
        ensures
            n == self@.len(),
        decreases self,
    {
        match self {
            List::Cons(_, tail) => {
                proof {
                    assert(self@.len() == 1 + tail@.len());
                }
                1 + tail.len()
            }
            List::Nil => 0,
        }
    }

    /// Render the list as text.
    pub fn string_of_t(&self) -> (s: String)
        ensures
            s@ == self.spec_render(),
        decreases self,
    {
        match self {
            List::Cons(head, tail) => {
                let mut s = render_u32(*head);
                s.append(", ");
                let rest = tail.string_of_t();
                s.append(rest.as_str());
                proof {
                    assert(s@ =~= self.spec_render());
                }
                s
            }
            List::Nil => "Nil".to_owned(),
        }
    }
}

} // verus!
