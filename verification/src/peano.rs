//! Peano numbers at the type level: zero, successors, and a less-than
//! relation carried by trait implementations.

use vstd::prelude::*;

verus! {

/// The number zero.
#[allow(non_camel_case_types)]
pub struct _0;

/// The successor of a number.
pub struct Succ<T>(pub T);

/// One.
#[allow(non_camel_case_types)]
pub type _1 = Succ<_0>;

/// Two.
#[allow(non_camel_case_types)]
pub type _2 = Succ<_1>;

/// Three.
#[allow(non_camel_case_types)]
pub type _3 = Succ<_2>;

/// Four.
#[allow(non_camel_case_types)]
pub type _4 = Succ<_3>;

/// Five.
#[allow(non_camel_case_types)]
pub type _5 = Succ<_4>;

/// The natural numbers: zero and every successor of one.
pub trait Nat {

}

impl Nat for _0 {

}

impl<T: Nat> Nat for Succ<T> {

}

/// Compiles exactly when `T` is a natural number.
pub fn test_is_nat<T: Nat>() {
}

/// `A` is less than `B`; `check` compiles exactly where an implementation
/// witnesses it.
pub trait Lt<A: Nat, B: Nat> {
    fn check();
}

/// The nonzero natural numbers.
pub trait NonZero: Nat {

}

impl<N: Nat> NonZero for Succ<N> {

}

/// A witness that `A < B`.
pub struct ProofLt<A: Nat, B: Nat>(pub A, pub B);

/// Zero is less than any nonzero number.
impl<N: NonZero> Lt<_0, N> for ProofLt<_0, N> {
    fn check() {
    }
}

/// Successors compare as what they succeed.
impl<A: Nat, B: Nat> Lt<Succ<A>, Succ<B>> for ProofLt<Succ<A>, Succ<B>> where ProofLt<A, B>: Lt<
    A,
    B,
> {
    fn check() {
    }
}

} // verus!
