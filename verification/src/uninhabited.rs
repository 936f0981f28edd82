//! Types without values.

use std::convert::Infallible;
use vstd::prelude::*;

verus! {

/// Holds of no value. A function that requires it of an argument can never be
/// called.
pub open spec fn occurs<T>(value: T) -> bool {
    false
}

/// A type that has no values, such as the error of a fold that cannot fail.
pub trait Uninhabited {
    /// Turns a value of this type into a value of any type. As there is no
    /// value to call it on, no call can be made, and the precondition says
    /// just that: it holds of no argument.
    fn absurd<A>(self) -> A
        requires
            occurs(self),
    ;
}

/// Matches on a value of `std::convert::Infallible`, an enum without
/// variants: the match has no arm. Nothing is claimed of the result.
#[verifier::external_body]
fn match_infallible<A>(never: Infallible) -> A {
    match never {
    }
}

impl Uninhabited for Infallible {
    fn absurd<A>(self) -> A {
        match_infallible(self)
    }
}

} // verus!
