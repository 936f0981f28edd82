//! Folds made of a seed and a step function.

use crate::fold::Fold;
use crate::rules::Rules;
use std::convert::Infallible;
use std::marker::PhantomData;
use vstd::prelude::*;

verus! {

/// A fold that starts from a clone of a seed and steps by a function that
/// cannot fail.
pub struct FromFn<A, E, F> {
    acc: A,
    fun: F,
    phantom: PhantomData<E>,
}

impl<A, E, F> FromFn<A, E, F> {
    /// The value that every run starts from a clone of.
    pub closed spec fn seed(&self) -> A {
        self.acc
    }

    /// The function that takes the steps.
    pub closed spec fn step_fn(&self) -> F {
        self.fun
    }
}

/// The rules of a fold made of `seed` and `fun`: a run starts from a clone of
/// `seed`, a step may be taken where `fun` may be called, and it results in
/// what `fun` returns.
pub open spec fn fn_rules<Acc: Clone, Elem, F: Fn(Acc, Elem) -> Acc>(seed: Acc, fun: F) -> Rules<
    Acc,
    Elem,
    Infallible,
> {
    Rules {
        init: |acc: Acc| cloned(seed, acc),
        step_requires: |acc: Acc, elem: Elem| call_requires(fun, (acc, elem)),
        step_ensures: |acc: Acc, elem: Elem, res: Result<Acc, Infallible>|
            res matches Ok(next) && call_ensures(fun, (acc, elem), next),
    }
}

impl<Acc, Elem, F> Fold for FromFn<Acc, Elem, F> where Acc: Clone, F: Fn(Acc, Elem) -> Acc {
    type Accumulator = Acc;

    type Error = Infallible;

    type Element = Elem;

    open spec fn view(&self) -> Rules<Self::Accumulator, Self::Element, Self::Error> {
        fn_rules(self.seed(), self.step_fn())
    }

    fn init(&mut self) -> (acc: Self::Accumulator) {
        self.acc.clone()
    }

    fn try_step(&mut self, acc: Self::Accumulator, elem: Self::Element) -> (res: Result<
        Self::Accumulator,
        Self::Error,
    >) {
        Ok((self.fun)(acc, elem))
    }
}

/// Makes a fold of the seed `acc` and the step function `f`.
pub fn from_fn<A, E, F>(acc: A, f: F) -> (fold: FromFn<A, E, F>)
    ensures
        fold.seed() == acc,
        fold.step_fn() == f,
{
    FromFn { acc, fun: f, phantom: PhantomData::<E> }
}

/// A fold that starts from a clone of a seed and steps by a function that
/// may fail.
pub struct FromTryFn<Acc, Elem, Fun> {
    acc: Acc,
    fun: Fun,
    phantom: PhantomData<Elem>,
}

impl<Acc, Elem, Fun> FromTryFn<Acc, Elem, Fun> {
    /// The value that every run starts from a clone of.
    pub closed spec fn seed(&self) -> Acc {
        self.acc
    }

    /// The function that takes the steps.
    pub closed spec fn step_fn(&self) -> Fun {
        self.fun
    }
}

/// The rules of a fold made of `seed` and `fun`: a run starts from a clone of
/// `seed`, a step may be taken where `fun` may be called, and it results in
/// what `fun` returns, an accumulator or an error.
pub open spec fn try_fn_rules<Acc: Clone, Elem, Error, Fun: Fn(Acc, Elem) -> Result<Acc, Error>>(
    seed: Acc,
    fun: Fun,
) -> Rules<Acc, Elem, Error> {
    Rules {
        init: |acc: Acc| cloned(seed, acc),
        step_requires: |acc: Acc, elem: Elem| call_requires(fun, (acc, elem)),
        step_ensures: |acc: Acc, elem: Elem, res: Result<Acc, Error>|
            call_ensures(fun, (acc, elem), res),
    }
}

impl<Acc, Error, Elem, Fun> Fold for FromTryFn<Acc, Elem, Fun> where
    Acc: Clone,
    Fun: Fn(Acc, Elem) -> Result<Acc, Error>,
 {
    type Accumulator = Acc;

    type Error = Error;

    type Element = Elem;

    open spec fn view(&self) -> Rules<Acc, Elem, Error> {
        try_fn_rules(self.seed(), self.step_fn())
    }

    fn init(&mut self) -> (acc: Acc) {
        self.acc.clone()
    }

    fn try_step(&mut self, acc: Acc, elem: Elem) -> (res: Result<Acc, Error>) {
        (self.fun)(acc, elem)
    }
}

/// Makes a fold of the seed `acc` and the step function `fun`.
pub fn from_try_fn<Acc, Elem, Fun>(acc: Acc, fun: Fun) -> (fold: FromTryFn<Acc, Elem, Fun>)
    ensures
        fold.seed() == acc,
        fold.step_fn() == fun,
{
    FromTryFn { acc, fun, phantom: PhantomData::<Elem> }
}

} // verus!
