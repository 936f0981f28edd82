//! The fold interface and its sequential driver.

use crate::rules::Rules;
use crate::try_zip::TryZip;
use crate::uninhabited::Uninhabited;
use crate::zip::Zip;
use vstd::prelude::*;
use vstd::std_specs::iter::IteratorSpec;

verus! {

/// A reduction over a sequence: an initial accumulator and a step that
/// combines the accumulator with one element, or fails.
pub trait Fold {
    /// The running state of the reduction.
    type Accumulator;

    /// What a step that fails returns.
    type Error;

    /// What the sequence holds.
    type Element;

    /// The rules that this fold goes by. Neither `init` nor `try_step` changes
    /// them, so a fold can be driven again. An implementor states them; of a
    /// fold that states none nothing is known: it may start from any
    /// accumulator and step to any result.
    open spec fn view(&self) -> Rules<Self::Accumulator, Self::Element, Self::Error> {
        Rules {
            init: |acc: Self::Accumulator| true,
            step_requires: |acc: Self::Accumulator, elem: Self::Element| true,
            step_ensures: |
                acc: Self::Accumulator,
                elem: Self::Element,
                res: Result<Self::Accumulator, Self::Error>,
            | true,
        }
    }

    /// A fresh accumulator to start a run from.
    fn init(&mut self) -> (acc: Self::Accumulator)
        ensures
            final(self)@ == old(self)@,
            old(self)@.inits(acc),
    ;

    /// Combines `acc` with `elem`.
    fn try_step(&mut self, acc: Self::Accumulator, elem: Self::Element) -> (res: Result<
        Self::Accumulator,
        Self::Error,
    >)
        requires
            old(self)@.admits(acc, elem),
        ensures
            final(self)@ == old(self)@,
            old(self)@.steps(acc, elem, res),
    ;

    /// Runs the fold over `iter` from a fresh accumulator and stops at the
    /// first failure.
    ///
    /// The iterator has to be one whose items can be spoken of beforehand and
    /// that comes to an end, and each step that the run may come to take has
    /// to be admitted.
    fn try_fold(&mut self, iter: impl Iterator<Item = Self::Element>) -> (res: Result<
        Self::Accumulator,
        Self::Error,
    >)
        requires
            iter.obeys_prophetic_iter_laws(),
            iter.decrease() is Some,
            old(self)@.admits_run(iter.remaining()),
        ensures
            final(self)@ == old(self)@,
            old(self)@.folds_to(iter.remaining(), res),
    {
        let ghost xs = iter.remaining();
        let ghost mut n: int = 0;
        let mut rest = iter;
        let mut acc = self.init();
        loop
            invariant
                self@ == old(self)@,
                xs == iter.remaining(),
                rest.obeys_prophetic_iter_laws(),
                rest.decrease() is Some,
                0 <= n <= xs.len(),
                rest.remaining() == xs.skip(n),
                self@.reaches(xs.take(n), acc),
                self@.admits_run(xs),
            decreases rest.decrease()->0,
        {
            match rest.next() {
                None => {
                    assert(xs.take(n) == xs);
                    return Ok(acc);
                },
                Some(elem) => {
                    let ghost rules = self@;
                    let ghost prev = acc;
                    match self.try_step(acc, elem) {
                        Ok(next) => {
                            proof {
                                let upto = xs.take(n + 1);
                                assert(upto.drop_last() == xs.take(n));
                                assert(rules.steps(prev, upto.last(), Ok(next)));
                                n = n + 1;
                            }
                            acc = next;
                        },
                        Err(err) => {
                            assert(rules.fails_at(xs, n, err));
                            return Err(err);
                        },
                    }
                },
            }
        }
    }

    /// Runs a fold that cannot fail over `iter` and returns the last
    /// accumulator.
    ///
    /// That the error type has no values is known to the compiler but not to
    /// the logic, where it is stated of the rules: none of their steps fails.
    fn fold(&mut self, iter: impl Iterator<Item = Self::Element>) -> (acc: Self::Accumulator) where
        Self::Error: Uninhabited,

        requires
            iter.obeys_prophetic_iter_laws(),
            iter.decrease() is Some,
            old(self)@.admits_run(iter.remaining()),
            old(self)@.never_fails(),
        ensures
            final(self)@ == old(self)@,
            old(self)@.reaches(iter.remaining(), acc),
    {
        match self.try_fold(iter) {
            Ok(acc) => acc,
            Err(err) => err.absurd(),
        }
    }

    /// Pairs this fold with `other`: both see every element, and a failure of
    /// one does not stop the other.
    fn zip<F2>(self, other: F2) -> (zipped: Zip<Self, F2>) where Self: Sized
        ensures
            zipped.first() == self,
            zipped.second() == other,
    {
        Zip::new(self, other)
    }

    /// Pairs this fold with `other`: both see every element, and the first
    /// failure of either ends the run.
    fn try_zip<F2>(self, other: F2) -> (zipped: TryZip<Self, F2>) where Self: Sized
        ensures
            zipped.first() == self,
            zipped.second() == other,
    {
        TryZip::new(self, other)
    }
}

/// A fold that has been driven folds as before. Driving it leaves its rules as
/// they were, so `after`, the fold as a first run over `xs` left it, folds
/// `xs` to what `before` could fold it to; and where the rules are
/// deterministic that is one result, which the second run gives again.
pub proof fn lemma_second_run_agrees<F: Fold>(
    before: F,
    after: F,
    xs: Seq<F::Element>,
    first: Result<F::Accumulator, F::Error>,
    second: Result<F::Accumulator, F::Error>,
)
    requires
        after@ == before@,
        before@.deterministic(),
        before@.folds_to(xs, first),
        after@.folds_to(xs, second),
    ensures
        first == second,
{
    before@.lemma_folds_to_one(xs, first, second);
}

} // verus!
