//! Two folds over one sequence, each with its own failure.

use crate::fold::Fold;
use crate::rules::{clones_faithfully, Rules};
use std::convert::Infallible;
use vstd::prelude::*;

verus! {

/// Two folds that advance on the same elements. Its accumulator holds one
/// slot for each: the fold's accumulator, or the error it failed with.
pub struct Zip<Fold1, Fold2> {
    fold1: Fold1,
    fold2: Fold2,
}

impl<Fold1, Fold2> Zip<Fold1, Fold2> {
    /// Zips `fold1`, for the first slot, with `fold2`.
    pub(crate) fn new(fold1: Fold1, fold2: Fold2) -> (zipped: Self)
        ensures
            zipped.first() == fold1,
            zipped.second() == fold2,
    {
        Zip { fold1, fold2 }
    }

    /// The fold of the first slot.
    pub closed spec fn first(&self) -> Fold1 {
        self.fold1
    }

    /// The fold of the second slot.
    pub closed spec fn second(&self) -> Fold2 {
        self.fold2
    }
}

/// A step may be taken on a slot and `elem`: where the slot has failed no
/// step is taken, else the slot's fold is handed a clone of `elem`.
pub open spec fn slot_admits<A, E: Clone, X>(
    rules: Rules<A, E, X>,
    slot: Result<A, X>,
    elem: E,
) -> bool {
    slot matches Ok(acc) ==> forall|dup: E| #[trigger] cloned(elem, dup) ==> rules.admits(acc, dup)
}

/// What a slot may become by a step on `elem`: a slot that has failed stays
/// as it is, another becomes whatever its fold's step on a clone of `elem`
/// results in.
pub open spec fn slot_steps<A, E: Clone, X>(
    rules: Rules<A, E, X>,
    slot: Result<A, X>,
    elem: E,
    next: Result<A, X>,
) -> bool {
    match slot {
        Ok(acc) => exists|dup: E| cloned(elem, dup) && #[trigger] rules.steps(acc, dup, next),
        Err(_) => next == slot,
    }
}

/// The rules of two folds zipped: with `first` and `second` the rules of two
/// folds, these are the rules of the first `zip`ped with the second. A run
/// starts with both slots filled from a fresh accumulator, a step takes a
/// step of each slot, and no step fails.
pub open spec fn zip_rules<A1, X1, A2, X2, E: Clone>(
    first: Rules<A1, E, X1>,
    second: Rules<A2, E, X2>,
) -> Rules<(Result<A1, X1>, Result<A2, X2>), E, Infallible> {
    Rules {
        init: |acc: (Result<A1, X1>, Result<A2, X2>)|
            {
                &&& acc.0 matches Ok(acc1) && first.inits(acc1)
                &&& acc.1 matches Ok(acc2) && second.inits(acc2)
            },
        step_requires: |acc: (Result<A1, X1>, Result<A2, X2>), elem: E|
            slot_admits(first, acc.0, elem) && slot_admits(second, acc.1, elem),
        step_ensures: |
            acc: (Result<A1, X1>, Result<A2, X2>),
            elem: E,
            res: Result<(Result<A1, X1>, Result<A2, X2>), Infallible>,
        |
            {
                &&& res matches Ok(next)
                &&& slot_steps(first, acc.0, elem, next.0)
                &&& slot_steps(second, acc.1, elem, next.1)
            },
    }
}

impl<Fold1, Fold2> Fold for Zip<Fold1, Fold2> where
    Fold1: Fold,
    Fold2: Fold<Element = Fold1::Element>,
    Fold1::Element: Clone,
 {
    type Accumulator = (
        Result<Fold1::Accumulator, Fold1::Error>,
        Result<Fold2::Accumulator, Fold2::Error>,
    );

    type Error = Infallible;

    type Element = Fold1::Element;

    open spec fn view(&self) -> Rules<Self::Accumulator, Self::Element, Self::Error> {
        zip_rules(self.first()@, self.second()@)
    }

    fn init(&mut self) -> (acc: Self::Accumulator) {
        (Ok(self.fold1.init()), Ok(self.fold2.init()))
    }

    fn try_step(&mut self, acc: Self::Accumulator, elem: Self::Element) -> (res: Result<
        Self::Accumulator,
        Self::Error,
    >) {
        let (acc1, acc2) = acc;
        let res1 = match acc1 {
            Ok(acc1) => {
                let dup = elem.clone();
                assert(cloned(elem, dup));
                self.fold1.try_step(acc1, dup)
            },
            Err(err) => Err(err),
        };
        let res2 = match acc2 {
            Ok(acc2) => {
                let dup = elem.clone();
                assert(cloned(elem, dup));
                self.fold2.try_step(acc2, dup)
            },
            Err(err) => Err(err),
        };
        Ok((res1, res2))
    }
}

/// Folding `xs` by `rules` is folding all but the last element into a slot
/// and then taking the slot's step on the last.
pub proof fn lemma_slot_unrolls<A, E: Clone, X>(
    rules: Rules<A, E, X>,
    xs: Seq<E>,
    next: Result<A, X>,
)
    requires
        clones_faithfully::<E>(),
        xs.len() > 0,
    ensures
        rules.folds_to(xs, next) <==> exists|slot: Result<A, X>|
            rules.folds_to(xs.drop_last(), slot) && #[trigger] slot_steps(
                rules,
                slot,
                xs.last(),
                next,
            ),
{
    let ys = xs.drop_last();
    let x = xs.last();
    let last: int = xs.len() - 1;
    if rules.folds_to(xs, next) {
        match next {
            Ok(acc) => {
                let prev = choose|prev: A|
                    rules.reaches(ys, prev) && #[trigger] rules.steps(prev, x, Ok(acc));
                assert(rules.folds_to(ys, Ok(prev)));
                assert(slot_steps(rules, Ok(prev), x, next));
            },
            Err(err) => {
                let k: int = choose|k: int| rules.fails_at(xs, k, err);
                let prev = choose|prev: A|
                    rules.reaches(xs.take(k), prev) && #[trigger] rules.steps(
                        prev,
                        xs[k],
                        Err(err),
                    );
                if k == last {
                    assert(rules.folds_to(ys, Ok(prev)));
                    assert(slot_steps(rules, Ok(prev), x, next));
                } else {
                    assert(ys.take(k) == xs.take(k));
                    assert(ys[k] == xs[k]);
                    assert(rules.fails_at(ys, k, err));
                    assert(slot_steps(rules, Err(err), x, next));
                }
            },
        }
    }
    if exists|slot: Result<A, X>|
        rules.folds_to(ys, slot) && #[trigger] slot_steps(rules, slot, x, next) {
        let slot = choose|slot: Result<A, X>|
            rules.folds_to(ys, slot) && #[trigger] slot_steps(rules, slot, x, next);
        match slot {
            Ok(acc) => {
                let dup = choose|dup: E| cloned(x, dup) && #[trigger] rules.steps(acc, dup, next);
                match next {
                    Ok(_) => {},
                    Err(err) => {
                        assert(rules.fails_at(xs, last, err));
                    },
                }
            },
            Err(err) => {
                let k: int = choose|k: int| rules.fails_at(ys, k, err);
                assert(ys.take(k) == xs.take(k));
                assert(rules.fails_at(xs, k, err));
            },
        }
    }
}

/// What a zip holds in its two slots after `xs` is what each of the two folds
/// alone folds `xs` to: its last accumulator, or the first error it met. So a
/// failure of one fold neither stops the other nor is overwritten by a later
/// one.
pub proof fn lemma_zip_reaches<A1, X1, A2, X2, E: Clone>(
    first: Rules<A1, E, X1>,
    second: Rules<A2, E, X2>,
    xs: Seq<E>,
    acc: (Result<A1, X1>, Result<A2, X2>),
)
    requires
        clones_faithfully::<E>(),
    ensures
        zip_rules(first, second).reaches(xs, acc) <==> first.folds_to(xs, acc.0)
            && second.folds_to(xs, acc.1),
    decreases xs.len(),
{
    let zipped = zip_rules(first, second);
    if xs.len() > 0 {
        let ys = xs.drop_last();
        let x = xs.last();
        lemma_slot_unrolls(first, xs, acc.0);
        lemma_slot_unrolls(second, xs, acc.1);
        if zipped.reaches(xs, acc) {
            let prev = choose|prev: (Result<A1, X1>, Result<A2, X2>)|
                zipped.reaches(ys, prev) && #[trigger] zipped.steps(prev, x, Ok(acc));
            lemma_zip_reaches(first, second, ys, prev);
        }
        if first.folds_to(xs, acc.0) && second.folds_to(xs, acc.1) {
            let slot1 = choose|slot: Result<A1, X1>|
                first.folds_to(ys, slot) && #[trigger] slot_steps(first, slot, x, acc.0);
            let slot2 = choose|slot: Result<A2, X2>|
                second.folds_to(ys, slot) && #[trigger] slot_steps(second, slot, x, acc.1);
            lemma_zip_reaches(first, second, ys, (slot1, slot2));
            assert(zipped.steps((slot1, slot2), x, Ok(acc)));
        }
    }
}

/// Zipping two deterministic folds gives what two passes give: the slots hold
/// the results of folding `xs` by each fold alone.
pub proof fn lemma_zip_fold_equals<A1, X1, A2, X2, E: Clone>(
    first: Rules<A1, E, X1>,
    second: Rules<A2, E, X2>,
    xs: Seq<E>,
    acc: (Result<A1, X1>, Result<A2, X2>),
    res1: Result<A1, X1>,
    res2: Result<A2, X2>,
)
    requires
        clones_faithfully::<E>(),
        first.deterministic(),
        second.deterministic(),
        zip_rules(first, second).reaches(xs, acc),
        first.folds_to(xs, res1),
        second.folds_to(xs, res2),
    ensures
        acc == (res1, res2),
{
    lemma_zip_reaches(first, second, xs, acc);
    first.lemma_folds_to_one(xs, acc.0, res1);
    second.lemma_folds_to_one(xs, acc.1, res2);
}

/// A zip may be run over `xs` wherever each of its two folds may. Of a fold
/// that has failed no further step is taken, so none has to be admitted.
pub proof fn lemma_zip_admits_run<A1, X1, A2, X2, E: Clone>(
    first: Rules<A1, E, X1>,
    second: Rules<A2, E, X2>,
    xs: Seq<E>,
)
    requires
        clones_faithfully::<E>(),
        first.admits_run(xs),
        second.admits_run(xs),
    ensures
        zip_rules(first, second).admits_run(xs),
{
    let zipped = zip_rules(first, second);
    assert forall|k: int, prev: (Result<A1, X1>, Result<A2, X2>)|
        0 <= k < xs.len() && zipped.reaches(xs.take(k), prev) implies #[trigger] zipped.admits(
        prev,
        xs[k],
    ) by {
        lemma_zip_reaches(first, second, xs.take(k), prev);
    }
}

/// No step of a zip fails: a failure of one of its folds is held in the
/// accumulator.
pub proof fn lemma_zip_never_fails<A1, X1, A2, X2, E: Clone>(
    first: Rules<A1, E, X1>,
    second: Rules<A2, E, X2>,
)
    ensures
        zip_rules(first, second).never_fails(),
{
}

} // verus!
