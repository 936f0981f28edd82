//! Two folds over one sequence that succeed or fail together.

use crate::fold::Fold;
use crate::rules::{clones_faithfully, Rules};
use vstd::prelude::*;

verus! {

/// Two folds with one error type that advance on the same elements, the
/// first before the second. The first failure of either ends the run.
pub struct TryZip<Fold1, Fold2> {
    fold1: Fold1,
    fold2: Fold2,
}

impl<Fold1, Fold2> TryZip<Fold1, Fold2> {
    /// Pairs `fold1`, which steps first, with `fold2`.
    pub(crate) fn new(fold1: Fold1, fold2: Fold2) -> (zipped: Self)
        ensures
            zipped.first() == fold1,
            zipped.second() == fold2,
    {
        TryZip { fold1, fold2 }
    }

    /// The fold that steps first.
    pub closed spec fn first(&self) -> Fold1 {
        self.fold1
    }

    /// The fold that steps second.
    pub closed spec fn second(&self) -> Fold2 {
        self.fold2
    }
}

/// The rules of two folds that succeed or fail together: with `first` and
/// `second` the rules of two folds, these are the rules of the first
/// `try_zip`ped with the second. The first fold is handed a clone of the
/// element; the second is handed the element itself, and only where the
/// first did not fail.
pub open spec fn try_zip_rules<A1, A2, E: Clone, X>(
    first: Rules<A1, E, X>,
    second: Rules<A2, E, X>,
) -> Rules<(A1, A2), E, X> {
    Rules {
        init: |acc: (A1, A2)| first.inits(acc.0) && second.inits(acc.1),
        step_requires: |acc: (A1, A2), elem: E|
            forall|dup: E| #[trigger]
                cloned(elem, dup) ==> {
                    &&& first.admits(acc.0, dup)
                    &&& (exists|next1: A1| #[trigger] first.steps(acc.0, dup, Ok(next1)))
                        ==> second.admits(acc.1, elem)
                },
        step_ensures: |acc: (A1, A2), elem: E, res: Result<(A1, A2), X>|
            exists|dup: E|
                cloned(elem, dup) && #[trigger] try_zip_steps(first, second, acc, dup, elem, res),
    }
}

/// What a step of the pair may result in, when the first fold is handed
/// `elem1` and the second `elem2`.
pub open spec fn try_zip_steps<A1, A2, E, X>(
    first: Rules<A1, E, X>,
    second: Rules<A2, E, X>,
    acc: (A1, A2),
    elem1: E,
    elem2: E,
    res: Result<(A1, A2), X>,
) -> bool {
    match res {
        Ok(next) => first.steps(acc.0, elem1, Ok(next.0)) && second.steps(acc.1, elem2, Ok(next.1)),
        Err(err) => {
            ||| first.steps(acc.0, elem1, Err(err))
            ||| exists|next1: A1|
                #[trigger] first.steps(acc.0, elem1, Ok(next1)) && second.steps(
                    acc.1,
                    elem2,
                    Err(err),
                )
        },
    }
}

impl<Fold1, Fold2> Fold for TryZip<Fold1, Fold2> where
    Fold1: Fold,
    Fold2: Fold<Element = Fold1::Element, Error = Fold1::Error>,
    Fold1::Element: Clone,
 {
    type Accumulator = (Fold1::Accumulator, Fold2::Accumulator);

    type Error = Fold1::Error;

    type Element = Fold1::Element;

    open spec fn view(&self) -> Rules<Self::Accumulator, Self::Element, Self::Error> {
        try_zip_rules(self.first()@, self.second()@)
    }

    fn init(&mut self) -> (acc: Self::Accumulator) {
        (self.fold1.init(), self.fold2.init())
    }

    fn try_step(&mut self, acc: Self::Accumulator, elem: Self::Element) -> (res: Result<
        Self::Accumulator,
        Self::Error,
    >) {
        let ghost first = self.fold1@;
        let ghost second = self.fold2@;
        let (acc1, acc2) = acc;
        let dup = elem.clone();
        assert(cloned(elem, dup));
        let ghost rules = self@;
        assert forall|res: Result<Self::Accumulator, Self::Error>|
            try_zip_steps(first, second, acc, dup, elem, res) implies #[trigger] rules.steps(
            acc,
            elem,
            res,
        ) by {}
        let res1 = self.fold1.try_step(acc1, dup)?;
        let res2 = self.fold2.try_step(acc2, elem)?;
        Ok((res1, res2))
    }
}

/// The second fold's steps are admitted wherever a run of the pair over `xs`
/// may come to take them: on each element that the first fold passes.
pub open spec fn admits_run_behind<A1, A2, E, X>(
    first: Rules<A1, E, X>,
    second: Rules<A2, E, X>,
    xs: Seq<E>,
) -> bool {
    forall|k: int, prev: A2|
        0 <= k < xs.len() && first.passes(xs.take(k + 1)) && second.reaches(xs.take(k), prev)
            ==> #[trigger] second.admits(prev, xs[k])
}

/// Fusing two folds does not change what they accumulate: the pair passes
/// `xs` with two accumulators just where each fold alone passes `xs` with
/// its own.
pub proof fn lemma_try_zip_reaches<A1, A2, E: Clone, X>(
    first: Rules<A1, E, X>,
    second: Rules<A2, E, X>,
    xs: Seq<E>,
    acc: (A1, A2),
)
    requires
        clones_faithfully::<E>(),
    ensures
        try_zip_rules(first, second).reaches(xs, acc) <==> first.reaches(xs, acc.0)
            && second.reaches(xs, acc.1),
    decreases xs.len(),
{
    let pair = try_zip_rules(first, second);
    if xs.len() > 0 {
        let ys = xs.drop_last();
        let x = xs.last();
        if pair.reaches(xs, acc) {
            let prev = choose|prev: (A1, A2)|
                pair.reaches(ys, prev) && #[trigger] pair.steps(prev, x, Ok(acc));
            lemma_try_zip_reaches(first, second, ys, prev);
            let dup = choose|dup: E|
                cloned(x, dup) && #[trigger] try_zip_steps(first, second, prev, dup, x, Ok(acc));
        }
        if first.reaches(xs, acc.0) && second.reaches(xs, acc.1) {
            let prev1 = choose|prev: A1|
                first.reaches(ys, prev) && #[trigger] first.steps(prev, x, Ok(acc.0));
            let prev2 = choose|prev: A2|
                second.reaches(ys, prev) && #[trigger] second.steps(prev, x, Ok(acc.1));
            lemma_try_zip_reaches(first, second, ys, (prev1, prev2));
            assert(try_zip_steps(first, second, (prev1, prev2), x, x, Ok(acc)));
            assert(pair.steps((prev1, prev2), x, Ok(acc)));
        }
    }
}

/// Fusing two deterministic folds gives what two passes give: the pair of the
/// accumulators that each fold alone ends with.
pub proof fn lemma_try_zip_fold_equals<A1, A2, E: Clone, X>(
    first: Rules<A1, E, X>,
    second: Rules<A2, E, X>,
    xs: Seq<E>,
    acc: (A1, A2),
    acc1: A1,
    acc2: A2,
)
    requires
        clones_faithfully::<E>(),
        first.deterministic(),
        second.deterministic(),
        try_zip_rules(first, second).reaches(xs, acc),
        first.reaches(xs, acc1),
        second.reaches(xs, acc2),
    ensures
        acc == (acc1, acc2),
{
    lemma_try_zip_reaches(first, second, xs, acc);
    first.lemma_reaches_one(xs, acc.0, acc1);
    second.lemma_reaches_one(xs, acc.1, acc2);
}

/// The pair fails on the element at `k` just where one of its folds does:
/// the first, the second having passed the elements before; or the second,
/// the first having passed that element too. The error is that fold's.
pub proof fn lemma_try_zip_fails_at<A1, A2, E: Clone, X>(
    first: Rules<A1, E, X>,
    second: Rules<A2, E, X>,
    xs: Seq<E>,
    k: int,
    err: X,
)
    requires
        clones_faithfully::<E>(),
    ensures
        try_zip_rules(first, second).fails_at(xs, k, err) <==> {
            ||| first.fails_at(xs, k, err) && second.passes(xs.take(k))
            ||| second.fails_at(xs, k, err) && first.passes(xs.take(k + 1))
        },
{
    let pair = try_zip_rules(first, second);
    if 0 <= k < xs.len() {
        let before = xs.take(k);
        let upto = xs.take(k + 1);
        let x = xs[k];
        assert(upto.drop_last() == before);
        assert(upto.last() == x);
        if pair.fails_at(xs, k, err) {
            let prev = choose|prev: (A1, A2)|
                pair.reaches(before, prev) && #[trigger] pair.steps(prev, x, Err(err));
            lemma_try_zip_reaches(first, second, before, prev);
            let dup = choose|dup: E|
                cloned(x, dup) && #[trigger] try_zip_steps(first, second, prev, dup, x, Err(err));
            if !first.steps(prev.0, x, Err(err)) {
                let next1 = choose|next1: A1|
                    #[trigger] first.steps(prev.0, x, Ok(next1)) && second.steps(
                        prev.1,
                        x,
                        Err(err),
                    );
                assert(first.reaches(upto, next1));
            }
        }
        if first.fails_at(xs, k, err) && second.passes(before) {
            let prev1 = choose|prev: A1|
                first.reaches(before, prev) && #[trigger] first.steps(prev, x, Err(err));
            let prev2 = choose|prev: A2| second.reaches(before, prev);
            lemma_try_zip_reaches(first, second, before, (prev1, prev2));
            assert(try_zip_steps(first, second, (prev1, prev2), x, x, Err(err)));
            assert(pair.steps((prev1, prev2), x, Err(err)));
        }
        if second.fails_at(xs, k, err) && first.passes(upto) {
            let passed = choose|passed: A1| first.reaches(upto, passed);
            let prev1 = choose|prev: A1|
                first.reaches(before, prev) && #[trigger] first.steps(prev, x, Ok(passed));
            let prev2 = choose|prev: A2|
                second.reaches(before, prev) && #[trigger] second.steps(prev, x, Err(err));
            lemma_try_zip_reaches(first, second, before, (prev1, prev2));
            assert(try_zip_steps(first, second, (prev1, prev2), x, x, Err(err)));
            assert(pair.steps((prev1, prev2), x, Err(err)));
        }
    }
}

/// The pair may be run over `xs` where the first fold may and the second is
/// admitted behind it. Nothing is asked of the second fold on an element
/// that the first does not pass, nor on a later one: the pair takes no step
/// of the second there.
pub proof fn lemma_try_zip_admits_run<A1, A2, E: Clone, X>(
    first: Rules<A1, E, X>,
    second: Rules<A2, E, X>,
    xs: Seq<E>,
)
    requires
        clones_faithfully::<E>(),
        first.admits_run(xs),
        admits_run_behind(first, second, xs),
    ensures
        try_zip_rules(first, second).admits_run(xs),
{
    let pair = try_zip_rules(first, second);
    assert forall|k: int, prev: (A1, A2)|
        0 <= k < xs.len() && pair.reaches(xs.take(k), prev) implies #[trigger] pair.admits(
        prev,
        xs[k],
    ) by {
        let upto = xs.take(k + 1);
        lemma_try_zip_reaches(first, second, xs.take(k), prev);
        assert(upto.drop_last() == xs.take(k));
        assert(upto.last() == xs[k]);
        assert forall|next1: A1| #[trigger]
            first.steps(prev.0, xs[k], Ok(next1)) implies second.admits(prev.1, xs[k]) by {
            assert(first.reaches(upto, next1));
        }
    }
}

/// The pair may be run over `xs` wherever each of its two folds may.
pub proof fn lemma_try_zip_admits_both<A1, A2, E: Clone, X>(
    first: Rules<A1, E, X>,
    second: Rules<A2, E, X>,
    xs: Seq<E>,
)
    requires
        clones_faithfully::<E>(),
        first.admits_run(xs),
        second.admits_run(xs),
    ensures
        try_zip_rules(first, second).admits_run(xs),
{
    lemma_try_zip_admits_run(first, second, xs);
}

/// Where the first fold cannot pass the element at `k`, the pair takes no
/// step of the second fold on that element or a later one: a run over all
/// of `xs` is admitted though the second fold's steps are admitted on the
/// elements before `k` only, and it ends in a failure at `k` or before.
pub proof fn lemma_try_zip_short_circuits<A1, A2, E: Clone, X>(
    first: Rules<A1, E, X>,
    second: Rules<A2, E, X>,
    xs: Seq<E>,
    k: int,
)
    requires
        clones_faithfully::<E>(),
        first.stops_at(xs, k),
        first.admits_run(xs),
        second.admits_run(xs.take(k)),
    ensures
        try_zip_rules(first, second).admits_run(xs),
        forall|res: Result<(A1, A2), X>| #[trigger]
            try_zip_rules(first, second).folds_to(xs, res) ==> try_zip_rules(
                first,
                second,
            ).fails_by(xs, k, res),
{
    let pair = try_zip_rules(first, second);
    assert forall|j: int, prev: A2|
        0 <= j < xs.len() && first.passes(xs.take(j + 1)) && second.reaches(
            xs.take(j),
            prev,
        ) implies #[trigger] second.admits(prev, xs[j]) by {
        first.lemma_stops_at(xs, k, j + 1);
        assert(xs.take(k).take(j) == xs.take(j));
    }
    lemma_try_zip_admits_run(first, second, xs);
    assert forall|res: Result<(A1, A2), X>| #[trigger]
        pair.folds_to(xs, res) implies pair.fails_by(xs, k, res) by {
        match res {
            Ok(acc) => {
                lemma_try_zip_reaches(first, second, xs, acc);
                assert(xs.take(xs.len() as int) == xs);
                first.lemma_stops_at(xs, k, xs.len() as int);
            },
            Err(err) => {
                let j: int = choose|j: int| pair.fails_at(xs, j, err);
                let prev = choose|prev: (A1, A2)|
                    pair.reaches(xs.take(j), prev) && #[trigger] pair.steps(prev, xs[j], Err(err));
                lemma_try_zip_reaches(first, second, xs.take(j), prev);
                first.lemma_stops_at(xs, k, j);
            },
        }
    }
}

/// A pair of folds that never fail never fails.
pub proof fn lemma_try_zip_never_fails<A1, A2, E: Clone, X>(
    first: Rules<A1, E, X>,
    second: Rules<A2, E, X>,
)
    requires
        first.never_fails(),
        second.never_fails(),
    ensures
        try_zip_rules(first, second).never_fails(),
{
    let pair = try_zip_rules(first, second);
    assert forall|acc: (A1, A2), elem: E, err: X| !#[trigger] pair.steps(acc, elem, Err(err)) by {
        if pair.steps(acc, elem, Err(err)) {
            let dup = choose|dup: E|
                cloned(elem, dup) && #[trigger] try_zip_steps(
                    first,
                    second,
                    acc,
                    dup,
                    elem,
                    Err(err),
                );
        }
    }
}

} // verus!
