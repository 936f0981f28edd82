//! The mathematical model of a fold.

use vstd::prelude::*;

verus! {

/// What a fold with accumulators `A`, elements `E` and errors `X` may do,
/// given as three relations. They are relations and not functions because a
/// step built from a closure is known only by what the closure ensures.
#[verifier::reject_recursive_types(A)]
#[verifier::reject_recursive_types(E)]
#[verifier::reject_recursive_types(X)]
pub struct Rules<A, E, X> {
    /// The accumulators that a run may start from.
    pub init: spec_fn(A) -> bool,
    /// The accumulators and elements on which a step may be taken.
    pub step_requires: spec_fn(A, E) -> bool,
    /// The results that a step on an accumulator and an element may have.
    pub step_ensures: spec_fn(A, E, Result<A, X>) -> bool,
}

/// A clone of an element of type `E` equals the element.
pub open spec fn clones_faithfully<E: Clone>() -> bool {
    forall|elem: E, dup: E| #[trigger] cloned(elem, dup) ==> dup == elem
}

impl<A, E, X> Rules<A, E, X> {
    /// A run may start from `acc`.
    pub open spec fn inits(self, acc: A) -> bool {
        (self.init)(acc)
    }

    /// A step may be taken on `acc` and `elem`.
    pub open spec fn admits(self, acc: A, elem: E) -> bool {
        (self.step_requires)(acc, elem)
    }

    /// A step on `acc` and `elem` may have the result `res`.
    pub open spec fn steps(self, acc: A, elem: E, res: Result<A, X>) -> bool {
        (self.step_ensures)(acc, elem, res)
    }

    /// A run over all of `xs`, in order, without a failure, may end with the
    /// accumulator `acc`.
    pub open spec fn reaches(self, xs: Seq<E>, acc: A) -> bool
        decreases xs.len(),
    {
        if xs.len() == 0 {
            self.inits(acc)
        } else {
            exists|prev: A|
                self.reaches(xs.drop_last(), prev) && #[trigger] self.steps(
                    prev,
                    xs.last(),
                    Ok(acc),
                )
        }
    }

    /// A run may pass all of `xs` without a failure.
    pub open spec fn passes(self, xs: Seq<E>) -> bool {
        exists|acc: A| self.reaches(xs, acc)
    }

    /// A run over `xs` may pass the elements before index `k` and fail on
    /// the element at `k` with the error `err`.
    pub open spec fn fails_at(self, xs: Seq<E>, k: int, err: X) -> bool {
        &&& 0 <= k < xs.len()
        &&& exists|prev: A|
            self.reaches(xs.take(k), prev) && #[trigger] self.steps(prev, xs[k], Err(err))
    }

    /// `res` is an error that a run over `xs` may fail with on the element at
    /// index `k` or on an earlier one.
    pub open spec fn fails_by(self, xs: Seq<E>, k: int, res: Result<A, X>) -> bool {
        res matches Err(err) && exists|j: int| j <= k && self.fails_at(xs, j, err)
    }

    /// A run over `xs` that stops at its first failure may have the result
    /// `res`: the last accumulator, or the first error.
    pub open spec fn folds_to(self, xs: Seq<E>, res: Result<A, X>) -> bool {
        match res {
            Ok(acc) => self.reaches(xs, acc),
            Err(err) => exists|k: int| self.fails_at(xs, k, err),
        }
    }

    /// Every step that a run over `xs` may come to take is one that may be
    /// taken. Nothing is asked of the elements behind a certain failure.
    pub open spec fn admits_run(self, xs: Seq<E>) -> bool {
        forall|k: int, prev: A|
            0 <= k < xs.len() && self.reaches(xs.take(k), prev) ==> #[trigger] self.admits(
                prev,
                xs[k],
            )
    }

    /// No run over `xs` passes the element at index `k`: one that comes to it
    /// fails on it.
    pub open spec fn stops_at(self, xs: Seq<E>, k: int) -> bool {
        &&& 0 <= k < xs.len()
        &&& forall|prev: A, next: A|
            self.reaches(xs.take(k), prev) ==> !#[trigger] self.steps(prev, xs[k], Ok(next))
    }

    /// No step fails.
    pub open spec fn never_fails(self) -> bool {
        forall|acc: A, elem: E, err: X| !#[trigger] self.steps(acc, elem, Err(err))
    }

    /// A run has one start, and a step has one result.
    pub open spec fn deterministic(self) -> bool {
        &&& forall|a: A, b: A| #[trigger] self.inits(a) && #[trigger] self.inits(b) ==> a == b
        &&& forall|acc: A, elem: E, r1: Result<A, X>, r2: Result<A, X>|
            #[trigger] self.steps(acc, elem, r1) && #[trigger] self.steps(acc, elem, r2) ==> r1
                == r2
    }

    /// Folding the empty sequence gives what the run started from, and no
    /// error; and nothing has to be admitted for it.
    pub proof fn lemma_fold_empty(self, res: Result<A, X>)
        ensures
            self.folds_to(Seq::empty(), res) <==> (res matches Ok(acc) && self.inits(acc)),
            self.admits_run(Seq::empty()),
    {
    }

    /// A run that passes all of `xs` has passed each of its prefixes.
    pub proof fn lemma_reaches_prefix(self, xs: Seq<E>, acc: A, k: int)
        requires
            self.reaches(xs, acc),
            0 <= k <= xs.len(),
        ensures
            self.passes(xs.take(k)),
        decreases xs.len(),
    {
        if k == xs.len() {
            assert(xs.take(k) == xs);
        } else {
            let prev = choose|prev: A|
                self.reaches(xs.drop_last(), prev) && #[trigger] self.steps(
                    prev,
                    xs.last(),
                    Ok(acc),
                );
            self.lemma_reaches_prefix(xs.drop_last(), prev, k);
            assert(xs.drop_last().take(k) == xs.take(k));
        }
    }

    /// No run passes more elements than the ones before an element that it
    /// cannot pass.
    pub proof fn lemma_stops_at(self, xs: Seq<E>, k: int, j: int)
        requires
            self.stops_at(xs, k),
            0 <= j <= xs.len(),
            self.passes(xs.take(j)),
        ensures
            j <= k,
    {
        if j > k {
            let upto = xs.take(k + 1);
            let acc = choose|acc: A| self.reaches(xs.take(j), acc);
            self.lemma_reaches_prefix(xs.take(j), acc, k + 1);
            assert(xs.take(j).take(k + 1) == upto);
            let passed = choose|passed: A| self.reaches(upto, passed);
            assert(upto.drop_last() == xs.take(k));
        }
    }

    /// Under deterministic rules a run over `xs` that does not fail ends with
    /// one accumulator.
    pub proof fn lemma_reaches_one(self, xs: Seq<E>, a: A, b: A)
        requires
            self.deterministic(),
            self.reaches(xs, a),
            self.reaches(xs, b),
        ensures
            a == b,
        decreases xs.len(),
    {
        if xs.len() > 0 {
            let prev_a = choose|prev: A|
                self.reaches(xs.drop_last(), prev) && #[trigger] self.steps(
                    prev,
                    xs.last(),
                    Ok(a),
                );
            let prev_b = choose|prev: A|
                self.reaches(xs.drop_last(), prev) && #[trigger] self.steps(
                    prev,
                    xs.last(),
                    Ok(b),
                );
            self.lemma_reaches_one(xs.drop_last(), prev_a, prev_b);
        }
    }

    /// Under deterministic rules a failure that may happen is certain: no run
    /// passes an element on which one may fail.
    pub proof fn lemma_failure_stops(self, xs: Seq<E>, k: int, err: X)
        requires
            self.deterministic(),
            self.fails_at(xs, k, err),
        ensures
            self.stops_at(xs, k),
    {
        let failing = choose|prev: A|
            self.reaches(xs.take(k), prev) && #[trigger] self.steps(prev, xs[k], Err(err));
        assert forall|prev: A, next: A| self.reaches(xs.take(k), prev) implies !#[trigger]
        self.steps(prev, xs[k], Ok(next)) by {
            self.lemma_reaches_one(xs.take(k), prev, failing);
        }
    }

    /// Under deterministic rules folding `xs` has one result: a second run
    /// over the same sequence gives what the first gave.
    pub proof fn lemma_folds_to_one(self, xs: Seq<E>, first: Result<A, X>, second: Result<A, X>)
        requires
            self.deterministic(),
            self.folds_to(xs, first),
            self.folds_to(xs, second),
        ensures
            first == second,
    {
        assert(xs.take(xs.len() as int) == xs);
        match (first, second) {
            (Ok(a), Ok(b)) => {
                self.lemma_reaches_one(xs, a, b);
            },
            (Ok(_), Err(err)) => {
                let k: int = choose|k: int| self.fails_at(xs, k, err);
                self.lemma_failure_stops(xs, k, err);
                self.lemma_stops_at(xs, k, xs.len() as int);
            },
            (Err(err), Ok(_)) => {
                let k: int = choose|k: int| self.fails_at(xs, k, err);
                self.lemma_failure_stops(xs, k, err);
                self.lemma_stops_at(xs, k, xs.len() as int);
            },
            (Err(e1), Err(e2)) => {
                let k1: int = choose|k: int| self.fails_at(xs, k, e1);
                let k2: int = choose|k: int| self.fails_at(xs, k, e2);
                self.lemma_failure_stops(xs, k1, e1);
                self.lemma_failure_stops(xs, k2, e2);
                self.lemma_stops_at(xs, k1, k2);
                self.lemma_stops_at(xs, k2, k1);
                let p1 = choose|prev: A|
                    self.reaches(xs.take(k1), prev) && #[trigger] self.steps(
                        prev,
                        xs[k1],
                        Err(e1),
                    );
                let p2 = choose|prev: A|
                    self.reaches(xs.take(k1), prev) && #[trigger] self.steps(
                        prev,
                        xs[k1],
                        Err(e2),
                    );
                self.lemma_reaches_one(xs.take(k1), p1, p2);
            },
        }
    }
}

} // verus!
