//! Folds that can be fused: several reductions over one sequence, run in a
//! single pass.
//!
//! A [`Fold`] is an initial accumulator and a step that may fail. Two folds
//! over the same elements combine into one with [`Fold::zip`], where each
//! keeps its own failure, or with [`Fold::try_zip`], where the first failure
//! of either ends the run. What a fold does is described by its [`Rules`],
//! and every contract in this crate is stated over them.
//!
//! Verus knows a closure or a function item by its `call_requires` and
//! `call_ensures`, and it knows that a type is a step function only where the
//! type is a parameter bounded by `Fn`. Verified code that makes a fold of a
//! function therefore does so in a function that is generic over the
//! function's type and states in its `requires` what it needs of the
//! function.

pub mod fold;
pub mod from_fn;
pub mod rules;
pub mod try_zip;
pub mod uninhabited;
pub mod zip;

pub use fold::Fold;
pub use from_fn::{from_fn, from_try_fn, FromFn, FromTryFn};
pub use rules::Rules;
pub use try_zip::TryZip;
pub use uninhabited::Uninhabited;
pub use zip::Zip;
