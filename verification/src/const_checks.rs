//! Bound comparison discharged before run time.
//!
//! Widening a container's bound must be free of any runtime check: the fact
//! `A >= B` is stated here as a predicate over two compile-time constants and
//! is proved at every call site during verification, so an invalid widening
//! fails the build rather than a run.

use vstd::prelude::*;

verus! {

/// A pair of compile-time bounds whose ordering can be asserted.
///
/// `Pair<A, B>` has no runtime instances; its only role is to carry the two
/// constants into the [`AssertGe`] predicate.
pub struct Pair<const A: usize, const B: usize>;

/// Predicate trait for "the first bound is at least the second".
///
/// Every widening operation requires `Pair::<MAX2, MAX>::valid()`, so a
/// widening to a smaller bound is rejected during verification, with no
/// runtime cost and no error path.
pub trait AssertGe {
    /// True exactly when the first carried bound is at least the second.
    spec fn valid() -> bool;
}

impl<const A: usize, const B: usize> AssertGe for Pair<A, B> {
    open spec fn valid() -> bool {
        A >= B
    }
}

} // verus!
