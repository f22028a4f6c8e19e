//! The order on the elements, and what a discipline makes of it.
//!
//! The heap compares its elements with `<` and `>`. What those operators
//! compute is tied to the specification of `Ord` that vstd keeps; everything
//! else in the crate speaks of the order through the functions of this module.

use super::HeapType;
use std::cmp::Ordering;
use vstd::laws_cmp::{
    obeys_cmp,
    obeys_cmp_ord,
    obeys_cmp_partial_ord,
    obeys_partial_cmp_spec_properties,
};
use vstd::laws_eq::obeys_eq_spec_properties;
use vstd::prelude::*;
use vstd::std_specs::cmp::{OrdSpec, PartialEqSpec, PartialOrdSpec};

verus! {

/// The comparisons of `T` form a total order, and `<`, `>` and `==` compute it.
/// vstd proves this of the integer types, and of tuples and options of such
/// types (`vstd::laws_cmp::group_laws_cmp`).
pub open spec fn total_order<T: Ord>() -> bool {
    obeys_cmp::<T>()
}

/// `a` is strictly smaller than `b`.
pub open spec fn less<T: Ord>(a: T, b: T) -> bool {
    a.partial_cmp_spec(&b) == Some(Ordering::Less)
}

/// `a` is strictly larger than `b`.
pub open spec fn greater<T: Ord>(a: T, b: T) -> bool {
    a.partial_cmp_spec(&b) == Some(Ordering::Greater)
}

/// `a` and `b` take the same place in the order.
pub open spec fn equivalent<T: Ord>(a: T, b: T) -> bool {
    a.partial_cmp_spec(&b) == Some(Ordering::Equal)
}

/// `a` dominates `b`: under the discipline `kind`, `a` belongs strictly
/// closer to the root than `b`.
pub open spec fn dominates<T: Ord>(kind: HeapType, a: T, b: T) -> bool {
    match kind {
        HeapType::Min => less(a, b),
        HeapType::Max => greater(a, b),
    }
}

/// `upper` may stand above `lower`: `upper <= lower` in a min heap,
/// `upper >= lower` in a max heap.
pub open spec fn in_order<T: Ord>(kind: HeapType, upper: T, lower: T) -> bool {
    match kind {
        HeapType::Min => less(upper, lower) || equivalent(upper, lower),
        HeapType::Max => greater(upper, lower) || equivalent(upper, lower),
    }
}

/// Under a total order the operators `<` and `>` return what `less` and
/// `greater` state.
pub proof fn lemma_operators_follow_the_order<T: Ord>()
    requires
        total_order::<T>(),
    ensures
        T::obeys_partial_cmp_spec(),
{
    reveal(obeys_cmp_partial_ord);
}

/// Any two elements compare as exactly one of smaller, equivalent, larger,
/// and swapping the sides swaps smaller and larger.
pub proof fn lemma_trichotomy<T: Ord>(a: T, b: T)
    requires
        total_order::<T>(),
    ensures
        less(a, b) || equivalent(a, b) || greater(a, b),
        less(a, b) <==> greater(b, a),
        equivalent(a, b) <==> equivalent(b, a),
{
    reveal(obeys_cmp_ord);
    reveal(obeys_cmp_partial_ord);
    reveal(obeys_partial_cmp_spec_properties);
    reveal(obeys_eq_spec_properties);
    assert(a.partial_cmp_spec(&b) == Some(a.cmp_spec(&b)));
    assert(b.partial_cmp_spec(&a) == Some(b.cmp_spec(&a)));
}

/// An element that dominates another may stand above it.
pub proof fn lemma_dominates_in_order<T: Ord>(kind: HeapType, a: T, b: T)
    requires
        dominates(kind, a, b),
    ensures
        in_order(kind, a, b),
{
}

/// `upper` may stand above `lower` exactly when `lower` does not dominate `upper`.
pub proof fn lemma_in_order_iff_not_dominated<T: Ord>(kind: HeapType, upper: T, lower: T)
    requires
        total_order::<T>(),
    ensures
        in_order(kind, upper, lower) <==> !dominates(kind, lower, upper),
{
    lemma_trichotomy(upper, lower);
    lemma_trichotomy(lower, upper);
}

/// Every element may stand above itself.
pub proof fn lemma_in_order_reflexive<T: Ord>(kind: HeapType, a: T)
    requires
        total_order::<T>(),
    ensures
        in_order(kind, a, a),
{
    lemma_trichotomy(a, a);
}

/// If `a` may stand above `b` and `b` above `c`, then `a` may stand above `c`.
pub proof fn lemma_in_order_transitive<T: Ord>(kind: HeapType, a: T, b: T, c: T)
    requires
        total_order::<T>(),
        in_order(kind, a, b),
        in_order(kind, b, c),
    ensures
        in_order(kind, a, c),
{
    lemma_trichotomy(a, b);
    lemma_trichotomy(b, a);
    lemma_trichotomy(b, c);
    lemma_trichotomy(c, b);
    lemma_trichotomy(a, c);
    lemma_trichotomy(c, a);
    reveal(obeys_cmp_partial_ord);
    reveal(obeys_partial_cmp_spec_properties);
    reveal(obeys_eq_spec_properties);
}

} // verus!
