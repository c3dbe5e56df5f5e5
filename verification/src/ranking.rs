//! Three-way comparison of scores and of scored labels.

use std::cmp::Ordering;
use vstd::prelude::*;
use vstd::std_specs::cmp::PartialOrdSpec;

verus! {

/// Three-way comparison of two values by `<` and `>` alone.
pub fn cmp_f64<M: Copy + PartialEq + PartialOrd>(a: &M, b: &M) -> (order: Ordering)
    ensures
        M::obeys_partial_cmp_spec() ==> order == (match a.partial_cmp_spec(b) {
            Some(Ordering::Less) => Ordering::Less,
            Some(Ordering::Greater) => Ordering::Greater,
            _ => Ordering::Equal,
        }),
{
    if a < b {
        return Ordering::Less;
    } else if a > b {
        return Ordering::Greater;
    }
    return Ordering::Equal;
}

/// Compares two scored labels by their scores alone.
pub fn cmp_w_label<L, V: Copy + PartialEq + PartialOrd>(a: &(V, L), b: &(V, L)) -> (order: Ordering)
    ensures
        V::obeys_partial_cmp_spec() ==> order == (match a.0.partial_cmp_spec(&b.0) {
            Some(Ordering::Less) => Ordering::Less,
            Some(Ordering::Greater) => Ordering::Greater,
            _ => Ordering::Equal,
        }),
{
    cmp_f64(&a.0, &b.0)
}

} // verus!
