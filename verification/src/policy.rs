//! The ordering policy as a three-way comparison.

use crate::record::{record_lt, Record, TypeDefLine};
use std::cmp::Ordering;
use vstd::prelude::*;

verus! {

/// How `a` stands to `b` in emission order: `Less` where `a` comes
/// before `b`, `Greater` where `b` comes before `a`, `Equal` where the
/// two tie.
pub open spec fn record_order(a: Record, b: Record) -> Ordering {
    if record_lt(a, b) {
        Ordering::Less
    } else if record_lt(b, a) {
        Ordering::Greater
    } else {
        Ordering::Equal
    }
}

/// Compares two lines in emission order: a `Struct` line is less than
/// any other line, and two lines on the same side of that line compare
/// as their names do.
pub fn compare(a: &TypeDefLine, b: &TypeDefLine) -> (order: Ordering)
    ensures
        order == record_order(a@, b@),
{
    if a.precedes(b) {
        Ordering::Less
    } else if b.precedes(a) {
        Ordering::Greater
    } else {
        Ordering::Equal
    }
}

/// Swapping the arguments of a comparison reverses its result.
pub proof fn lemma_record_order_antisymmetric(a: Record, b: Record)
    ensures
        record_order(a, b) == Ordering::Less <==> record_order(b, a) == Ordering::Greater,
        record_order(a, b) == Ordering::Equal <==> record_order(b, a) == Ordering::Equal,
{
    if record_lt(a, b) {
        crate::record::lemma_record_lt_asymmetric(a, b);
    }
    if record_lt(b, a) {
        crate::record::lemma_record_lt_asymmetric(b, a);
    }
}

} // verus!
