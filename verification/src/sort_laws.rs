//! What the emission order depends on: for each class of records that
//! tie, the order in which they arrive, and nothing else.

use crate::record::{
    lemma_record_le_lt, lemma_record_lt_irreflexive, lemma_record_lt_le, record_lt, record_tie,
    records_sorted, Record,
};
use crate::sort::{
    insert_point, lemma_filter_none, lemma_insert_point, lemma_insert_point_is, lemma_sort_sorted,
    lemma_sort_stable, sort_records, sorted_insert, tie_class,
};
use vstd::prelude::*;

verus! {

/// A filter that lets something through was given something that passes.
pub proof fn lemma_filter_witness(s: Seq<Record>, pred: spec_fn(Record) -> bool) -> (k: int)
    requires
        s.filter(pred).len() > 0,
    ensures
        0 <= k < s.len(),
        pred(s[k]),
{
    if forall|k: int| 0 <= k < s.len() ==> !pred(#[trigger] s[k]) {
        lemma_filter_none(s, pred);
    }
    choose|k: int| 0 <= k < s.len() && pred(#[trigger] s[k])
}

/// What a filter lets through of a sequence without its last element.
pub proof fn lemma_filter_drop_last(s: Seq<Record>, pred: spec_fn(Record) -> bool)
    requires
        s.len() > 0,
    ensures
        pred(s.last()) ==> s.filter(pred).len() > 0 && s.filter(pred).last() == s.last()
            && s.drop_last().filter(pred) == s.filter(pred).drop_last(),
        !pred(s.last()) ==> s.drop_last().filter(pred) == s.filter(pred),
{
    Seq::lemma_filter_push(s.drop_last(), s.last(), pred);
    assert(s.drop_last().push(s.last()) =~= s);
    if pred(s.last()) {
        assert(s.drop_last().filter(pred).push(s.last()).drop_last() =~= s.drop_last().filter(
            pred,
        ));
    }
}

/// Filtering by a condition that implies another gives the same whether
/// or not the weaker filter was applied first.
pub proof fn lemma_filter_refine(
    s: Seq<Record>,
    wide: spec_fn(Record) -> bool,
    narrow: spec_fn(Record) -> bool,
)
    requires
        forall|r: Record| #[trigger] narrow(r) ==> wide(r),
    ensures
        s.filter(wide).filter(narrow) == s.filter(narrow),
    decreases s.len(),
{
    if s.len() > 0 {
        let front = s.drop_last();
        let x = s.last();
        lemma_filter_refine(front, wide, narrow);
        assert(front.push(x) =~= s);
        Seq::lemma_filter_push(front, x, wide);
        Seq::lemma_filter_push(front, x, narrow);
        if wide(x) {
            Seq::lemma_filter_push(front.filter(wide), x, narrow);
        }
    } else {
        reveal(Seq::filter);
        assert(s.filter(wide) =~= s);
    }
}

/// The last record of a sorted sequence ties with the last record of any
/// sorted sequence that holds the same records of every class.
proof fn lemma_last_ties(r1: Seq<Record>, r2: Seq<Record>)
    requires
        records_sorted(r1),
        records_sorted(r2),
        r1.len() > 0,
        r2.len() > 0,
        forall|x: Record| r1.filter(tie_class(x)) == #[trigger] r2.filter(tie_class(x)),
    ensures
        !record_lt(r1.last(), r2.last()),
{
    let x = r1.last();
    let y = r2.last();
    if record_lt(x, y) {
        // `y` has a peer in `r1`, which then comes after the last of `r1`
        lemma_record_lt_irreflexive(y);
        lemma_filter_drop_last(r2, tie_class(y));
        assert(r1.filter(tie_class(y)) == r2.filter(tie_class(y)));
        let k = lemma_filter_witness(r1, tie_class(y));
        lemma_record_lt_le(x, y, r1[k]);
        if k < r1.len() - 1 {
            assert(!record_lt(r1[r1.len() - 1], r1[k]));
        } else {
            lemma_record_lt_irreflexive(x);
        }
    }
}

/// Two sequences in emission order that hold, for every class of records
/// that tie, the same records in the same order are the same sequence.
pub proof fn lemma_sorted_by_classes(r1: Seq<Record>, r2: Seq<Record>)
    requires
        records_sorted(r1),
        records_sorted(r2),
        forall|x: Record| r1.filter(tie_class(x)) == #[trigger] r2.filter(tie_class(x)),
    ensures
        r1 == r2,
    decreases r1.len() + r2.len(),
{
    if r1.len() == 0 || r2.len() == 0 {
        if r1.len() > 0 {
            lemma_record_lt_irreflexive(r1.last());
            lemma_filter_drop_last(r1, tie_class(r1.last()));
            assert(r1.filter(tie_class(r1.last())) == r2.filter(tie_class(r1.last())));
            lemma_filter_none(r2, tie_class(r1.last()));
        }
        if r2.len() > 0 {
            lemma_record_lt_irreflexive(r2.last());
            lemma_filter_drop_last(r2, tie_class(r2.last()));
            assert(r1.filter(tie_class(r2.last())) == r2.filter(tie_class(r2.last())));
            lemma_filter_none(r1, tie_class(r2.last()));
        }
        assert(r1 =~= r2);
    } else {
        let x = r1.last();
        let y = r2.last();
        lemma_last_ties(r1, r2);
        assert forall|z: Record| r2.filter(tie_class(z)) == #[trigger] r1.filter(tie_class(z)) by {
            assert(r1.filter(tie_class(z)) == r2.filter(tie_class(z)));
        }
        lemma_last_ties(r2, r1);
        assert(record_tie(x, y));
        lemma_record_lt_irreflexive(x);
        lemma_filter_drop_last(r1, tie_class(x));
        lemma_filter_drop_last(r2, tie_class(x));
        assert(r1.filter(tie_class(x)) == r2.filter(tie_class(x)));
        assert(x == y);
        let f1 = r1.drop_last();
        let f2 = r2.drop_last();
        assert forall|z: Record| f1.filter(tie_class(z)) == #[trigger] f2.filter(tie_class(z)) by {
            assert(r1.filter(tie_class(z)) == r2.filter(tie_class(z)));
            lemma_filter_drop_last(r1, tie_class(z));
            lemma_filter_drop_last(r2, tie_class(z));
        }
        assert forall|i: int, j: int| 0 <= i < j < f1.len() implies !record_lt(f1[j], f1[i]) by {
            assert(f1[i] == r1[i] && f1[j] == r1[j]);
        }
        assert forall|i: int, j: int| 0 <= i < j < f2.len() implies !record_lt(f2[j], f2[i]) by {
            assert(f2[i] == r2[i] && f2[j] == r2[j]);
        }
        lemma_sorted_by_classes(f1, f2);
        assert(r1 =~= f1.push(x));
        assert(r2 =~= f2.push(y));
    }
}

/// The emission order does not depend on the file order, except for the
/// order of records that tie: two files that hold, for every class of
/// records that tie, the same records in the same order are sorted into
/// the same sequence.
pub proof fn lemma_sort_order_independent(s1: Seq<Record>, s2: Seq<Record>)
    requires
        forall|x: Record| s1.filter(tie_class(x)) == #[trigger] s2.filter(tie_class(x)),
    ensures
        sort_records(s1) == sort_records(s2),
{
    lemma_sort_sorted(s1);
    lemma_sort_sorted(s2);
    assert forall|x: Record|
        sort_records(s1).filter(tie_class(x)) == #[trigger] sort_records(s2).filter(
            tie_class(x),
        ) by {
        lemma_sort_stable(s1, x);
        lemma_sort_stable(s2, x);
        assert(s1.filter(tie_class(x)) == s2.filter(tie_class(x)));
    }
    lemma_sorted_by_classes(sort_records(s1), sort_records(s2));
}

/// Sorting keeps the order of the records of any class that is part of a
/// class of records that tie.
pub proof fn lemma_sort_stable_within(s: Seq<Record>, x: Record, class: spec_fn(Record) -> bool)
    requires
        forall|r: Record| #[trigger] class(r) ==> record_tie(x, r),
    ensures
        sort_records(s).filter(class) == s.filter(class),
{
    lemma_sort_stable(s, x);
    lemma_filter_refine(s, tie_class(x), class);
    lemma_filter_refine(sort_records(s), tie_class(x), class);
}

/// Where a record goes in a sorted sequence does not depend on one
/// other record being there.
proof fn lemma_insert_point_remove(r: Seq<Record>, k: int, x: Record)
    requires
        records_sorted(r),
        0 <= k < r.len(),
    ensures
        insert_point(r.remove(k), x) == if k < insert_point(r, x) {
            insert_point(r, x) - 1
        } else {
            insert_point(r, x) as int
        },
{
    lemma_insert_point(r, x);
    let p = insert_point(r, x) as int;
    let less = r.remove(k);
    let p2 = if k < p { p - 1 } else { p };
    assert forall|j: int| p2 <= j < less.len() implies record_lt(x, #[trigger] less[j]) by {
        if j < k {
            assert(less[j] == r[j]);
        } else {
            assert(less[j] == r[j + 1]);
        }
    }
    if p2 > 0 {
        if p2 - 1 < k {
            assert(less[p2 - 1] == r[p2 - 1]);
            if k < p && record_lt(x, r[p2 - 1]) {
                // here `k` is the index in front of the insert point
                assert(!record_lt(r[p - 1], r[p2 - 1]));
                lemma_record_lt_le(x, r[p2 - 1], r[p - 1]);
            }
        } else {
            assert(less[p2 - 1] == r[p2]);
        }
    }
    lemma_insert_point_is(less, x, p2);
}

/// Sorting a file without one of its records gives the sorted file
/// without that record.
pub proof fn lemma_sort_remove(s: Seq<Record>, i: int) -> (k: int)
    requires
        0 <= i < s.len(),
    ensures
        0 <= k < sort_records(s).len(),
        sort_records(s).len() == s.len(),
        sort_records(s)[k] == s[i],
        sort_records(s.remove(i)) == sort_records(s).remove(k),
    decreases s.len(),
{
    let front = s.drop_last();
    let x = s.last();
    let r = sort_records(front);
    lemma_sort_sorted(front);
    lemma_sort_sorted(s);
    lemma_insert_point(r, x);
    let p = insert_point(r, x) as int;
    if i == s.len() - 1 {
        assert(s.remove(i) =~= front);
        assert(r.insert(p, x).remove(p) =~= r);
        p
    } else {
        let k0 = lemma_sort_remove(front, i);
        assert(s.remove(i) =~= front.remove(i).push(x));
        assert(s.remove(i).drop_last() =~= front.remove(i));
        lemma_insert_point_remove(r, k0, x);
        assert(front[i] == s[i]);
        if k0 < p {
            assert(r.remove(k0).insert(p - 1, x) =~= r.insert(p, x).remove(k0));
            k0
        } else {
            assert(r.remove(k0).insert(p, x) =~= r.insert(p, x).remove(k0 + 1));
            k0 + 1
        }
    }
}

/// Every record of the sorted file is a record of the file.
pub proof fn lemma_sort_member(s: Seq<Record>, k: int) -> (i: int)
    requires
        0 <= k < sort_records(s).len(),
    ensures
        0 <= i < s.len(),
        s[i] == sort_records(s)[k],
    decreases s.len(),
{
    lemma_sort_sorted(s);
    let front = s.drop_last();
    let r = sort_records(front);
    lemma_sort_sorted(front);
    lemma_insert_point(r, s.last());
    let p = insert_point(r, s.last()) as int;
    if k == p {
        s.len() - 1
    } else {
        let k0 = if k < p { k } else { k - 1 };
        assert(sort_records(s)[k] == r[k0]);
        let i = lemma_sort_member(front, k0);
        assert(front[i] == s[i]);
        i
    }
}

} // verus!
