//! Stable sorting of records into emission order.

use crate::record::{
    lemma_record_le_lt, lemma_record_lt_asymmetric, record_lt, record_tie, records_of,
    records_sorted, Record, TypeDefLine,
};
use vstd::prelude::*;

verus! {

/// Where `x` goes when it joins `r` as the latest arrival: behind every
/// record that does not come after it, in front of the records at the
/// end of `r` that all come after it.
pub open spec fn insert_point(r: Seq<Record>, x: Record) -> nat
    decreases r.len(),
{
    if r.len() > 0 && record_lt(x, r.last()) {
        insert_point(r.drop_last(), x)
    } else {
        r.len()
    }
}

/// `r` with `x` put in at its insert point.
pub open spec fn sorted_insert(r: Seq<Record>, x: Record) -> Seq<Record> {
    r.insert(insert_point(r, x) as int, x)
}

/// The records of `s` in emission order, records that tie staying in the
/// order in which they stand in `s`.
pub open spec fn sort_records(s: Seq<Record>) -> Seq<Record>
    decreases s.len(),
{
    if s.len() == 0 {
        Seq::empty()
    } else {
        sorted_insert(sort_records(s.drop_last()), s.last())
    }
}

/// Every record behind the insert point comes after `x`, and the
/// record in front of it does not.
pub proof fn lemma_insert_point(r: Seq<Record>, x: Record)
    ensures
        insert_point(r, x) <= r.len(),
        forall|k: int| insert_point(r, x) <= k < r.len() ==> record_lt(x, #[trigger] r[k]),
        insert_point(r, x) > 0 ==> !record_lt(x, r[insert_point(r, x) - 1]),
    decreases r.len(),
{
    if r.len() > 0 && record_lt(x, r.last()) {
        let t = r.drop_last();
        lemma_insert_point(t, x);
        assert forall|k: int| insert_point(r, x) <= k < r.len() implies record_lt(
            x,
            #[trigger] r[k],
        ) by {
            if k < t.len() {
                assert(r[k] == t[k]);
            }
        }
        if insert_point(r, x) > 0 {
            assert(r[insert_point(r, x) - 1] == t[insert_point(t, x) - 1]);
        }
    }
}

/// The insert point is the index that splits `r` as `lemma_insert_point`
/// says.
pub proof fn lemma_insert_point_is(r: Seq<Record>, x: Record, p: int)
    requires
        0 <= p <= r.len(),
        forall|k: int| p <= k < r.len() ==> record_lt(x, #[trigger] r[k]),
        p > 0 ==> !record_lt(x, r[p - 1]),
    ensures
        insert_point(r, x) == p,
    decreases r.len(),
{
    if p < r.len() {
        assert(record_lt(x, r[r.len() - 1]));
        let t = r.drop_last();
        assert forall|k: int| p <= k < t.len() implies record_lt(x, #[trigger] t[k]) by {
            assert(t[k] == r[k]);
        }
        if p > 0 {
            assert(t[p - 1] == r[p - 1]);
        }
        lemma_insert_point_is(t, x, p);
    }
}

/// Putting a record into a sorted sequence at its insert point keeps the
/// sequence sorted.
pub proof fn lemma_sorted_insert_sorted(r: Seq<Record>, x: Record)
    requires
        records_sorted(r),
    ensures
        records_sorted(sorted_insert(r, x)),
{
    lemma_insert_point(r, x);
    let p = insert_point(r, x) as int;
    let out = sorted_insert(r, x);
    assert forall|i: int, j: int| 0 <= i < j < out.len() implies !record_lt(out[j], out[i]) by {
        if j == p {
            assert(out[i] == r[i]);
            if record_lt(x, r[i]) && i < p - 1 {
                lemma_record_le_lt(r[p - 1], x, r[i]);
            }
        } else if i == p {
            assert(out[j] == r[j - 1]);
            lemma_record_lt_asymmetric(x, r[j - 1]);
        } else {
            let ri = if i < p { i } else { i - 1 };
            let rj = if j < p { j } else { j - 1 };
            assert(out[i] == r[ri]);
            assert(out[j] == r[rj]);
        }
    }
}

/// `sort_records` returns a sequence in emission order.
pub proof fn lemma_sort_sorted(s: Seq<Record>)
    ensures
        records_sorted(sort_records(s)),
        sort_records(s).len() == s.len(),
    decreases s.len(),
{
    if s.len() > 0 {
        lemma_sort_sorted(s.drop_last());
        lemma_insert_point(sort_records(s.drop_last()), s.last());
        lemma_sorted_insert_sorted(sort_records(s.drop_last()), s.last());
    }
}

/// `sort_records` returns the records it was given, each as often as it
/// was given.
pub proof fn lemma_sort_permutes(s: Seq<Record>)
    ensures
        sort_records(s).to_multiset() == s.to_multiset(),
    decreases s.len(),
{
    broadcast use vstd::seq_lib::group_to_multiset_ensures;

    if s.len() > 0 {
        let t = s.drop_last();
        lemma_sort_permutes(t);
        lemma_insert_point(sort_records(t), s.last());
        assert(s =~= t.push(s.last()));
        assert(sort_records(s).to_multiset() =~= sort_records(t).to_multiset().insert(s.last()));
        assert(s.to_multiset() =~= t.to_multiset().insert(s.last()));
    } else {
        assert(s =~= Seq::<Record>::empty());
    }
}

/// The records that tie with `x`.
pub open spec fn tie_class(x: Record) -> spec_fn(Record) -> bool {
    |y: Record| record_tie(x, y)
}

/// Sorting is stable: the records that tie with `x` come out in the order
/// in which they went in.
pub proof fn lemma_sort_stable(s: Seq<Record>, x: Record)
    ensures
        sort_records(s).filter(tie_class(x)) == s.filter(tie_class(x)),
    decreases s.len(),
{
    let pred = tie_class(x);
    if s.len() > 0 {
        let t = s.drop_last();
        let last = s.last();
        let r = sort_records(t);
        lemma_sort_stable(t, x);
        lemma_sort_sorted(t);
        lemma_insert_point(r, last);
        let p = insert_point(r, last) as int;
        let front = r.take(p);
        let back = r.skip(p);
        assert(r =~= front + back);
        assert(sort_records(s) =~= front.push(last) + back);
        assert(s =~= t.push(last));
        Seq::filter_distributes_over_add(front, back, pred);
        Seq::filter_distributes_over_add(front.push(last), back, pred);
        Seq::lemma_filter_push(front, last, pred);
        Seq::lemma_filter_push(t, last, pred);
        if pred(last) {
            // Everything behind the insert point comes after `last`, so
            // none of it ties with `x`.
            assert forall|k: int| 0 <= k < back.len() implies !pred(#[trigger] back[k]) by {
                assert(back[k] == r[p + k]);
                assert(record_lt(last, r[p + k]));
                lemma_record_le_lt(x, last, r[p + k]);
            }
            lemma_filter_none(back, pred);
        }
    } else {
        assert(sort_records(s) =~= s);
    }
}

/// A filter that no element passes leaves nothing.
pub proof fn lemma_filter_none(s: Seq<Record>, pred: spec_fn(Record) -> bool)
    requires
        forall|k: int| 0 <= k < s.len() ==> !pred(#[trigger] s[k]),
    ensures
        s.filter(pred) == Seq::<Record>::empty(),
    decreases s.len(),
{
    reveal(Seq::filter);
    if s.len() > 0 {
        assert forall|k: int| 0 <= k < s.drop_last().len() implies !pred(
            #[trigger] s.drop_last()[k],
        ) by {
            assert(s.drop_last()[k] == s[k]);
        }
        lemma_filter_none(s.drop_last(), pred);
        assert(!pred(s[s.len() - 1]));
    }
}

/// Sorts `lines` into emission order. The sort is stable.
pub fn sort_lines(lines: Vec<TypeDefLine>) -> (sorted: Vec<TypeDefLine>)
    ensures
        records_of(sorted@) == sort_records(records_of(lines@)),
{
    let mut out: Vec<TypeDefLine> = Vec::new();
    for line in it: lines
        invariant
            it.seq() == lines@,
            records_of(out@) == sort_records(records_of(lines@.take(it.index()))),
    {
        let ghost done = records_of(out@);
        let mut p: usize = out.len();
        while p > 0 && line.precedes(&out[p - 1])
            invariant
                p <= out.len(),
                done == records_of(out@),
                forall|k: int| p <= k < done.len() ==> record_lt(line@, #[trigger] done[k]),
            decreases p,
        {
            p -= 1;
        }
        proof {
            lemma_insert_point_is(done, line@, p as int);
            let k = it.index();
            assert(lines@.take(k + 1).drop_last() =~= lines@.take(k));
            assert(records_of(lines@.take(k + 1)).drop_last() =~= records_of(lines@.take(k)));
            assert(records_of(out@.insert(p as int, line)) =~= done.insert(p as int, line@));
        }
        out.insert(p, line);
    }
    proof {
        assert(lines@.take(lines@.len() as int) =~= lines@);
    }
    out
}

} // verus!
