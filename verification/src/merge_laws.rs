//! What holds of merged groups: their keys ascend, each namespace is
//! merged by itself, and the members of a group keep the order in which
//! their records arrived.

use crate::lex::{
    lemma_name_asymmetric, lemma_name_irreflexive, lemma_name_total, lemma_name_transitive,
    name_lt,
};
use crate::merge::{
    append_def, has_group, key_rank, lemma_key_rank, lemma_key_rank_is, lemma_target_index,
    lemma_target_index_is, merge_record, merge_records, target_index, Group,
};
use crate::record::{
    lemma_record_lt_irreflexive, lemma_record_lt_le, namespace_key, record_lt, records_sorted,
    Record,
};
use vstd::prelude::*;

verus! {

/// Whether the keys of `groups` ascend strictly, so that no key occurs
/// twice.
pub open spec fn keys_ascending(groups: Seq<Group>) -> bool {
    forall|i: int, j: int|
        0 <= i < j < groups.len() ==> name_lt((#[trigger] groups[i]).key, (#[trigger] groups[j]).key)
}

/// The members of the group of `key`; none where there is no such group.
pub open spec fn group_members(groups: Seq<Group>, key: Seq<char>) -> Seq<Record> {
    if has_group(groups, key) {
        groups[key_rank(groups, key) as int].members
    } else {
        Seq::empty()
    }
}

/// The members of one namespace after one more record: an `Impl` record
/// of the namespace is folded into its merge target, if it has one; any
/// other record of the namespace is appended; a record of another
/// namespace changes nothing.
pub open spec fn members_step(members: Seq<Record>, r: Record, key: Seq<char>) -> Seq<Record> {
    if namespace_key(r) != key {
        members
    } else if r.kind is Impl {
        let t = target_index(members, r.name);
        if t >= 0 {
            members.update(t, append_def(members[t], r.def))
        } else {
            members
        }
    } else {
        members.push(r)
    }
}

/// The members that the records of `s` leave in the namespace `key`.
pub open spec fn namespace_members(s: Seq<Record>, key: Seq<char>) -> Seq<Record>
    decreases s.len(),
{
    if s.len() == 0 {
        Seq::empty()
    } else {
        members_step(namespace_members(s.drop_last(), key), s.last(), key)
    }
}

/// In groups with ascending keys, a group stands at the rank of its key.
pub proof fn lemma_rank_of_present_key(groups: Seq<Group>, q: int)
    requires
        keys_ascending(groups),
        0 <= q < groups.len(),
    ensures
        key_rank(groups, groups[q].key) == q,
        has_group(groups, groups[q].key),
{
    let key = groups[q].key;
    assert forall|k: int| q <= k < groups.len() implies !name_lt((#[trigger] groups[k]).key, key) by {
        if k == q {
            lemma_name_irreflexive(key);
        } else {
            lemma_name_asymmetric(key, groups[k].key);
        }
    }
    lemma_key_rank_is(groups, key, q);
}

/// Where a new key goes among ascending keys, every key in front of it
/// sorts before it and every key behind it sorts after it.
pub proof fn lemma_rank_of_absent_key(groups: Seq<Group>, key: Seq<char>)
    requires
        keys_ascending(groups),
        !has_group(groups, key),
    ensures
        forall|k: int| 0 <= k < key_rank(groups, key) ==> name_lt((#[trigger] groups[k]).key, key),
        forall|k: int|
            key_rank(groups, key) <= k < groups.len() ==> name_lt(key, (#[trigger] groups[k]).key),
{
    lemma_key_rank(groups, key);
    let p = key_rank(groups, key) as int;
    assert forall|k: int| 0 <= k < p implies name_lt((#[trigger] groups[k]).key, key) by {
        if k < p - 1 {
            lemma_name_transitive(groups[k].key, groups[p - 1].key, key);
        }
    }
    assert forall|k: int| p <= k < groups.len() implies name_lt(key, (#[trigger] groups[k]).key) by {
        if !name_lt(key, groups[k].key) {
            lemma_name_total(key, groups[k].key);
            lemma_rank_of_present_key(groups, k);
        }
    }
}

/// Merging a record keeps the keys ascending.
pub proof fn lemma_merge_record_keys(groups: Seq<Group>, r: Record)
    requires
        keys_ascending(groups),
    ensures
        keys_ascending(merge_record(groups, r)),
{
    let key = namespace_key(r);
    let p = key_rank(groups, key) as int;
    let out = merge_record(groups, r);
    lemma_key_rank(groups, key);
    if has_group(groups, key) {
        if out != groups {
            assert(out.len() == groups.len());
            assert forall|i: int| 0 <= i < out.len() implies (#[trigger] out[i]).key
                == groups[i].key by {}
            assert forall|i: int, j: int| 0 <= i < j < out.len() implies name_lt(
                (#[trigger] out[i]).key,
                (#[trigger] out[j]).key,
            ) by {
                assert(name_lt(groups[i].key, groups[j].key));
            }
        }
    } else if !(r.kind is Impl) {
        lemma_rank_of_absent_key(groups, key);
        assert forall|i: int, j: int| 0 <= i < j < out.len() implies name_lt(
            (#[trigger] out[i]).key,
            (#[trigger] out[j]).key,
        ) by {
            if i == p {
                assert(out[j] == groups[j - 1]);
            } else if j == p {
                assert(out[i] == groups[i]);
            } else {
                let gi = if i < p { i } else { i - 1 };
                let gj = if j < p { j } else { j - 1 };
                assert(out[i] == groups[gi]);
                assert(out[j] == groups[gj]);
                assert(name_lt(groups[gi].key, groups[gj].key));
            }
        }
    }
}

/// The keys of merged groups ascend strictly: each namespace has one
/// group, and the groups stand in the order of their keys.
pub proof fn lemma_merge_keys_ascending(s: Seq<Record>)
    ensures
        keys_ascending(merge_records(s)),
    decreases s.len(),
{
    if s.len() > 0 {
        lemma_merge_keys_ascending(s.drop_last());
        lemma_merge_record_keys(merge_records(s.drop_last()), s.last());
    }
}

/// Merging a record acts on the group of its namespace as `members_step`
/// says, and leaves the members of every other namespace as they are.
pub proof fn lemma_merge_record_members(groups: Seq<Group>, r: Record, key: Seq<char>)
    requires
        keys_ascending(groups),
    ensures
        group_members(merge_record(groups, r), key) == members_step(
            group_members(groups, key),
            r,
            key,
        ),
        has_group(merge_record(groups, r), key) == (has_group(groups, key) || (namespace_key(r)
            == key && !(r.kind is Impl))),
{
    let rkey = namespace_key(r);
    let p = key_rank(groups, rkey) as int;
    let out = merge_record(groups, r);
    lemma_merge_record_keys(groups, r);
    lemma_key_rank(groups, rkey);
    lemma_key_rank(groups, key);
    lemma_key_rank(out, key);
    let q = key_rank(groups, key) as int;
    if out == groups {
        if rkey == key && r.kind is Impl && has_group(groups, key) {
            lemma_target_index(groups[p].members, r.name);
        }
    } else if has_group(groups, rkey) {
        // the group at `p` was replaced by one of the same key
        assert(out.len() == groups.len());
        assert(out[p].key == rkey);
        assert forall|k: int| 0 <= k < out.len() implies (#[trigger] out[k]).key
            == groups[k].key by {}
        lemma_same_keys_same_rank(groups, out, key);
        if rkey == key {
            if r.kind is Impl {
                lemma_target_index(groups[p].members, r.name);
            }
        } else if has_group(groups, key) {
            lemma_rank_of_present_key(groups, p);
            assert(q != p);
            assert(out[q] == groups[q]);
        }
    } else {
        // a group of one member was put in at `p`
        lemma_rank_of_absent_key(groups, rkey);
        assert(out[p].key == rkey);
        lemma_rank_of_present_key(out, p);
        if rkey == key {
            assert(out[p].members =~= Seq::<Record>::empty().push(r));
        } else if has_group(groups, key) {
            let q2 = if q < p { q } else { q + 1 };
            assert(out[q2] == groups[q]);
            lemma_rank_of_present_key(out, q2);
        } else {
            if has_group(out, key) {
                let k = key_rank(out, key) as int;
                assert(k != p);
                let g = if k < p { k } else { k - 1 };
                assert(out[k] == groups[g]);
                lemma_rank_of_present_key(groups, g);
            }
        }
    }
}

/// The rank of a key depends on the keys of the groups alone.
pub proof fn lemma_same_keys_same_rank(a: Seq<Group>, b: Seq<Group>, key: Seq<char>)
    requires
        a.len() == b.len(),
        forall|k: int| 0 <= k < a.len() ==> (#[trigger] b[k]).key == a[k].key,
    ensures
        key_rank(b, key) == key_rank(a, key),
        has_group(b, key) == has_group(a, key),
{
    lemma_key_rank(a, key);
    let p = key_rank(a, key) as int;
    assert forall|k: int| p <= k < b.len() implies !name_lt((#[trigger] b[k]).key, key) by {
        assert(b[k].key == a[k].key);
    }
    if p > 0 {
        assert(b[p - 1].key == a[p - 1].key);
    }
    lemma_key_rank_is(b, key, p);
    if p < a.len() {
        assert(b[p].key == a[p].key);
    }
}

/// Each namespace is merged by itself: the group of `key` holds what the
/// records of that namespace leave behind, and there is such a group as
/// soon as a record of the namespace was appended.
pub proof fn lemma_group_members(s: Seq<Record>, key: Seq<char>)
    ensures
        group_members(merge_records(s), key) == namespace_members(s, key),
        has_group(merge_records(s), key) == (namespace_members(s, key).len() > 0),
    decreases s.len(),
{
    if s.len() > 0 {
        let before = merge_records(s.drop_last());
        lemma_group_members(s.drop_last(), key);
        lemma_merge_keys_ascending(s.drop_last());
        lemma_merge_record_members(before, s.last(), key);
        lemma_target_index(namespace_members(s.drop_last(), key), s.last().name);
    } else {
        lemma_key_rank(merge_records(s), key);
    }
}

/// A member keeps its kind and its name when a body is folded into it,
/// so the merge targets stay where they are.
pub proof fn lemma_target_index_update(members: Seq<Record>, k: int, m: Record, name: Seq<char>)
    requires
        0 <= k < members.len(),
        m.kind == members[k].kind,
        m.name == members[k].name,
    ensures
        target_index(members.update(k, m), name) == target_index(members, name),
{
    lemma_target_index(members, name);
    let updated = members.update(k, m);
    let t = target_index(members, name);
    assert forall|i: int| t < i < updated.len() implies !((#[trigger] updated[i]).kind is Struct
        && updated[i].name == name) by {
        assert(members[i].kind == updated[i].kind && members[i].name == updated[i].name);
    }
    lemma_target_index_is(updated, name, t);
}

/// The members of a namespace are in emission order when the records
/// were, and none of them comes after the last record.
pub proof fn lemma_members_sorted(s: Seq<Record>, key: Seq<char>)
    requires
        records_sorted(s),
    ensures
        records_sorted(namespace_members(s, key)),
        forall|k: int|
            0 <= k < namespace_members(s, key).len() ==> !record_lt(
                s.last(),
                #[trigger] namespace_members(s, key)[k],
            ),
    decreases s.len(),
{
    if s.len() > 0 {
        let front = s.drop_last();
        let r = s.last();
        let before = namespace_members(front, key);
        let after = namespace_members(s, key);
        assert forall|i: int, j: int| 0 <= i < j < front.len() implies !record_lt(
            front[j],
            front[i],
        ) by {
            assert(front[i] == s[i] && front[j] == s[j]);
        }
        lemma_members_sorted(front, key);
        lemma_target_index(before, r.name);
        // whatever was merged so far does not come after `r`
        assert forall|k: int| 0 <= k < before.len() implies !record_lt(r, #[trigger] before[k]) by {
            if record_lt(r, before[k]) {
                assert(front.last() == s[s.len() - 2]);
                lemma_record_lt_le(r, before[k], front.last());
            }
        }
        assert forall|k: int| 0 <= k < after.len() implies !record_lt(r, #[trigger] after[k]) by {
            if k < before.len() {
                assert(after[k].kind == before[k].kind && after[k].name == before[k].name);
            } else {
                lemma_record_lt_irreflexive(r);
            }
        }
        assert forall|i: int, j: int| 0 <= i < j < after.len() implies !record_lt(
            after[j],
            after[i],
        ) by {
            assert(after[i].kind == before[i].kind && after[i].name == before[i].name);
            if j < before.len() {
                assert(after[j].kind == before[j].kind && after[j].name == before[j].name);
                assert(!record_lt(before[j], before[i]));
            } else {
                assert(after[j] == r);
                assert(!record_lt(r, before[i]));
            }
        }
    }
}

/// Within every group made of records in emission order, the members
/// stand in emission order: a member that comes before another in that
/// order stands in front of it. So `Struct` members stand in front of
/// all others, and on either side of that line the names ascend.
pub proof fn lemma_groups_sorted(s: Seq<Record>)
    requires
        records_sorted(s),
    ensures
        forall|g: int|
            0 <= g < merge_records(s).len() ==> records_sorted(
                (#[trigger] merge_records(s)[g]).members,
            ),
        forall|g: int, i: int, j: int|
            #![trigger merge_records(s)[g].members[i], merge_records(s)[g].members[j]]
            0 <= g < merge_records(s).len() && 0 <= i < merge_records(s)[g].members.len() && 0 <= j
                < merge_records(s)[g].members.len() && record_lt(
                merge_records(s)[g].members[i],
                merge_records(s)[g].members[j],
            ) ==> i < j,
{
    let groups = merge_records(s);
    lemma_merge_keys_ascending(s);
    assert forall|g: int| 0 <= g < groups.len() implies records_sorted(
        (#[trigger] groups[g]).members,
    ) by {
        lemma_rank_of_present_key(groups, g);
        lemma_group_members(s, groups[g].key);
        lemma_members_sorted(s, groups[g].key);
    }
    assert forall|g: int, i: int, j: int|
        #![trigger groups[g].members[i], groups[g].members[j]]
        0 <= g < groups.len() && 0 <= i < groups[g].members.len() && 0 <= j
            < groups[g].members.len() && record_lt(
            groups[g].members[i],
            groups[g].members[j],
        ) implies i < j by {
        assert(records_sorted(groups[g].members));
        if i == j {
            lemma_record_lt_irreflexive(groups[g].members[i]);
        }
    }
}

/// Whether `r` is a `Struct` record named `name` in the namespace `key`.
pub open spec fn is_struct_of(r: Record, name: Seq<char>, key: Seq<char>) -> bool {
    r.kind is Struct && r.name == name && namespace_key(r) == key
}

/// Whether `r` is an `Impl` record named `name` in the namespace `key`.
pub open spec fn is_impl_of(r: Record, name: Seq<char>, key: Seq<char>) -> bool {
    r.kind is Impl && r.name == name && namespace_key(r) == key
}

/// A merge target comes from a `Struct` record of that name in the same
/// namespace.
pub proof fn lemma_target_has_struct(s: Seq<Record>, name: Seq<char>, key: Seq<char>)
    requires
        target_index(namespace_members(s, key), name) >= 0,
    ensures
        exists|i: int| 0 <= i < s.len() && is_struct_of(#[trigger] s[i], name, key),
    decreases s.len(),
{
    if s.len() > 0 {
        let front = s.drop_last();
        let r = s.last();
        let before = namespace_members(front, key);
        lemma_target_index(before, r.name);
        lemma_target_index(before, name);
        lemma_target_index(namespace_members(s, key), name);
        if is_struct_of(r, name, key) {
            assert(is_struct_of(s[s.len() - 1], name, key));
        } else {
            if namespace_key(r) == key {
                if r.kind is Impl {
                    if target_index(before, r.name) >= 0 {
                        let t = target_index(before, r.name);
                        lemma_target_index_update(before, t, append_def(before[t], r.def), name);
                    }
                } else {
                    assert(namespace_members(s, key).drop_last() =~= before);
                }
            }
            lemma_target_has_struct(front, name, key);
            let i = choose|i: int| 0 <= i < front.len() && is_struct_of(#[trigger] front[i], name, key);
            assert(is_struct_of(s[i], name, key));
        }
    }
}

/// An `Impl` record without a `Struct` record of its name in front of it
/// in its namespace leaves no trace: the groups are what they would be
/// without it.
pub proof fn lemma_dangling_impl(a: Seq<Record>, z: Record, b: Seq<Record>)
    requires
        z.kind is Impl,
        forall|i: int| 0 <= i < a.len() ==> !is_struct_of(#[trigger] a[i], z.name, namespace_key(z)),
    ensures
        merge_records(a + seq![z] + b) == merge_records(a + b),
    decreases b.len(),
{
    if b.len() == 0 {
        let key = namespace_key(z);
        assert(a + seq![z] + b =~= a.push(z));
        assert(a.push(z).drop_last() =~= a);
        assert(a + b =~= a);
        if target_index(namespace_members(a, key), z.name) >= 0 {
            lemma_target_has_struct(a, z.name, key);
        }
        lemma_group_members(a, key);
    } else {
        assert((a + seq![z] + b).drop_last() =~= a + seq![z] + b.drop_last());
        assert((a + b).drop_last() =~= a + b.drop_last());
        lemma_dangling_impl(a, z, b.drop_last());
    }
}

/// The body `acc` with `def` folded in.
pub open spec fn joined(acc: Seq<char>, def: Seq<char>) -> Seq<char> {
    if acc.len() > 0 {
        acc + seq!['\n'] + def
    } else {
        def
    }
}

/// The body `def` after the bodies of the `Impl` records named `name` in
/// the namespace `key` among `rest` were folded in, in their order.
pub open spec fn folded_def(def: Seq<char>, rest: Seq<Record>, name: Seq<char>, key: Seq<char>) -> Seq<
    char,
>
    decreases rest.len(),
{
    if rest.len() == 0 {
        def
    } else if is_impl_of(rest.last(), name, key) {
        joined(folded_def(def, rest.drop_last(), name, key), rest.last().def)
    } else {
        folded_def(def, rest.drop_last(), name, key)
    }
}

/// A `Struct` record collects the `Impl` records of its name that follow
/// it in its namespace, up to the next `Struct` record of that name: its
/// body is its own, followed by theirs in their order, joined by line
/// feeds.
pub proof fn lemma_struct_collects_impls(pre: Seq<Record>, st: Record, rest: Seq<Record>)
    requires
        st.kind is Struct,
        forall|k: int|
            0 <= k < rest.len() ==> !is_struct_of(#[trigger] rest[k], st.name, namespace_key(st)),
    ensures
        ({
            let members = namespace_members(pre + seq![st] + rest, namespace_key(st));
            let t = target_index(members, st.name);
            &&& t >= 0
            &&& members[t] == Record {
                def: folded_def(st.def, rest, st.name, namespace_key(st)),
                ..st
            }
        }),
    decreases rest.len(),
{
    let key = namespace_key(st);
    let all = pre + seq![st] + rest;
    if rest.len() == 0 {
        assert(all =~= pre.push(st));
        assert(all.drop_last() =~= pre);
        let before = namespace_members(pre, key);
        lemma_target_index_is(before.push(st), st.name, before.len() as int);
    } else {
        let x = rest.last();
        let front = rest.drop_last();
        assert(all.drop_last() =~= pre + seq![st] + front);
        assert(all.last() == x);
        assert forall|k: int| 0 <= k < front.len() implies !is_struct_of(
            #[trigger] front[k],
            st.name,
            key,
        ) by {
            assert(front[k] == rest[k]);
        }
        lemma_struct_collects_impls(pre, st, front);
        let before = namespace_members(pre + seq![st] + front, key);
        let t = target_index(before, st.name);
        lemma_target_index(before, st.name);
        lemma_target_index(before, x.name);
        assert(!is_struct_of(rest[rest.len() - 1], st.name, key));
        if namespace_key(x) == key {
            if x.kind is Impl {
                let tx = target_index(before, x.name);
                if tx >= 0 {
                    lemma_target_index_update(before, tx, append_def(before[tx], x.def), st.name);
                }
            } else {
                let after = before.push(x);
                assert(after.drop_last() =~= before);
            }
        }
    }
}

/// The records that are appended to the group of `key`: those of that
/// namespace that are not `Impl` records.
pub open spec fn member_class(key: Seq<char>) -> spec_fn(Record) -> bool {
    |r: Record| !(r.kind is Impl) && namespace_key(r) == key
}

/// Whether `a` is `b` but for its body.
pub open spec fn same_but_def(a: Record, b: Record) -> bool {
    a == Record { def: a.def, ..b }
}

/// Grouping is a stable partition: the members of a namespace are its
/// records that are not `Impl` records, in the order in which they
/// arrived. Merging changes nothing but the bodies of `Struct` members.
pub proof fn lemma_members_partition(s: Seq<Record>, key: Seq<char>)
    ensures
        namespace_members(s, key).len() == s.filter(member_class(key)).len(),
        forall|k: int|
            #![trigger namespace_members(s, key)[k]]
            0 <= k < namespace_members(s, key).len() ==> {
                &&& same_but_def(namespace_members(s, key)[k], s.filter(member_class(key))[k])
                &&& !(namespace_members(s, key)[k].kind is Struct) ==> namespace_members(s, key)[k]
                    == s.filter(member_class(key))[k]
            },
    decreases s.len(),
{
    let class = member_class(key);
    if s.len() > 0 {
        let front = s.drop_last();
        let r = s.last();
        let before = namespace_members(front, key);
        let after = namespace_members(s, key);
        lemma_members_partition(front, key);
        Seq::lemma_filter_push(front, r, class);
        assert(front.push(r) =~= s);
        lemma_target_index(before, r.name);
        assert forall|k: int| #![trigger after[k]] 0 <= k < after.len() implies {
            &&& same_but_def(after[k], s.filter(class)[k])
            &&& !(after[k].kind is Struct) ==> after[k] == s.filter(class)[k]
        } by {
            if k < before.len() {
                assert(same_but_def(before[k], front.filter(class)[k]));
            }
        }
    } else {
        reveal(Seq::filter);
    }
}

} // verus!
