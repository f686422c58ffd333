//! What holds of a declaration file as a whole.

use crate::emit::{class_tail, declaration, declaration_text, doc_text, render_group, render_members};
use crate::lex::lemma_name_irreflexive;
use crate::merge::{has_group, lemma_target_index, merge_records, target_index, Group};
use crate::merge_laws::{
    folded_def, group_members, is_impl_of, is_struct_of, lemma_dangling_impl, lemma_group_members,
    lemma_groups_sorted, lemma_struct_collects_impls, namespace_members,
};
use crate::record::{
    namespace_key, record_lt, record_tie, records_sorted, Record, TypeDefKind, TOP_LEVEL_NAMESPACE,
};
use crate::sort::{lemma_filter_none, lemma_sort_sorted, sort_records, tie_class};
use crate::sort_laws::{
    lemma_filter_drop_last, lemma_sort_member, lemma_sort_order_independent, lemma_sort_remove,
    lemma_sort_stable_within,
};
use vstd::prelude::*;

verus! {

/// The `Struct` records named `name` in the namespace `key`.
pub open spec fn struct_class(name: Seq<char>, key: Seq<char>) -> spec_fn(Record) -> bool {
    |r: Record| is_struct_of(r, name, key)
}

/// The `Impl` records named `name` in the namespace `key`.
pub open spec fn impl_class(name: Seq<char>, key: Seq<char>) -> spec_fn(Record) -> bool {
    |r: Record| is_impl_of(r, name, key)
}

/// The text of a file depends on the order of its records only through
/// the order of records that tie: two files that hold, for every class
/// of records that tie, the same records in the same order give the
/// same text.
pub proof fn lemma_text_order_independent(s1: Seq<Record>, s2: Seq<Record>, with_header: bool)
    requires
        forall|x: Record| s1.filter(tie_class(x)) == #[trigger] s2.filter(tie_class(x)),
    ensures
        declaration_text(sort_records(s1), with_header) == declaration_text(
            sort_records(s2),
            with_header,
        ),
{
    lemma_sort_order_independent(s1, s2);
}

/// In every group of a file, the members stand in emission order: the
/// `Struct` members in front of all others, and on either side of that
/// line by ascending name.
pub proof fn lemma_members_in_emission_order(s: Seq<Record>, g: int, i: int, j: int)
    requires
        0 <= g < merge_records(sort_records(s)).len(),
        0 <= i < merge_records(sort_records(s))[g].members.len(),
        0 <= j < merge_records(sort_records(s))[g].members.len(),
    ensures
        ({
            let members = merge_records(sort_records(s))[g].members;
            &&& record_lt(members[i], members[j]) ==> i < j
            &&& i < j ==> !record_lt(members[j], members[i])
            &&& members[i].kind is Struct && !(members[j].kind is Struct) ==> i < j
        }),
{
    lemma_sort_sorted(s);
    lemma_groups_sorted(sort_records(s));
    let members = merge_records(sort_records(s))[g].members;
    assert(records_sorted(members));
    if i == j {
        lemma_name_irreflexive(members[i].name);
    }
}

/// The body of a class is the body of its `Struct` record followed by
/// the bodies of the `Impl` records of its name and namespace, in file
/// order, joined by line feeds. Where the file holds several `Struct`
/// records of one name in one namespace, the last of them collects.
pub proof fn lemma_class_body(s: Seq<Record>, name: Seq<char>, key: Seq<char>)
    requires
        s.filter(struct_class(name, key)).len() > 0,
    ensures
        ({
            let st = s.filter(struct_class(name, key)).last();
            let groups = merge_records(sort_records(s));
            let members = group_members(groups, key);
            let t = target_index(members, name);
            &&& has_group(groups, key)
            &&& 0 <= t < members.len()
            &&& members[t] == Record { def: folded_def(st.def, s, name, key), ..st }
        }),
{
    let structs = struct_class(name, key);
    let impls = impl_class(name, key);
    let r = sort_records(s);
    lemma_sort_sorted(s);
    // the sort keeps the order of the structs and of the impls
    let some_struct = Record {
        kind: TypeDefKind::Struct,
        name,
        original_name: None,
        def: Seq::empty(),
        doc_comment: None,
        namespace: None,
    };
    let some_impl = Record { kind: TypeDefKind::Impl, ..some_struct };
    lemma_name_irreflexive(name);
    assert forall|x: Record| #[trigger] structs(x) implies record_tie(some_struct, x) by {}
    assert forall|x: Record| #[trigger] impls(x) implies record_tie(some_impl, x) by {}
    lemma_sort_stable_within(s, some_struct, structs);
    lemma_sort_stable_within(s, some_impl, impls);
    let st = s.filter(structs).last();
    // split the sorted file at its last struct of the name
    let j = lemma_last_match(r, structs);
    let pre = r.take(j);
    let rest = r.skip(j + 1);
    assert(r =~= pre + seq![st] + rest);
    assert forall|k: int| 0 <= k < rest.len() implies !is_struct_of(
        #[trigger] rest[k],
        st.name,
        namespace_key(st),
    ) by {
        assert(rest[k] == r[j + 1 + k]);
        assert(!structs(r[j + 1 + k]));
    }
    lemma_struct_collects_impls(pre, st, rest);
    // nothing in front of a struct is an impl
    assert forall|k: int| 0 <= k < pre.len() implies !impls(#[trigger] pre[k]) by {
        assert(pre[k] == r[k]);
        assert(!record_lt(r[j], r[k]));
    }
    lemma_filter_none(pre, impls);
    lemma_filter_none(seq![st], impls);
    Seq::filter_distributes_over_add(pre, seq![st], impls);
    Seq::filter_distributes_over_add(pre + seq![st], rest, impls);
    assert(rest.filter(impls) =~= r.filter(impls));
    lemma_folded_def_filter(st.def, rest, name, key);
    lemma_folded_def_filter(st.def, s, name, key);
    assert(r.filter(impls) == s.filter(impls));
    assert(folded_def(st.def, rest, name, key) == folded_def(st.def, s, name, key));
    lemma_group_members(r, key);
    let members = namespace_members(r, key);
    assert(structs(st));
    assert(namespace_key(st) == key && st.name == name);
    assert(members == namespace_members(pre + seq![st] + rest, namespace_key(st)));
    lemma_target_index(members, name);
    assert(target_index(members, name) >= 0);
}

/// The last record that a filter lets through, and where it stands.
pub proof fn lemma_last_match(s: Seq<Record>, class: spec_fn(Record) -> bool) -> (j: int)
    requires
        s.filter(class).len() > 0,
    ensures
        0 <= j < s.len(),
        class(s[j]),
        s[j] == s.filter(class).last(),
        forall|k: int| j < k < s.len() ==> !class(#[trigger] s[k]),
    decreases s.len(),
{
    if s.len() == 0 {
        lemma_filter_none(s, class);
        0
    } else {
        lemma_filter_drop_last(s, class);
        if class(s.last()) {
            s.len() - 1
        } else {
            let j = lemma_last_match(s.drop_last(), class);
            assert(s.drop_last()[j] == s[j]);
            assert forall|k: int| j < k < s.len() implies !class(#[trigger] s[k]) by {
                if k < s.len() - 1 {
                    assert(s.drop_last()[k] == s[k]);
                }
            }
            j
        }
    }
}

/// Only the `Impl` records of the name and namespace count for what is
/// folded into a body.
pub proof fn lemma_folded_def_filter(
    def: Seq<char>,
    rest: Seq<Record>,
    name: Seq<char>,
    key: Seq<char>,
)
    ensures
        folded_def(def, rest, name, key) == folded_def(
            def,
            rest.filter(impl_class(name, key)),
            name,
            key,
        ),
    decreases rest.len(),
{
    let impls = impl_class(name, key);
    if rest.len() > 0 {
        lemma_folded_def_filter(def, rest.drop_last(), name, key);
        lemma_filter_drop_last(rest, impls);
    } else {
        lemma_filter_none(rest, impls);
    }
}

/// A class whose record bears an original name other than its exported
/// name is followed by the alias that binds the one to the other.
pub proof fn lemma_alias_follows_class(r: Record, original: Seq<char>)
    requires
        r.kind is Struct,
        r.original_name == Some(original),
        original != r.name,
    ensures
        declaration(r) == doc_text(r) + "export class "@ + r.name + " {\n"@ + r.def + "\n}"@ + (
        "\nexport type "@ + original + " = "@ + r.name + "\n\n"@),
{
}

/// An `Impl` record without a `Struct` record of its name in its
/// namespace adds nothing to the text of a file.
pub proof fn lemma_dangling_impl_text(a: Seq<Record>, z: Record, b: Seq<Record>, with_header: bool)
    requires
        z.kind is Impl,
        forall|i: int| 0 <= i < a.len() ==> !is_struct_of(#[trigger] a[i], z.name, namespace_key(z)),
        forall|i: int| 0 <= i < b.len() ==> !is_struct_of(#[trigger] b[i], z.name, namespace_key(z)),
    ensures
        declaration_text(sort_records(a + seq![z] + b), with_header) == declaration_text(
            sort_records(a + b),
            with_header,
        ),
{
    let s = a + seq![z] + b;
    let r = sort_records(s);
    let k = lemma_sort_remove(s, a.len() as int);
    assert(s.remove(a.len() as int) =~= a + b);
    let pre = r.take(k);
    let post = r.skip(k + 1);
    assert(r =~= pre + seq![z] + post);
    assert(r.remove(k) =~= pre + post);
    assert forall|m: int| 0 <= m < pre.len() implies !is_struct_of(
        #[trigger] pre[m],
        z.name,
        namespace_key(z),
    ) by {
        let i = lemma_sort_member(s, m);
        assert(pre[m] == r[m]);
        if i < a.len() {
            assert(s[i] == a[i]);
        } else if i > a.len() {
            assert(s[i] == b[i - a.len() - 1]);
        }
    }
    lemma_dangling_impl(pre, z, post);
}

/// A group of a namespace other than the top level is a namespace block
/// around its members, which are indented by two.
pub proof fn lemma_namespace_block(g: Group)
    requires
        g.key != TOP_LEVEL_NAMESPACE@,
    ensures
        render_group(g) == "export namespace "@ + g.key + " {\n"@ + render_members(g.members, 2)
            + "}\n"@,
{
}

/// Every record that is not an `Impl` record has the group of its
/// namespace in the file.
pub proof fn lemma_record_has_group(s: Seq<Record>, i: int)
    requires
        0 <= i < s.len(),
        !(s[i].kind is Impl),
    ensures
        has_group(merge_records(sort_records(s)), namespace_key(s[i])),
{
    let r = sort_records(s);
    let key = namespace_key(s[i]);
    let k = lemma_sort_remove(s, i);
    lemma_members_hold(r, k);
    lemma_group_members(r, key);
}

/// The namespace of a record that is not an `Impl` record has members.
pub proof fn lemma_members_hold(s: Seq<Record>, i: int)
    requires
        0 <= i < s.len(),
        !(s[i].kind is Impl),
    ensures
        namespace_members(s, namespace_key(s[i])).len() > 0,
    decreases s.len(),
{
    let key = namespace_key(s[i]);
    if i < s.len() - 1 {
        assert(s.drop_last()[i] == s[i]);
        lemma_members_hold(s.drop_last(), i);
        lemma_target_index(namespace_members(s.drop_last(), key), s.last().name);
    }
}

} // verus!
