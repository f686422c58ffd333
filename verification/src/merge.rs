//! Grouping of records by namespace, and folding of `Impl` records into
//! the `Struct` record that they extend.

use crate::lex::{name_lt, str_lt};
use crate::record::{
    namespace_key, records_of, Record, TypeDefKind, TypeDefLine, TOP_LEVEL_NAMESPACE,
};
use vstd::prelude::*;
use vstd::string::StringExecFns;

verus! {

/// The records of one namespace, in the order in which they are emitted.
#[derive(Debug)]
pub struct NamespaceGroup {
    /// The namespace key; `TOP_LEVEL_NAMESPACE` for the top level.
    pub namespace: String,
    /// The members of the group.
    pub lines: Vec<TypeDefLine>,
}

/// The mathematical content of a `NamespaceGroup`.
pub struct Group {
    pub key: Seq<char>,
    pub members: Seq<Record>,
}

impl View for NamespaceGroup {
    type V = Group;

    open spec fn view(&self) -> Group {
        Group { key: self.namespace@, members: records_of(self.lines@) }
    }
}

/// The groups that a sequence of `NamespaceGroup`s stands for.
pub open spec fn groups_of(groups: Seq<NamespaceGroup>) -> Seq<Group> {
    groups.map_values(|g: NamespaceGroup| g@)
}

/// Where the group of `key` stands, or would stand, among groups in
/// ascending key order: behind every group whose key sorts before `key`.
pub open spec fn key_rank(groups: Seq<Group>, key: Seq<char>) -> nat
    decreases groups.len(),
{
    if groups.len() > 0 && !name_lt(groups.last().key, key) {
        key_rank(groups.drop_last(), key)
    } else {
        groups.len()
    }
}

/// Whether `groups` holds a group of `key` at the rank of `key`.
pub open spec fn has_group(groups: Seq<Group>, key: Seq<char>) -> bool {
    key_rank(groups, key) < groups.len() && groups[key_rank(groups, key) as int].key == key
}

/// The merge target for `name` among `members`: the index of the last
/// `Struct` record of that name, or -1 if there is none.
pub open spec fn target_index(members: Seq<Record>, name: Seq<char>) -> int
    decreases members.len(),
{
    if members.len() == 0 {
        -1
    } else if members.last().kind is Struct && members.last().name == name {
        members.len() - 1
    } else {
        target_index(members.drop_last(), name)
    }
}

/// `target` after the body `def` of an `Impl` record was folded into
/// it: the bodies are joined by a line feed, unless the target had no
/// body yet.
pub open spec fn append_def(target: Record, def: Seq<char>) -> Record {
    Record {
        def: if target.def.len() > 0 {
            target.def + seq!['\n'] + def
        } else {
            def
        },
        ..target
    }
}

/// The groups after one more record has been merged into them.
///
/// An `Impl` record is folded into the merge target of its name in the
/// group of its namespace; where that group or that target is missing,
/// the record is dropped. Any other record is appended to the group of
/// its namespace, which is created at its rank if it is not there yet.
pub open spec fn merge_record(groups: Seq<Group>, r: Record) -> Seq<Group> {
    let key = namespace_key(r);
    let p = key_rank(groups, key) as int;
    if r.kind is Impl {
        if has_group(groups, key) && target_index(groups[p].members, r.name) >= 0 {
            let t = target_index(groups[p].members, r.name);
            let merged = groups[p].members.update(t, append_def(groups[p].members[t], r.def));
            groups.update(p, Group { key, members: merged })
        } else {
            groups
        }
    } else if has_group(groups, key) {
        groups.update(p, Group { key, members: groups[p].members.push(r) })
    } else {
        groups.insert(p, Group { key, members: seq![r] })
    }
}

/// The groups that the records of `s` make, merged one by one from the
/// first to the last.
pub open spec fn merge_records(s: Seq<Record>) -> Seq<Group>
    decreases s.len(),
{
    if s.len() == 0 {
        Seq::empty()
    } else {
        merge_record(merge_records(s.drop_last()), s.last())
    }
}

/// No key behind the rank of `key` sorts before `key`, and the key in
/// front of it does.
pub proof fn lemma_key_rank(groups: Seq<Group>, key: Seq<char>)
    ensures
        key_rank(groups, key) <= groups.len(),
        forall|k: int|
            key_rank(groups, key) <= k < groups.len() ==> !name_lt(
                (#[trigger] groups[k]).key,
                key,
            ),
        key_rank(groups, key) > 0 ==> name_lt(groups[key_rank(groups, key) - 1].key, key),
    decreases groups.len(),
{
    if groups.len() > 0 && !name_lt(groups.last().key, key) {
        let t = groups.drop_last();
        lemma_key_rank(t, key);
        assert forall|k: int| key_rank(groups, key) <= k < groups.len() implies !name_lt(
            (#[trigger] groups[k]).key,
            key,
        ) by {
            if k < t.len() {
                assert(groups[k] == t[k]);
            }
        }
        if key_rank(groups, key) > 0 {
            assert(groups[key_rank(groups, key) - 1] == t[key_rank(t, key) - 1]);
        }
    }
}

/// The rank of `key` is the index that splits `groups` as `lemma_key_rank`
/// says.
pub proof fn lemma_key_rank_is(groups: Seq<Group>, key: Seq<char>, p: int)
    requires
        0 <= p <= groups.len(),
        forall|k: int| p <= k < groups.len() ==> !name_lt((#[trigger] groups[k]).key, key),
        p > 0 ==> name_lt(groups[p - 1].key, key),
    ensures
        key_rank(groups, key) == p,
    decreases groups.len(),
{
    if p < groups.len() {
        assert(!name_lt(groups[groups.len() - 1].key, key));
        let t = groups.drop_last();
        assert forall|k: int| p <= k < t.len() implies !name_lt((#[trigger] t[k]).key, key) by {
            assert(t[k] == groups[k]);
        }
        if p > 0 {
            assert(t[p - 1] == groups[p - 1]);
        }
        lemma_key_rank_is(t, key, p);
    }
}

/// The merge target is a `Struct` member of that name, and no member
/// behind it is one.
pub proof fn lemma_target_index(members: Seq<Record>, name: Seq<char>)
    ensures
        -1 <= target_index(members, name) < members.len(),
        target_index(members, name) >= 0 ==> {
            &&& members[target_index(members, name)].kind is Struct
            &&& members[target_index(members, name)].name == name
        },
        forall|k: int|
            target_index(members, name) < k < members.len() ==> !((#[trigger] members[k]).kind
                is Struct && members[k].name == name),
    decreases members.len(),
{
    if members.len() > 0 && !(members.last().kind is Struct && members.last().name == name) {
        let t = members.drop_last();
        lemma_target_index(t, name);
        assert forall|k: int| target_index(members, name) < k < members.len() implies !((
        #[trigger] members[k]).kind is Struct && members[k].name == name) by {
            if k < t.len() {
                assert(members[k] == t[k]);
            }
        }
        if target_index(members, name) >= 0 {
            assert(members[target_index(members, name)] == t[target_index(t, name)]);
        }
    }
}

/// The merge target is the index that `lemma_target_index` describes.
pub proof fn lemma_target_index_is(members: Seq<Record>, name: Seq<char>, t: int)
    requires
        -1 <= t < members.len(),
        t >= 0 ==> members[t].kind is Struct && members[t].name == name,
        forall|k: int|
            t < k < members.len() ==> !((#[trigger] members[k]).kind is Struct && members[k].name
                == name),
    ensures
        target_index(members, name) == t,
    decreases members.len(),
{
    if members.len() > 0 && t < members.len() - 1 {
        let m = members.drop_last();
        assert(!(members[members.len() - 1].kind is Struct && members[members.len() - 1].name
            == name));
        assert forall|k: int| t < k < m.len() implies !((#[trigger] m[k]).kind is Struct && m[k].name
            == name) by {
            assert(m[k] == members[k]);
        }
        if t >= 0 {
            assert(m[t] == members[t]);
        }
        lemma_target_index_is(m, name, t);
    }
}

/// The index of the last `Struct` record named `name` among `lines`.
pub fn find_target(lines: &Vec<TypeDefLine>, name: &String) -> (found: Option<usize>)
    ensures
        match found {
            Some(t) => t < lines.len() && t == target_index(records_of(lines@), name@),
            None => target_index(records_of(lines@), name@) == -1,
        },
{
    let mut t: usize = lines.len();
    while t > 0
        invariant
            t <= lines.len(),
            forall|k: int|
                t <= k < lines.len() ==> !((#[trigger] records_of(lines@)[k]).kind is Struct
                    && records_of(lines@)[k].name == name@),
        decreases t,
    {
        t -= 1;
        if matches!(lines[t].kind, TypeDefKind::Struct) && lines[t].name == *name {
            proof {
                lemma_target_index_is(records_of(lines@), name@, t as int);
            }
            return Some(t);
        }
    }
    proof {
        lemma_target_index_is(records_of(lines@), name@, -1);
    }
    None
}

/// Folds the body `def` of an `Impl` record into `target`.
pub fn fold_into(target: &mut TypeDefLine, def: &str)
    ensures
        final(target)@ == append_def(old(target)@, def@),
{
    if !target.def.as_str().is_empty() {
        target.def.push('\n');
    }
    target.def.append(def);
    assert(target.def@ =~= append_def(old(target)@, def@).def);
}

/// Merges one more line into `groups`.
pub fn merge_line(groups: &mut Vec<NamespaceGroup>, line: TypeDefLine)
    ensures
        groups_of(final(groups)@) == merge_record(groups_of(old(groups)@), line@),
{
    let key: String = match &line.namespace {
        Some(ns) => ns.clone(),
        None => String::from_str(TOP_LEVEL_NAMESPACE),
    };
    let ghost before = groups_of(groups@);
    let mut p: usize = groups.len();
    while p > 0 && !str_lt(groups[p - 1].namespace.as_str(), key.as_str())
        invariant
            p <= groups.len(),
            groups@ == old(groups)@,
            before == groups_of(groups@),
            forall|k: int| p <= k < before.len() ==> !name_lt((#[trigger] before[k]).key, key@),
        decreases p,
    {
        p -= 1;
    }
    proof {
        lemma_key_rank_is(before, key@, p as int);
    }
    let present = p < groups.len() && groups[p].namespace == key;
    match line.kind {
        TypeDefKind::Impl => {
            if present {
                match find_target(&groups[p].lines, &line.name) {
                    Some(t) => {
                        fold_into(&mut groups[p].lines[t], line.def.as_str());
                        proof {
                            let merged = before[p as int].members.update(
                                t as int,
                                append_def(before[p as int].members[t as int], line.def@),
                            );
                            assert(groups@[p as int]@.members =~= merged);
                            assert(groups_of(groups@) =~= before.update(
                                p as int,
                                Group { key: key@, members: merged },
                            ));
                        }
                    },
                    None => {},
                }
            }
        },
        _ => {
            if present {
                groups[p].lines.push(line);
                proof {
                    assert(groups@[p as int]@.members =~= before[p as int].members.push(line@));
                    assert(groups_of(groups@) =~= before.update(
                        p as int,
                        Group { key: key@, members: before[p as int].members.push(line@) },
                    ));
                }
            } else {
                let ghost rec = line@;
                let mut lines: Vec<TypeDefLine> = Vec::new();
                lines.push(line);
                assert(records_of(lines@) =~= seq![rec]);
                groups.insert(p, NamespaceGroup { namespace: key, lines });
                assert(groups_of(groups@) =~= before.insert(
                    p as int,
                    Group { key: key@, members: seq![rec] },
                ));
            }
        },
    }
}

impl TypeDefLine {
    /// Groups `lines` by namespace, in ascending order of the namespace
    /// key, and folds each `Impl` record into the `Struct` record of its
    /// name that precedes it in the same namespace.
    pub fn preprocess(lines: Vec<TypeDefLine>) -> (groups: Vec<NamespaceGroup>)
        ensures
            groups_of(groups@) == merge_records(records_of(lines@)),
    {
        let mut groups: Vec<NamespaceGroup> = Vec::new();
        assert(groups_of(groups@) =~= Seq::<Group>::empty());
        for line in it: lines
            invariant
                it.seq() == lines@,
                groups_of(groups@) == merge_records(records_of(lines@.take(it.index()))),
        {
            proof {
                let k = it.index();
                assert(records_of(lines@.take(k + 1)).drop_last() =~= records_of(lines@.take(k)));
            }
            merge_line(&mut groups, line);
        }
        proof {
            assert(lines@.take(lines@.len() as int) =~= lines@);
        }
        groups
    }
}

} // verus!
