//! Type-definition records: one exported symbol each, as the producer
//! wrote them down, and the order in which they are emitted.

use crate::lex::{
    lemma_name_asymmetric, lemma_name_irreflexive, lemma_name_total, lemma_name_transitive,
    name_lt, str_lt,
};
use vstd::prelude::*;

verus! {

/// What kind of symbol a record describes.
#[derive(Clone, Copy, Debug, PartialEq, Eq, Structural)]
pub enum TypeDefKind {
    Const,
    Fn,
    Struct,
    Impl,
    Enum,
    Interface,
}

/// One exported symbol.
#[derive(Clone, Debug, PartialEq, Eq)]
pub struct TypeDefLine {
    /// Decides the template and whether the record takes part in merging.
    pub kind: TypeDefKind,
    /// The exported identifier.
    pub name: String,
    /// The internal identifier, where it differs from the exported one;
    /// read for `Struct` records only.
    pub original_name: Option<String>,
    /// The unindented body or signature.
    pub def: String,
    /// Documentation emitted verbatim in front of the declaration.
    pub doc_comment: Option<String>,
    /// The namespace the symbol belongs to; `None` is the top level.
    pub namespace: Option<String>,
}

/// The mathematical content of a `TypeDefLine`.
pub struct Record {
    pub kind: TypeDefKind,
    pub name: Seq<char>,
    pub original_name: Option<Seq<char>>,
    pub def: Seq<char>,
    pub doc_comment: Option<Seq<char>>,
    pub namespace: Option<Seq<char>>,
}

/// The characters of an optional string.
pub open spec fn opt_text(o: Option<String>) -> Option<Seq<char>> {
    match o {
        Some(s) => Some(s@),
        None => None,
    }
}

impl View for TypeDefLine {
    type V = Record;

    open spec fn view(&self) -> Record {
        Record {
            kind: self.kind,
            name: self.name@,
            original_name: opt_text(self.original_name),
            def: self.def@,
            doc_comment: opt_text(self.doc_comment),
            namespace: opt_text(self.namespace),
        }
    }
}

/// The records that a sequence of lines stands for.
pub open spec fn records_of(lines: Seq<TypeDefLine>) -> Seq<Record> {
    lines.map_values(|l: TypeDefLine| l@)
}

/// The key under which records without a namespace are grouped.
pub const TOP_LEVEL_NAMESPACE: &'static str = "__TOP_LEVEL__";

/// The key of the group that `r` belongs to.
pub open spec fn namespace_key(r: Record) -> Seq<char> {
    match r.namespace {
        Some(ns) => ns,
        None => TOP_LEVEL_NAMESPACE@,
    }
}

/// The emission order: `a` comes strictly before `b` when `a` is a
/// `Struct` and `b` is not, or when both are on the same side of that
/// line and the name of `a` sorts before the name of `b`.
pub open spec fn record_lt(a: Record, b: Record) -> bool {
    if a.kind is Struct {
        !(b.kind is Struct) || name_lt(a.name, b.name)
    } else {
        !(b.kind is Struct) && name_lt(a.name, b.name)
    }
}

/// Two records tie when neither comes before the other: both are
/// `Struct` or neither is, and they bear the same name.
pub open spec fn record_tie(a: Record, b: Record) -> bool {
    !record_lt(a, b) && !record_lt(b, a)
}

/// Whether `s` is in emission order.
pub open spec fn records_sorted(s: Seq<Record>) -> bool {
    forall|i: int, j: int| 0 <= i < j < s.len() ==> !record_lt(s[j], s[i])
}

/// No record comes before itself.
pub proof fn lemma_record_lt_irreflexive(a: Record)
    ensures
        !record_lt(a, a),
{
    lemma_name_irreflexive(a.name);
}

/// Of two records at most one comes before the other.
pub proof fn lemma_record_lt_asymmetric(a: Record, b: Record)
    requires
        record_lt(a, b),
    ensures
        !record_lt(b, a),
{
    if name_lt(a.name, b.name) {
        lemma_name_asymmetric(a.name, b.name);
    }
}

/// The emission order is transitive.
pub proof fn lemma_record_lt_transitive(a: Record, b: Record, c: Record)
    requires
        record_lt(a, b),
        record_lt(b, c),
    ensures
        record_lt(a, c),
{
    if name_lt(a.name, b.name) && name_lt(b.name, c.name) {
        lemma_name_transitive(a.name, b.name, c.name);
    }
}

/// Records that tie agree on their side of the `Struct` line and on
/// their name.
pub proof fn lemma_record_tie(a: Record, b: Record)
    requires
        record_tie(a, b),
    ensures
        (a.kind is Struct) == (b.kind is Struct),
        a.name == b.name,
{
    lemma_name_total(a.name, b.name);
}

/// A record that does not come after `b` comes before whatever `b`
/// comes before.
pub proof fn lemma_record_le_lt(a: Record, b: Record, c: Record)
    requires
        !record_lt(b, a),
        record_lt(b, c),
    ensures
        record_lt(a, c),
{
    if record_lt(a, b) {
        lemma_record_lt_transitive(a, b, c);
    } else {
        lemma_record_tie(a, b);
    }
}

/// A record that comes before `b` comes before whatever does not come
/// before `b`.
pub proof fn lemma_record_lt_le(a: Record, b: Record, c: Record)
    requires
        record_lt(a, b),
        !record_lt(c, b),
    ensures
        record_lt(a, c),
{
    if record_lt(b, c) {
        lemma_record_lt_transitive(a, b, c);
    } else {
        lemma_record_tie(b, c);
    }
}

impl TypeDefLine {
    /// Whether `self` comes strictly before `other` in emission order.
    pub fn precedes(&self, other: &TypeDefLine) -> (r: bool)
        ensures
            r == record_lt(self@, other@),
    {
        let a_struct = matches!(self.kind, TypeDefKind::Struct);
        let b_struct = matches!(other.kind, TypeDefKind::Struct);
        if a_struct {
            !b_struct || str_lt(self.name.as_str(), other.name.as_str())
        } else {
            !b_struct && str_lt(self.name.as_str(), other.name.as_str())
        }
    }
}

} // verus!
