//! Rendering of records and namespace groups into declaration text.

use crate::indent::{correct_str_indent, reindent};
use crate::merge::{groups_of, merge_records, Group, NamespaceGroup};
use crate::record::{records_of, Record, TypeDefKind, TypeDefLine, TOP_LEVEL_NAMESPACE};
use crate::sort::{sort_lines, sort_records};
use crate::text::{chars_of, push_range};
use vstd::prelude::*;
use vstd::string::StringExecFns;

verus! {

/// The comment block that opens a declaration file on request.
pub const TYPE_DEF_HEADER: &'static str =
    "/* tslint:disable */\n/* eslint-disable */\n\n/* auto-generated by NAPI-RS */\n\n";

/// The declaration of the opaque handle type, which every file carries.
pub const EXTERNAL_OBJECT: &'static str =
    "export class ExternalObject<T> {\n  readonly '': {\n    readonly '': unique symbol\n    [K: symbol]: T\n  }\n}\n\n";

/// What `into_dts` answers when there is nothing to emit.
pub const NO_DEFINITIONS: &'static str = "No type definitions found";

/// The documentation in front of a declaration; nothing where the record
/// has none.
pub open spec fn doc_text(r: Record) -> Seq<char> {
    match r.doc_comment {
        Some(doc) => doc,
        None => Seq::empty(),
    }
}

/// What follows the closing brace of a class: a type alias that binds
/// the original name to the exported one where the two differ, then a
/// blank line.
pub open spec fn class_tail(r: Record) -> Seq<char> {
    match r.original_name {
        Some(original) if original != r.name => "\nexport type "@ + original + " = "@ + r.name
            + "\n\n"@,
        _ => "\n\n"@,
    }
}

/// The unindented declaration of a record.
pub open spec fn declaration(r: Record) -> Seq<char> {
    match r.kind {
        TypeDefKind::Interface => doc_text(r) + "export interface "@ + r.name + " {\n"@ + r.def
            + "\n}\n\n"@,
        TypeDefKind::Enum => doc_text(r) + "export const enum "@ + r.name + " {\n"@ + r.def
            + "\n}\n\n"@,
        TypeDefKind::Struct => doc_text(r) + "export class "@ + r.name + " {\n"@ + r.def + "\n}"@
            + class_tail(r),
        _ => doc_text(r) + r.def + "\n"@,
    }
}

/// The declarations of `members`, each re-indented at `indent`, one
/// after the other.
pub open spec fn render_members(members: Seq<Record>, indent: nat) -> Seq<char>
    decreases members.len(),
{
    if members.len() == 0 {
        Seq::empty()
    } else {
        render_members(members.drop_last(), indent) + reindent(declaration(members.last()), indent)
    }
}

/// The text of one group: its members as they are for the top level,
/// and inside a namespace block, indented by two, for any other key.
pub open spec fn render_group(g: Group) -> Seq<char> {
    if g.key == TOP_LEVEL_NAMESPACE@ {
        render_members(g.members, 0)
    } else {
        "export namespace "@ + g.key + " {\n"@ + render_members(g.members, 2) + "}\n"@
    }
}

/// The texts of `groups`, one after the other.
pub open spec fn render_groups(groups: Seq<Group>) -> Seq<char>
    decreases groups.len(),
{
    if groups.len() == 0 {
        Seq::empty()
    } else {
        render_groups(groups.drop_last()) + render_group(groups.last())
    }
}

/// Number of line feeds at the end of `s`.
pub open spec fn trailing_newlines(s: Seq<char>) -> nat
    decreases s.len(),
{
    if s.len() > 0 && s.last() == '\n' {
        1 + trailing_newlines(s.drop_last())
    } else {
        0
    }
}

/// `s` with the line feeds at its end replaced by a single one.
pub open spec fn with_final_newline(s: Seq<char>) -> Seq<char> {
    s.take(s.len() - trailing_newlines(s)).push('\n')
}

/// The header, where asked for, and the handle type.
pub open spec fn prelude_text(with_header: bool) -> Seq<char> {
    if with_header {
        TYPE_DEF_HEADER@ + EXTERNAL_OBJECT@
    } else {
        EXTERNAL_OBJECT@
    }
}

/// The declaration file for records that stand in emission order.
pub open spec fn declaration_text(sorted: Seq<Record>, with_header: bool) -> Seq<char> {
    with_final_newline(prelude_text(with_header) + render_groups(merge_records(sorted)))
}

/// The line feeds at the end of `s` are line feeds, and start where `s`
/// does or behind a character that is none.
pub proof fn lemma_trailing_newlines(s: Seq<char>)
    ensures
        trailing_newlines(s) <= s.len(),
        forall|i: int| s.len() - trailing_newlines(s) <= i < s.len() ==> s[i] == '\n',
        trailing_newlines(s) < s.len() ==> s[s.len() - trailing_newlines(s) - 1] != '\n',
    decreases s.len(),
{
    if s.len() > 0 && s.last() == '\n' {
        let t = s.drop_last();
        lemma_trailing_newlines(t);
        assert forall|i: int| s.len() - trailing_newlines(s) <= i < s.len() implies s[i]
            == '\n' by {
            if i < t.len() {
                assert(s[i] == t[i]);
            }
        }
        if trailing_newlines(s) < s.len() {
            assert(s[s.len() - trailing_newlines(s) - 1] == t[t.len() - trailing_newlines(t) - 1]);
        }
    }
}

/// The line feeds at the end of `s` are its longest suffix of line feeds.
pub proof fn lemma_trailing_newlines_is(s: Seq<char>, k: int)
    requires
        0 <= k <= s.len(),
        forall|i: int| s.len() - k <= i < s.len() ==> s[i] == '\n',
        k < s.len() ==> s[s.len() - k - 1] != '\n',
    ensures
        trailing_newlines(s) == k,
    decreases s.len(),
{
    if k > 0 {
        let t = s.drop_last();
        assert(s[s.len() - 1] == '\n');
        assert forall|i: int| t.len() - (k - 1) <= i < t.len() implies t[i] == '\n' by {
            assert(t[i] == s[i]);
        }
        lemma_trailing_newlines_is(t, k - 1);
    }
}

/// A text closed by `with_final_newline` ends in exactly one line feed.
pub proof fn lemma_final_newline(s: Seq<char>)
    ensures
        with_final_newline(s).len() > 0,
        with_final_newline(s).last() == '\n',
        trailing_newlines(with_final_newline(s)) == 1,
{
    lemma_trailing_newlines(s);
    let body = s.take(s.len() - trailing_newlines(s));
    let out = with_final_newline(s);
    if body.len() > 0 {
        assert(out[out.len() - 2] == s[s.len() - trailing_newlines(s) - 1]);
    }
    lemma_trailing_newlines_is(out, 1);
}

impl TypeDefLine {
    /// The declaration of this record, re-indented at `indent`.
    pub fn into_pretty_print(self, indent: usize) -> (text: String)
        ensures
            text@ == reindent(declaration(self@), indent as nat),
    {
        let ghost r = self@;
        let mut s = match self.doc_comment {
            Some(doc) => doc,
            None => String::new(),
        };
        assert(s@ == doc_text(r));
        match self.kind {
            TypeDefKind::Interface => {
                s.append("export interface ");
                s.append(self.name.as_str());
                s.append(" {\n");
                s.append(self.def.as_str());
                s.append("\n}\n\n");
            },
            TypeDefKind::Enum => {
                s.append("export const enum ");
                s.append(self.name.as_str());
                s.append(" {\n");
                s.append(self.def.as_str());
                s.append("\n}\n\n");
            },
            TypeDefKind::Struct => {
                s.append("export class ");
                s.append(self.name.as_str());
                s.append(" {\n");
                s.append(self.def.as_str());
                s.append("\n}");
                let ghost body = s@;
                let mut aliased = false;
                match &self.original_name {
                    Some(original) => {
                        if *original != self.name {
                            aliased = true;
                            let mut tail = String::from_str("\nexport type ");
                            tail.append(original.as_str());
                            tail.append(" = ");
                            tail.append(self.name.as_str());
                            tail.append("\n\n");
                            s.append(tail.as_str());
                        }
                    },
                    None => {},
                }
                if !aliased {
                    s.append("\n\n");
                }
                assert(s@ == body + class_tail(r));
            },
            _ => {
                s.append(self.def.as_str());
                s.append("\n");
            },
        }
        assert(s@ == declaration(r));
        correct_str_indent(s.as_str(), indent)
    }
}

/// Appends the declarations of `lines`, each re-indented at `indent`.
pub fn push_members(out: &mut String, lines: Vec<TypeDefLine>, indent: usize)
    ensures
        final(out)@ == old(out)@ + render_members(records_of(lines@), indent as nat),
{
    assert(records_of(lines@.take(0)) =~= Seq::<Record>::empty());
    for line in it: lines
        invariant
            it.seq() == lines@,
            out@ == old(out)@ + render_members(
                records_of(lines@.take(it.index())),
                indent as nat,
            ),
    {
        proof {
            let k = it.index();
            assert(records_of(lines@.take(k + 1)).drop_last() =~= records_of(lines@.take(k)));
            assert(records_of(lines@.take(k + 1)).last() == line@);
        }
        let text = line.into_pretty_print(indent);
        out.append(text.as_str());
        assert(out@ =~= old(out)@ + (render_members(
            records_of(lines@.take(it.index())),
            indent as nat,
        ) + text@));
    }
    proof {
        assert(lines@.take(lines@.len() as int) =~= lines@);
    }
}

/// Appends the text of one group.
pub fn push_group(out: &mut String, group: NamespaceGroup)
    ensures
        final(out)@ == old(out)@ + render_group(group@),
{
    let NamespaceGroup { namespace, lines } = group;
    let top_level = String::from_str(TOP_LEVEL_NAMESPACE);
    if namespace == top_level {
        push_members(out, lines, 0);
    } else {
        let mut block = String::from_str("export namespace ");
        block.append(namespace.as_str());
        block.append(" {\n");
        push_members(&mut block, lines, 2);
        block.append("}\n");
        out.append(block.as_str());
    }
}

/// `text` with the line feeds at its end replaced by a single one.
pub fn close_text(text: &str) -> (closed: String)
    ensures
        closed@ == with_final_newline(text@),
{
    let v = chars_of(text);
    let mut n: usize = v.len();
    while n > 0 && v[n - 1] == '\n'
        invariant
            n <= v.len(),
            forall|i: int| n <= i < v.len() ==> v@[i] == '\n',
        decreases n,
    {
        n -= 1;
    }
    proof {
        lemma_trailing_newlines_is(v@, v.len() - n);
    }
    let mut closed = String::new();
    push_range(&mut closed, &v, 0, n);
    closed.push('\n');
    assert(closed@ =~= with_final_newline(v@));
    closed
}

/// The records of one generation pass, in emission order.
pub struct IntermidiateTypeDefFile {
    defs: Vec<TypeDefLine>,
}

impl View for IntermidiateTypeDefFile {
    type V = Seq<Record>;

    closed spec fn view(&self) -> Seq<Record> {
        records_of(self.defs@)
    }
}

impl IntermidiateTypeDefFile {
    /// Takes the records in file order and puts them in emission order.
    pub fn new(defs: Vec<TypeDefLine>) -> (file: Self)
        ensures
            file@ == sort_records(records_of(defs@)),
    {
        IntermidiateTypeDefFile { defs: sort_lines(defs) }
    }

    /// The declaration file for these records.
    ///
    /// Fails with `NO_DEFINITIONS` if and only if there is no record.
    pub fn into_dts(self, with_header: bool) -> (dts: Result<String, String>)
        ensures
            dts is Err <==> self@.len() == 0,
            dts matches Err(message) ==> message@ == NO_DEFINITIONS@,
            dts matches Ok(text) ==> text@ == declaration_text(self@, with_header),
            dts matches Ok(text) ==> trailing_newlines(text@) == 1,
    {
        if self.defs.len() == 0 {
            return Err(String::from_str(NO_DEFINITIONS));
        }
        let mut text = if with_header {
            String::from_str(TYPE_DEF_HEADER)
        } else {
            String::new()
        };
        text.append(EXTERNAL_OBJECT);
        assert(text@ =~= prelude_text(with_header));
        let groups = TypeDefLine::preprocess(self.defs);
        assert(groups_of(groups@.take(0)) =~= Seq::<Group>::empty());
        for group in it: groups
            invariant
                it.seq() == groups@,
                text@ == prelude_text(with_header) + render_groups(
                    groups_of(groups@.take(it.index())),
                ),
        {
            proof {
                let k = it.index();
                assert(groups_of(groups@.take(k + 1)).drop_last() =~= groups_of(groups@.take(k)));
                assert(groups_of(groups@.take(k + 1)).last() == group@);
            }
            push_group(&mut text, group);
            assert(text@ =~= prelude_text(with_header) + (render_groups(
                groups_of(groups@.take(it.index())),
            ) + render_group(group@)));
        }
        proof {
            assert(groups@.take(groups@.len() as int) =~= groups@);
            lemma_final_newline(text@);
        }
        Ok(close_text(text.as_str()))
    }
}

} // verus!
