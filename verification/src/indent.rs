//! Indentation from brace depth: every line of a text is trimmed and then
//! indented by the number of blocks that are open where it stands.

use crate::text::{
    chars_of, find_line_end, leading_white, lemma_line_len_bound, lemma_line_len_is,
    lemma_trim_blank, lemma_trim_is_subrange, lemma_trim_padded, line_len, push_range,
    push_spaces, single_line, spaces, trim, trim_bounds,
};
use vstd::prelude::*;

verus! {

/// One line after normalisation, with the depth that the next line starts at.
pub struct IndentedLine {
    pub text: Seq<char>,
    pub depth: nat,
}

/// How one line is laid out at a given base indent and brace depth.
///
/// The line is trimmed first. A blank line becomes empty. A line that
/// begins with `*` continues a block comment: it gets one space more than
/// the depth asks for and leaves the depth alone. A line that ends in `{`
/// stands at the current depth and opens a block. A line that ends in `}`
/// closes a block, if one is open, and stands at the depth of its opener.
/// Any other line stands at the current depth.
pub open spec fn indent_line(line: Seq<char>, indent: nat, depth: nat) -> IndentedLine {
    let t = trim(line);
    if t.len() == 0 {
        IndentedLine { text: Seq::empty(), depth }
    } else if t[0] == '*' {
        IndentedLine { text: spaces(indent + depth * 2 + 1) + t, depth }
    } else if t.last() == '{' {
        IndentedLine { text: spaces(indent + depth * 2) + t, depth: depth + 1 }
    } else if t.last() == '}' && depth > 0 {
        IndentedLine {
            text: spaces((indent + (depth - 1) * 2) as nat) + t,
            depth: (depth - 1) as nat,
        }
    } else {
        IndentedLine { text: spaces(indent + depth * 2) + t, depth }
    }
}

/// The text `s` with each of its lines laid out by `indent_line`, starting
/// at brace depth `depth`. Every line feed of `s` is kept, so the result
/// has as many lines as `s`, and ends in a line feed if `s` does.
pub open spec fn reindent_from(s: Seq<char>, indent: nat, depth: nat) -> Seq<char>
    decreases s.len(),
{
    if s.len() == 0 {
        Seq::empty()
    } else {
        let n = line_len(s) as int;
        let line = indent_line(s.take(n), indent, depth);
        if n >= s.len() {
            line.text
        } else {
            line.text + seq!['\n'] + reindent_from(s.skip(n + 1), indent, line.depth)
        }
    }
}

/// The text `s` re-indented from brace depth zero.
pub open spec fn reindent(s: Seq<char>, indent: nat) -> Seq<char> {
    reindent_from(s, indent, 0)
}

/// A laid-out line holds no line feed if the line it came from held none.
pub proof fn lemma_indent_line_single(line: Seq<char>, indent: nat, depth: nat)
    requires
        single_line(line),
    ensures
        single_line(indent_line(line, indent, depth).text),
{
    lemma_trim_is_subrange(line);
    let t = trim(line);
    let out = indent_line(line, indent, depth).text;
    assert forall|i: int| 0 <= i < out.len() implies out[i] != '\n' by {
        let pad = out.len() - t.len();
        if i >= pad {
            assert(out[i] == t[i - pad]);
            assert(t[i - pad] == line[leading_white(line) + i - pad]);
        }
    }
}

/// Laying out a line that is already laid out, at the same indent and
/// depth, changes nothing.
pub proof fn lemma_indent_line_idempotent(line: Seq<char>, indent: nat, depth: nat)
    ensures
        indent_line(indent_line(line, indent, depth).text, indent, depth) == indent_line(
            line,
            indent,
            depth,
        ),
{
    lemma_trim_is_subrange(line);
    let t = trim(line);
    let out = indent_line(line, indent, depth).text;
    if t.len() == 0 {
        lemma_trim_blank(out);
    } else {
        let pad = out.subrange(0, out.len() - t.len());
        assert(out =~= pad + t);
        lemma_trim_padded(pad, t);
    }
}

/// A larger base indent moves every line that is not blank to the right
/// by the difference, and changes nothing else.
pub proof fn lemma_indent_line_shift(line: Seq<char>, indent: nat, more: nat, depth: nat)
    ensures
        indent_line(line, indent + more, depth).depth == indent_line(line, indent, depth).depth,
        indent_line(line, indent + more, depth).text == if trim(line).len() > 0 {
            spaces(more) + indent_line(line, indent, depth).text
        } else {
            Seq::<char>::empty()
        },
{
    if trim(line).len() > 0 {
        assert(indent_line(line, indent + more, depth).text =~= spaces(more) + indent_line(
            line,
            indent,
            depth,
        ).text);
    }
}

/// A text that ends in a line feed still ends in one when it has been
/// re-indented.
pub proof fn lemma_reindent_keeps_final_newline(s: Seq<char>, indent: nat, depth: nat)
    requires
        s.len() > 0,
        s.last() == '\n',
    ensures
        reindent_from(s, indent, depth).len() > 0,
        reindent_from(s, indent, depth).last() == '\n',
    decreases s.len(),
{
    lemma_line_len_bound(s);
    let n = line_len(s) as int;
    if n >= s.len() {
        assert(s.take(n)[n - 1] == s[n - 1]);
    } else {
        let line = indent_line(s.take(n), indent, depth);
        let tail = s.skip(n + 1);
        if tail.len() > 0 {
            assert(tail.last() == s.last());
            lemma_reindent_keeps_final_newline(tail, indent, line.depth);
        }
    }
}

/// Re-indenting is idempotent: a text that was re-indented is left as it
/// is by a second pass with the same base indent.
pub proof fn lemma_reindent_idempotent(s: Seq<char>, indent: nat)
    ensures
        reindent(reindent(s, indent), indent) == reindent(s, indent),
{
    lemma_reindent_from_idempotent(s, indent, 0);
}

/// Idempotence of re-indenting, from any starting depth.
pub proof fn lemma_reindent_from_idempotent(s: Seq<char>, indent: nat, depth: nat)
    ensures
        reindent_from(reindent_from(s, indent, depth), indent, depth) == reindent_from(
            s,
            indent,
            depth,
        ),
    decreases s.len(),
{
    if s.len() > 0 {
        lemma_line_len_bound(s);
        let n = line_len(s) as int;
        let line = indent_line(s.take(n), indent, depth);
        let r = reindent_from(s, indent, depth);
        lemma_indent_line_single(s.take(n), indent, depth);
        lemma_indent_line_idempotent(s.take(n), indent, depth);
        let k = line.text.len() as int;
        if n >= s.len() {
            assert(r == line.text);
            if k > 0 {
                lemma_line_len_is(r, k);
                assert(r.take(k) =~= line.text);
            }
        } else {
            let rest = reindent_from(s.skip(n + 1), indent, line.depth);
            assert(r == line.text + seq!['\n'] + rest);
            assert(r[k] == '\n');
            assert forall|i: int| 0 <= i < k implies r[i] != '\n' by {
                assert(r[i] == line.text[i]);
            }
            lemma_line_len_is(r, k);
            assert(r.take(k) =~= line.text);
            assert(r.skip(k + 1) =~= rest);
            lemma_reindent_from_idempotent(s.skip(n + 1), indent, line.depth);
        }
    }
}

/// Re-indents `src` from its brace depth.
///
/// Each line is trimmed and indented by `indent` spaces plus two for every
/// block open at that line; see `indent_line` for the cases.
pub fn correct_str_indent(src: &str, indent: usize) -> (result: String)
    ensures
        result@ == reindent(src@, indent as nat),
{
    let v = chars_of(src);
    let mut out = String::new();
    let mut pos: usize = 0;
    let mut depth: usize = 0;
    assert(v@.skip(0) =~= v@);
    while pos < v.len()
        invariant
            pos <= v.len(),
            depth <= pos,
            out@ + reindent_from(v@.skip(pos as int), indent as nat, depth as nat) == reindent(
                v@,
                indent as nat,
            ),
        decreases v.len() - pos,
    {
        let ghost rest = v@.skip(pos as int);
        let ghost before = out@;
        let ghost depth0 = depth as nat;
        let ghost line = indent_line(rest.take(line_len(rest) as int), indent as nat, depth0);
        let end = find_line_end(&v, pos);
        let (a, b) = trim_bounds(&v, pos, end);
        proof {
            assert(rest.take(line_len(rest) as int) =~= v@.subrange(pos as int, end as int));
        }
        if a < b {
            let comment = v[a] == '*';
            let mut level: usize = depth;
            if comment {
            } else if v[b - 1] == '{' {
                depth += 1;
            } else if v[b - 1] == '}' && depth > 0 {
                depth -= 1;
                level = depth;
            }
            push_spaces(&mut out, indent);
            let mut i: usize = 0;
            while i < level
                invariant
                    i <= level,
                    out@ == before + spaces((indent + i * 2) as nat),
                decreases level - i,
            {
                out.push(' ');
                out.push(' ');
                i += 1;
                assert(spaces((indent + i * 2) as nat) =~= spaces(
                    (indent + (i - 1) * 2) as nat,
                ).push(' ').push(' '));
            }
            if comment {
                out.push(' ');
                assert(spaces((indent + level * 2 + 1) as nat) =~= spaces(
                    (indent + level * 2) as nat,
                ).push(' '));
            }
            push_range(&mut out, &v, a, b);
        }
        assert(out@ == before + line.text);
        assert(depth == line.depth);
        if end < v.len() {
            out.push('\n');
            proof {
                assert(rest.skip(line_len(rest) as int + 1) =~= v@.skip(end + 1));
                assert(out@ + reindent_from(v@.skip(end + 1), indent as nat, depth as nat)
                    =~= before + reindent_from(rest, indent as nat, depth0));
            }
            pos = end + 1;
        } else {
            pos = end;
            assert(out@ + reindent_from(v@.skip(end as int), indent as nat, depth as nat)
                =~= before + reindent_from(rest, indent as nat, depth0));
        }
    }
    out
}

} // verus!
