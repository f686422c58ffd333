//! Framing of the intermediate file: one record per line, empty lines
//! skipped.

use crate::text::{chars_of, find_line_end, lemma_line_len_bound, line_len, push_range, single_line};
use vstd::prelude::*;

verus! {

/// `line` without the carriage return at its end, if it has one.
pub open spec fn strip_cr(line: Seq<char>) -> Seq<char> {
    if line.len() > 0 && line.last() == '\r' {
        line.drop_last()
    } else {
        line
    }
}

/// The lines of `s` that are not empty, in order.
///
/// A line ends at a line feed, or at a carriage return followed by a line
/// feed; neither belongs to the line. What follows the last line feed is a
/// line too, unless it is empty; a carriage return at its end stays.
pub open spec fn nonempty_lines(s: Seq<char>) -> Seq<Seq<char>>
    decreases s.len(),
{
    if s.len() == 0 {
        Seq::empty()
    } else {
        let n = line_len(s) as int;
        if n >= s.len() {
            seq![s]
        } else {
            let line = strip_cr(s.take(n));
            let rest = nonempty_lines(s.skip(n + 1));
            if line.len() == 0 {
                rest
            } else {
                seq![line] + rest
            }
        }
    }
}

/// The texts of a sequence of strings.
pub open spec fn texts_of(lines: Seq<String>) -> Seq<Seq<char>> {
    lines.map_values(|l: String| l@)
}

/// Every line that `nonempty_lines` returns holds a character, and none
/// holds a line feed.
pub proof fn lemma_nonempty_lines(s: Seq<char>)
    ensures
        forall|i: int|
            0 <= i < nonempty_lines(s).len() ==> (#[trigger] nonempty_lines(s)[i]).len() > 0
                && single_line(nonempty_lines(s)[i]),
    decreases s.len(),
{
    if s.len() > 0 {
        lemma_line_len_bound(s);
        let n = line_len(s) as int;
        if n >= s.len() {
            assert(s.take(n) =~= s);
        } else {
            let head = s.take(n);
            let line = strip_cr(head);
            let rest = nonempty_lines(s.skip(n + 1));
            lemma_nonempty_lines(s.skip(n + 1));
            assert forall|k: int| 0 <= k < line.len() implies line[k] != '\n' by {
                assert(line[k] == head[k]);
            }
            assert forall|i: int| 0 <= i < nonempty_lines(s).len() implies (
            #[trigger] nonempty_lines(s)[i]).len() > 0 && single_line(nonempty_lines(s)[i]) by {
                if line.len() > 0 && i > 0 {
                    assert(nonempty_lines(s)[i] == rest[i - 1]);
                }
            }
        }
    }
}

/// The lines of `content` that are not empty, in order: the texts from
/// which the records of the intermediate file are read.
pub fn record_lines(content: &str) -> (lines: Vec<String>)
    ensures
        texts_of(lines@) == nonempty_lines(content@),
{
    let v = chars_of(content);
    let mut lines: Vec<String> = Vec::new();
    let mut pos: usize = 0;
    assert(v@.skip(0) =~= v@);
    assert(texts_of(lines@) + nonempty_lines(v@) =~= nonempty_lines(v@));
    while pos < v.len()
        invariant
            pos <= v.len(),
            texts_of(lines@) + nonempty_lines(v@.skip(pos as int)) == nonempty_lines(v@),
        decreases v.len() - pos,
    {
        let ghost rest = v@.skip(pos as int);
        let ghost before = texts_of(lines@);
        let end = find_line_end(&v, pos);
        proof {
            assert(rest.take(line_len(rest) as int) =~= v@.subrange(pos as int, end as int));
        }
        if end < v.len() {
            let mut stop: usize = end;
            if stop > pos && v[stop - 1] == '\r' {
                stop -= 1;
            }
            proof {
                assert(strip_cr(v@.subrange(pos as int, end as int)) =~= v@.subrange(
                    pos as int,
                    stop as int,
                ));
                assert(rest.skip(line_len(rest) as int + 1) =~= v@.skip(end + 1));
            }
            if stop > pos {
                let mut line = String::new();
                push_range(&mut line, &v, pos, stop);
                lines.push(line);
                assert(texts_of(lines@) =~= before.push(v@.subrange(pos as int, stop as int)));
            }
            pos = end + 1;
            assert(texts_of(lines@) + nonempty_lines(v@.skip(pos as int)) =~= before
                + nonempty_lines(rest));
        } else {
            let mut line = String::new();
            push_range(&mut line, &v, pos, end);
            lines.push(line);
            proof {
                assert(v@.subrange(pos as int, end as int) =~= rest);
                assert(texts_of(lines@) =~= before.push(rest));
            }
            pos = end;
            proof {
                assert(texts_of(lines@) + nonempty_lines(v@.skip(pos as int)) =~= before
                    + nonempty_lines(rest));
            }
        }
    }
    assert(texts_of(lines@) + nonempty_lines(v@.skip(pos as int)) =~= texts_of(lines@));
    lines
}

} // verus!
