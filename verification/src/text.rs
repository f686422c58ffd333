//! Character-level text primitives: whitespace, trimming, line boundaries,
//! and the conversions between strings and character vectors.

use vstd::prelude::*;

verus! {

/// Assumed of `String::push`, which the standard library documents as
/// appending the given character to the end of the string: afterwards the
/// string holds what it held, followed by `ch`.
pub assume_specification[ String::push ](s: &mut String, ch: char)
    ensures
        final(s)@ == old(s)@.push(ch),
;

/// Whether `c` carries the Unicode `White_Space` property.
pub open spec fn is_white_space(c: char) -> bool {
    let u = c as u32;
    ||| 0x09 <= u <= 0x0D
    ||| u == 0x20
    ||| u == 0x85
    ||| u == 0xA0
    ||| u == 0x1680
    ||| 0x2000 <= u <= 0x200A
    ||| u == 0x2028
    ||| u == 0x2029
    ||| u == 0x202F
    ||| u == 0x205F
    ||| u == 0x3000
}

/// Number of white-space characters at the front of `s`.
pub open spec fn leading_white(s: Seq<char>) -> nat
    decreases s.len(),
{
    if s.len() > 0 && is_white_space(s[0]) {
        1 + leading_white(s.skip(1))
    } else {
        0
    }
}

/// Number of white-space characters at the back of `s`.
pub open spec fn trailing_white(s: Seq<char>) -> nat
    decreases s.len(),
{
    if s.len() > 0 && is_white_space(s.last()) {
        1 + trailing_white(s.drop_last())
    } else {
        0
    }
}

/// `s` without its leading and trailing white space.
pub open spec fn trim(s: Seq<char>) -> Seq<char> {
    let rest = s.skip(leading_white(s) as int);
    rest.take(rest.len() - trailing_white(rest))
}

/// Number of characters before the first line feed of `s` (all of them
/// when `s` holds no line feed).
pub open spec fn line_len(s: Seq<char>) -> nat
    decreases s.len(),
{
    if s.len() > 0 && s[0] != '\n' {
        1 + line_len(s.skip(1))
    } else {
        0
    }
}

/// Whether no character of `s` is a line feed.
pub open spec fn single_line(s: Seq<char>) -> bool {
    forall|i: int| 0 <= i < s.len() ==> s[i] != '\n'
}

/// A run of `n` space characters.
pub open spec fn spaces(n: nat) -> Seq<char> {
    Seq::new(n, |i: int| ' ')
}

/// The leading white space is white, and ends where `s` does or at a
/// character that is not white.
pub proof fn lemma_leading_white_bound(s: Seq<char>)
    ensures
        leading_white(s) <= s.len(),
        forall|i: int| 0 <= i < leading_white(s) ==> is_white_space(#[trigger] s[i]),
        leading_white(s) < s.len() ==> !is_white_space(s[leading_white(s) as int]),
    decreases s.len(),
{
    if s.len() > 0 && is_white_space(s[0]) {
        let t = s.skip(1);
        lemma_leading_white_bound(t);
        assert forall|i: int| 0 <= i < leading_white(s) implies is_white_space(#[trigger] s[i]) by {
            if i > 0 {
                assert(s[i] == t[i - 1]);
            }
        }
        if leading_white(s) < s.len() {
            assert(s[leading_white(s) as int] == t[leading_white(t) as int]);
        }
    }
}

/// The trailing white space is white, and starts where `s` does or
/// behind a character that is not white.
pub proof fn lemma_trailing_white_bound(s: Seq<char>)
    ensures
        trailing_white(s) <= s.len(),
        forall|i: int|
            s.len() - trailing_white(s) <= i < s.len() ==> is_white_space(#[trigger] s[i]),
        trailing_white(s) < s.len() ==> !is_white_space(s[s.len() - trailing_white(s) - 1]),
    decreases s.len(),
{
    if s.len() > 0 && is_white_space(s.last()) {
        let t = s.drop_last();
        lemma_trailing_white_bound(t);
        assert forall|i: int| s.len() - trailing_white(s) <= i < s.len() implies is_white_space(
            #[trigger] s[i],
        ) by {
            if i < s.len() - 1 {
                assert(s[i] == t[i]);
            }
        }
        if trailing_white(s) < s.len() {
            assert(s[s.len() - trailing_white(s) - 1] == t[t.len() - trailing_white(t) - 1]);
        }
    }
}

/// The leading white space of `s` is the longest all-white prefix.
pub proof fn lemma_leading_white_is(s: Seq<char>, k: int)
    requires
        0 <= k <= s.len(),
        forall|i: int| 0 <= i < k ==> is_white_space(#[trigger] s[i]),
        k < s.len() ==> !is_white_space(s[k]),
    ensures
        leading_white(s) == k,
    decreases s.len(),
{
    if k > 0 {
        assert(is_white_space(s[0]));
        let t = s.skip(1);
        assert forall|i: int| 0 <= i < k - 1 implies is_white_space(#[trigger] t[i]) by {
            assert(t[i] == s[i + 1]);
        }
        lemma_leading_white_is(t, k - 1);
    }
}

/// The trailing white space of `s` is the longest all-white suffix.
pub proof fn lemma_trailing_white_is(s: Seq<char>, k: int)
    requires
        0 <= k <= s.len(),
        forall|i: int| s.len() - k <= i < s.len() ==> is_white_space(#[trigger] s[i]),
        k < s.len() ==> !is_white_space(s[s.len() - k - 1]),
    ensures
        trailing_white(s) == k,
    decreases s.len(),
{
    if k > 0 {
        assert(is_white_space(s[s.len() - 1]));
        let t = s.drop_last();
        assert forall|i: int| t.len() - (k - 1) <= i < t.len() implies is_white_space(
            #[trigger] t[i],
        ) by {
            assert(t[i] == s[i]);
        }
        lemma_trailing_white_is(t, k - 1);
    }
}

/// What `trim` returns: a slice of `s` that neither starts nor ends with
/// white space, cut where the white space ends.
pub proof fn lemma_trim_is_subrange(s: Seq<char>)
    ensures
        leading_white(s) + trim(s).len() <= s.len(),
        trim(s) == s.subrange(leading_white(s) as int, (leading_white(s) + trim(s).len()) as int),
        trim(s).len() > 0 ==> !is_white_space(trim(s)[0]) && !is_white_space(trim(s).last()),
{
    lemma_leading_white_bound(s);
    let rest = s.skip(leading_white(s) as int);
    lemma_trailing_white_bound(rest);
    assert(trim(s) =~= s.subrange(leading_white(s) as int, (leading_white(s) + trim(s).len()) as int));
    if trim(s).len() > 0 {
        assert(trim(s)[0] == s[leading_white(s) as int]);
        assert(trim(s).last() == rest[rest.len() - trailing_white(rest) - 1]);
    }
}

/// Trimming ignores white space added around a text that has none at its
/// ends.
pub proof fn lemma_trim_padded(pad: Seq<char>, t: Seq<char>)
    requires
        forall|i: int| 0 <= i < pad.len() ==> is_white_space(#[trigger] pad[i]),
        t.len() > 0,
        !is_white_space(t[0]),
        !is_white_space(t.last()),
    ensures
        trim(pad + t) == t,
{
    let s = pad + t;
    assert(s[pad.len() as int] == t[0]);
    assert forall|i: int| 0 <= i < pad.len() implies is_white_space(#[trigger] s[i]) by {
        assert(s[i] == pad[i]);
    }
    lemma_leading_white_is(s, pad.len() as int);
    let rest = s.skip(pad.len() as int);
    assert(rest =~= t);
    lemma_trailing_white_is(t, 0);
    assert(t.take(t.len() as int) =~= t);
}

/// Trimming a text made of white space alone leaves nothing.
pub proof fn lemma_trim_blank(s: Seq<char>)
    requires
        forall|i: int| 0 <= i < s.len() ==> is_white_space(#[trigger] s[i]),
    ensures
        trim(s).len() == 0,
{
    lemma_leading_white_is(s, s.len() as int);
}

/// The first line holds no line feed, and ends where `s` does or at a
/// line feed.
pub proof fn lemma_line_len_bound(s: Seq<char>)
    ensures
        line_len(s) <= s.len(),
        single_line(s.take(line_len(s) as int)),
        line_len(s) < s.len() ==> s[line_len(s) as int] == '\n',
    decreases s.len(),
{
    if s.len() > 0 && s[0] != '\n' {
        let t = s.skip(1);
        lemma_line_len_bound(t);
        let head = s.take(line_len(s) as int);
        assert forall|i: int| 0 <= i < head.len() implies head[i] != '\n' by {
            if i > 0 {
                assert(head[i] == t.take(line_len(t) as int)[i - 1]);
            }
        }
        if line_len(s) < s.len() {
            assert(s[line_len(s) as int] == t[line_len(t) as int]);
        }
    } else {
        assert(s.take(0).len() == 0);
    }
}

/// The first line of `s` ends at the first line feed, or where `s` ends.
pub proof fn lemma_line_len_is(s: Seq<char>, k: int)
    requires
        0 <= k <= s.len(),
        forall|i: int| 0 <= i < k ==> s[i] != '\n',
        k < s.len() ==> s[k] == '\n',
    ensures
        line_len(s) == k,
    decreases s.len(),
{
    if k > 0 {
        let t = s.skip(1);
        assert(s[0] != '\n');
        assert forall|i: int| 0 <= i < k - 1 implies t[i] != '\n' by {
            assert(t[i] == s[i + 1]);
        }
        lemma_line_len_is(t, k - 1);
    }
}

/// Whether `c` carries the Unicode `White_Space` property.
pub fn is_whitespace_char(c: char) -> (b: bool)
    ensures
        b == is_white_space(c),
{
    let u: u32 = c as u32;
    (0x09 <= u && u <= 0x0D) || u == 0x20 || u == 0x85 || u == 0xA0 || u == 0x1680 || (0x2000 <= u
        && u <= 0x200A) || u == 0x2028 || u == 0x2029 || u == 0x202F || u == 0x205F || u == 0x3000
}

/// The characters of `s`, in order.
pub fn chars_of(s: &str) -> (v: Vec<char>)
    ensures
        v@ == s@,
{
    let mut v: Vec<char> = Vec::new();
    for c in it: s.chars()
        invariant
            v@ == it.seq().take(it.index()),
            it.seq() == s@,
    {
        v.push(c);
    }
    v
}

/// Appends the characters `v[from..to]` to `out`.
pub fn push_range(out: &mut String, v: &Vec<char>, from: usize, to: usize)
    requires
        from <= to <= v.len(),
    ensures
        final(out)@ == old(out)@ + v@.subrange(from as int, to as int),
{
    let mut i: usize = from;
    while i < to
        invariant
            from <= i <= to <= v.len(),
            out@ == old(out)@ + v@.subrange(from as int, i as int),
        decreases to - i,
    {
        out.push(v[i]);
        i += 1;
        assert(v@.subrange(from as int, i as int) == v@.subrange(from as int, i - 1).push(
            v@[i - 1],
        ));
    }
}

/// Appends `n` space characters to `out`.
pub fn push_spaces(out: &mut String, n: usize)
    ensures
        final(out)@ == old(out)@ + spaces(n as nat),
{
    let mut i: usize = 0;
    while i < n
        invariant
            i <= n,
            out@ == old(out)@ + spaces(i as nat),
        decreases n - i,
    {
        out.push(' ');
        i += 1;
        assert(spaces(i as nat) == spaces((i - 1) as nat).push(' '));
    }
}

/// Where the line that starts at `start` ends: the index of the next line
/// feed, or the length of `v`.
pub fn find_line_end(v: &Vec<char>, start: usize) -> (end: usize)
    requires
        start <= v.len(),
    ensures
        start <= end <= v.len(),
        end == start + line_len(v@.skip(start as int)),
{
    let mut end: usize = start;
    while end < v.len() && v[end] != '\n'
        invariant
            start <= end <= v.len(),
            forall|i: int| start <= i < end ==> v@[i] != '\n',
        decreases v.len() - end,
    {
        end += 1;
    }
    proof {
        lemma_line_len_is(v@.skip(start as int), end - start);
    }
    end
}

/// The bounds of `v[start..end]` without its leading and trailing white
/// space.
pub fn trim_bounds(v: &Vec<char>, start: usize, end: usize) -> (r: (usize, usize))
    requires
        start <= end <= v.len(),
    ensures
        start <= r.0 <= r.1 <= end,
        v@.subrange(r.0 as int, r.1 as int) == trim(v@.subrange(start as int, end as int)),
{
    let ghost s = v@.subrange(start as int, end as int);
    let mut a: usize = start;
    while a < end && is_whitespace_char(v[a])
        invariant
            start <= a <= end <= v.len(),
            forall|i: int| start <= i < a ==> is_white_space(v@[i]),
        decreases end - a,
    {
        a += 1;
    }
    let mut b: usize = end;
    while a < b && is_whitespace_char(v[b - 1])
        invariant
            a <= b <= end <= v.len(),
            forall|i: int| b <= i < end ==> is_white_space(v@[i]),
        decreases b - a,
    {
        b -= 1;
    }
    proof {
        lemma_leading_white_is(s, a - start);
        let rest = s.skip(a - start);
        assert(rest =~= v@.subrange(a as int, end as int));
        lemma_trailing_white_is(rest, end - b);
        assert(rest.take(rest.len() - (end - b)) =~= v@.subrange(a as int, b as int));
    }
    (a, b)
}

} // verus!
