//! Character-level text helpers: HTML escaping, its inverse, and substring
//! replacement.
use vstd::prelude::*;

verus! {

/// What one character becomes when escaped for a quoted HTML attribute.
pub open spec fn escape_char(c: char) -> Seq<char> {
    if c == '&' {
        seq!['&', 'a', 'm', 'p', ';']
    } else if c == '<' {
        seq!['&', 'l', 't', ';']
    } else if c == '>' {
        seq!['&', 'g', 't', ';']
    } else if c == '"' {
        seq!['&', 'q', 'u', 'o', 't', ';']
    } else if c == '\'' {
        seq!['&', '#', '3', '9', ';']
    } else {
        seq![c]
    }
}

/// `s` with each special character replaced by its entity.
pub open spec fn escaped(s: Seq<char>) -> Seq<char>
    decreases s.len(),
{
    if s.len() == 0 {
        Seq::empty()
    } else {
        escape_char(s[0]) + escaped(s.drop_first())
    }
}

pub open spec fn starts_with(s: Seq<char>, p: Seq<char>) -> bool {
    p.len() <= s.len() && s.subrange(0, p.len() as int) == p
}

/// The inverse of `escaped`: each of the five entities becomes its character
/// again, everything else is kept.
pub open spec fn unescaped(s: Seq<char>) -> Seq<char>
    decreases s.len(),
{
    if s.len() == 0 {
        Seq::empty()
    } else if starts_with(s, escape_char('&')) {
        seq!['&'] + unescaped(s.skip(5))
    } else if starts_with(s, escape_char('<')) {
        seq!['<'] + unescaped(s.skip(4))
    } else if starts_with(s, escape_char('>')) {
        seq!['>'] + unescaped(s.skip(4))
    } else if starts_with(s, escape_char('"')) {
        seq!['"'] + unescaped(s.skip(6))
    } else if starts_with(s, escape_char('\'')) {
        seq!['\''] + unescaped(s.skip(5))
    } else {
        seq![s[0]] + unescaped(s.drop_first())
    }
}

proof fn lemma_not_prefix(t: Seq<char>, p: Seq<char>, k: int)
    requires
        0 <= k < p.len(),
        k < t.len(),
        t[k] != p[k],
    ensures
        !starts_with(t, p),
{
    if starts_with(t, p) {
        assert(t.subrange(0, p.len() as int)[k] == t[k]);
    }
}

proof fn lemma_unescape_one(c: char, rest: Seq<char>)
    ensures
        unescaped(escape_char(c) + rest) == seq![c] + unescaped(rest),
{
    let e = escape_char(c);
    let t = e + rest;
    assert(t.subrange(0, e.len() as int) =~= e);
    assert(t.skip(e.len() as int) =~= rest);
    assert(t.drop_first() =~= t.skip(1));
    let amp = escape_char('&');
    let lt = escape_char('<');
    let gt = escape_char('>');
    let quot = escape_char('"');
    let apos = escape_char('\'');
    if c == '&' {
    } else if c == '<' {
        lemma_not_prefix(t, amp, 1);
    } else if c == '>' {
        lemma_not_prefix(t, amp, 1);
        lemma_not_prefix(t, lt, 1);
    } else if c == '"' {
        lemma_not_prefix(t, amp, 1);
        lemma_not_prefix(t, lt, 1);
        lemma_not_prefix(t, gt, 1);
    } else if c == '\'' {
        lemma_not_prefix(t, amp, 1);
        lemma_not_prefix(t, lt, 1);
        lemma_not_prefix(t, gt, 1);
        lemma_not_prefix(t, quot, 1);
    } else {
        lemma_not_prefix(t, amp, 0);
        lemma_not_prefix(t, lt, 0);
        lemma_not_prefix(t, gt, 0);
        lemma_not_prefix(t, quot, 0);
        lemma_not_prefix(t, apos, 0);
    }
}

/// Unescaping what was escaped gives back the same text exactly.
pub proof fn lemma_escape_round_trip(s: Seq<char>)
    ensures
        unescaped(escaped(s)) == s,
    decreases s.len(),
{
    if s.len() > 0 {
        lemma_unescape_one(s[0], escaped(s.drop_first()));
        lemma_escape_round_trip(s.drop_first());
        assert(seq![s[0]] + s.drop_first() =~= s);
    }
}


/// Relies on `str::chars`: the characters of `s`, in order.
#[verifier::external_body]
pub(crate) fn chars_of(s: &str) -> (r: Vec<char>)
    ensures
        r@ == s@,
{
    s.chars().collect()
}

/// Relies on `String`'s `FromIterator<&char>`: the string of these characters.
#[verifier::external_body]
pub(crate) fn string_of(v: &[char]) -> (r: String)
    ensures
        r@ == v@,
{
    v.iter().collect()
}

/// Relies on `pulldown_cmark_escape::escape_html`, which writes `&`, `<`,
/// `>`, `"` and `'` as entities and copies every other character.
#[verifier::external_body]
pub(crate) fn escape_html(s: &str) -> (r: String)
    ensures
        r@ == escaped(s@),
{
    let mut out = String::new();
    let _ = pulldown_cmark_escape::escape_html(&mut out, s);
    out
}

/// The characters of `s` from `from` up to `to`, as a string.
pub(crate) fn slice_string(s: &Vec<char>, from: usize, to: usize) -> (r: String)
    requires
        from <= to <= s@.len(),
    ensures
        r@ == s@.subrange(from as int, to as int),
{
    let mut out: Vec<char> = Vec::new();
    let mut i = from;
    while i < to
        invariant
            from <= i <= to <= s@.len(),
            out@ == s@.subrange(from as int, i as int),
        decreases to - i,
    {
        out.push(s[i]);
        i = i + 1;
        assert(out@ =~= s@.subrange(from as int, i as int));
    }
    string_of(out.as_slice())
}

} // verus!
