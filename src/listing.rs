//! The listing builder: one entry per document, with its title and
//! timestamp, ordered most recent first.
use crate::order::{lemma_lex_irreflexive, lemma_lex_transitive, lex_less, lex_lt};
use crate::nav::{html_file_name, static_next};
use crate::text::{chars_of, slice_string};
use vstd::prelude::*;
use vstd::string::StringExecFns;

verus! {

/// One entry of the page listing.
pub struct Page {
    pub filename: String,
    pub title: String,
    pub datetime: String,
}

/// Whether a character is white space in Unicode's sense: the code points
/// with the `White_Space` property.
pub open spec fn white(c: char) -> bool {
    ('\u{9}' <= c && c <= '\u{d}') || c == ' ' || c == '\u{85}' || c == '\u{a0}' || c
        == '\u{1680}' || ('\u{2000}' <= c && c <= '\u{200a}') || c == '\u{2028}' || c == '\u{2029}'
        || c == '\u{202f}' || c == '\u{205f}' || c == '\u{3000}'
}

/// Relies on `char::is_whitespace`: Unicode's `White_Space` property.
#[verifier::external_body]
fn is_white(c: char) -> (r: bool)
    ensures
        r == white(c),
{
    c.is_whitespace()
}

/// The position of the first `c` in `s`, or its length where there is none.
pub open spec fn index_of(s: Seq<char>, c: char) -> int
    decreases s.len(),
{
    if s.len() == 0 || s[0] == c {
        0
    } else {
        1 + index_of(s.drop_first(), c)
    }
}

/// How many leading characters of `s` are `#`.
pub open spec fn lead_hashes(s: Seq<char>) -> int
    decreases s.len(),
{
    if s.len() == 0 || s[0] != '#' {
        0
    } else {
        1 + lead_hashes(s.drop_first())
    }
}

pub open spec fn lead_white(s: Seq<char>) -> int
    decreases s.len(),
{
    if s.len() == 0 || !white(s[0]) {
        0
    } else {
        1 + lead_white(s.drop_first())
    }
}

pub open spec fn trail_white(s: Seq<char>) -> int
    decreases s.len(),
{
    if s.len() == 0 || !white(s.last()) {
        0
    } else {
        1 + trail_white(s.drop_last())
    }
}

/// A title from a document's first line: leading `#` marks dropped, then
/// surrounding white space.
pub open spec fn title_spec(line: Seq<char>) -> Seq<char> {
    let t = line.skip(lead_hashes(line));
    let u = t.skip(lead_white(t));
    u.take(u.len() - trail_white(u))
}

/// The timestamp of a file name: what follows the first `@`, up to the next
/// `.`; `"Invalid Date"` where the name has no `@`.
pub open spec fn timestamp_spec(f: Seq<char>) -> Seq<char> {
    let i = index_of(f, '@');
    if i == f.len() {
        "Invalid Date"@
    } else {
        let rest = f.skip(i + 1);
        rest.take(index_of(rest, '.'))
    }
}

proof fn lemma_index_of_bound(s: Seq<char>, c: char)
    ensures
        0 <= index_of(s, c) <= s.len(),
        index_of(s, c) < s.len() ==> s[index_of(s, c)] == c,
    decreases s.len(),
{
    if s.len() > 0 && s[0] != c {
        lemma_index_of_bound(s.drop_first(), c);
    }
}

fn find_char(s: &Vec<char>, from: usize, c: char) -> (r: usize)
    requires
        from <= s@.len(),
    ensures
        r == from + index_of(s@.skip(from as int), c),
        r <= s@.len(),
{
    let mut i = from;
    assert(s@.skip(from as int).skip(0) =~= s@.skip(from as int));
    while i < s.len() && s[i] != c
        invariant
            from <= i <= s@.len(),
            index_of(s@.skip(from as int), c) == (i - from) + index_of(s@.skip(i as int), c),
        decreases s@.len() - i,
    {
        assert(s@.skip(i as int).drop_first() =~= s@.skip(i + 1));
        i = i + 1;
    }
    i
}

/// The timestamp part of `filename`.
pub fn timestamp_of(filename: &str) -> (r: String)
    ensures
        r@ == timestamp_spec(filename@),
{
    let cs = chars_of(filename);
    let at = find_char(&cs, 0, '@');
    assert(cs@.skip(0) =~= cs@);
    if at == cs.len() {
        return String::from_str("Invalid Date");
    }
    let dot = find_char(&cs, at + 1, '.');
    let ghost rest = cs@.skip(at + 1);
    proof {
        lemma_index_of_bound(rest, '.');
        assert(rest.take(index_of(rest, '.')) =~= cs@.subrange(at + 1, dot as int));
    }
    slice_string(&cs, at + 1, dot)
}

/// The title shown for a document whose first line is `line`.
pub fn title_of(line: &str) -> (r: String)
    ensures
        r@ == title_spec(line@),
{
    let cs = chars_of(line);
    let n = cs.len();
    let mut a: usize = 0;
    assert(cs@.skip(0) =~= cs@);
    while a < n && cs[a] == '#'
        invariant
            a <= n == cs@.len(),
            lead_hashes(cs@) == a + lead_hashes(cs@.skip(a as int)),
        decreases n - a,
    {
        assert(cs@.skip(a as int).drop_first() =~= cs@.skip(a + 1));
        a = a + 1;
    }
    let ghost t = cs@.skip(a as int);
    assert(lead_hashes(t) == 0);
    let mut b: usize = a;
    assert(t.skip(0) =~= t);
    while b < n && is_white(cs[b])
        invariant
            a <= b <= n == cs@.len(),
            t == cs@.skip(a as int),
            lead_white(t) == (b - a) + lead_white(cs@.skip(b as int)),
        decreases n - b,
    {
        assert(cs@.skip(b as int).drop_first() =~= cs@.skip(b + 1));
        b = b + 1;
    }
    let ghost u = cs@.skip(b as int);
    assert(lead_white(u) == 0);
    assert(t.skip(b - a) =~= u);
    let mut e: usize = n;
    assert(u.take(u.len() as int) =~= u);
    while e > b && is_white(cs[e - 1])
        invariant
            b <= e <= n == cs@.len(),
            u == cs@.skip(b as int),
            trail_white(u) == (n - e) + trail_white(cs@.subrange(b as int, e as int)),
        decreases e - b,
    {
        assert(cs@.subrange(b as int, e as int).drop_last() =~= cs@.subrange(b as int, e - 1));
        e = e - 1;
    }
    assert(cs@.subrange(b as int, n as int) =~= u);
    assert(u.take(u.len() - trail_white(u)) =~= cs@.subrange(b as int, e as int));
    slice_string(&cs, b, e)
}


/// The listing entry of `filename`, given the first line of the file where
/// it could be read; where it could not, the file name is the title.
pub fn page_entry(filename: &str, first_line: Option<String>) -> (r: Page)
    ensures
        r.filename@ == filename@,
        r.datetime@ == timestamp_spec(filename@),
        r.title@ == (match first_line {
            Some(l) => title_spec(l@),
            None => filename@,
        }),
{
    let title = match first_line {
        Some(l) => title_of(l.as_str()),
        None => String::from_str(filename),
    };
    Page { filename: String::from_str(filename), title, datetime: timestamp_of(filename) }
}

/// `x` is listed before `y`: a later timestamp first, and for equal
/// timestamps the smaller file name first.
pub open spec fn comes_before(x: Page, y: Page) -> bool {
    lex_lt(y.datetime@, x.datetime@) || (x.datetime@ == y.datetime@ && lex_lt(
        x.filename@,
        y.filename@,
    ))
}

pub open spec fn listing_sorted(s: Seq<Page>) -> bool {
    forall|a: int, b: int| 0 <= a < b < s.len() ==> !comes_before(#[trigger] s[b], #[trigger] s[a])
}

proof fn lemma_before_irreflexive(x: Page)
    ensures
        !comes_before(x, x),
{
    lemma_lex_irreflexive(x.datetime@);
    lemma_lex_irreflexive(x.filename@);
}

proof fn lemma_before_transitive(x: Page, y: Page, z: Page)
    requires
        comes_before(x, y),
        comes_before(y, z),
    ensures
        comes_before(x, z),
{
    if lex_lt(y.datetime@, x.datetime@) && lex_lt(z.datetime@, y.datetime@) {
        lemma_lex_transitive(z.datetime@, y.datetime@, x.datetime@);
    } else if x.datetime@ == y.datetime@ && y.datetime@ == z.datetime@ {
        lemma_lex_transitive(x.filename@, y.filename@, z.filename@);
    }
}

fn before(x: &Page, y: &Page) -> (r: bool)
    ensures
        r == comes_before(*x, *y),
{
    let xd = chars_of(x.datetime.as_str());
    let yd = chars_of(y.datetime.as_str());
    if lex_less(&yd, &xd) {
        return true;
    }
    if x.datetime == y.datetime {
        let xf = chars_of(x.filename.as_str());
        let yf = chars_of(y.filename.as_str());
        lex_less(&xf, &yf)
    } else {
        false
    }
}

/// The entries most recent first: by timestamp descending, then by file
/// name ascending. The result holds exactly the given entries.
pub fn sort_pages(pages: Vec<Page>) -> (r: Vec<Page>)
    ensures
        listing_sorted(r@),
        r@.to_multiset() == pages@.to_multiset(),
{
    let ghost orig = pages@;
    assert(orig.len() == pages.len());
    let mut rest = pages;
    let mut out: Vec<Page> = Vec::new();
    let mut i: usize = 0;
    assert(orig.take(0) =~= out@);
    while rest.len() > 0
        invariant
            i <= orig.len() <= usize::MAX,
            rest@ == orig.skip(i as int),
            listing_sorted(out@),
            out@.to_multiset() == orig.take(i as int).to_multiset(),
        decreases rest@.len(),
    {
        let p = rest.remove(0);
        assert(p == orig[i as int]);
        let mut k: usize = 0;
        while k < out.len() && !before(&p, &out[k])
            invariant
                k <= out@.len(),
                forall|m: int| 0 <= m < k ==> !comes_before(p, #[trigger] out@[m]),
            decreases out@.len() - k,
        {
            k = k + 1;
        }
        let ghost old_out = out@;
        out.insert(k, p);
        proof {
            assert(out@ == old_out.insert(k as int, p));
            assert forall|a: int, b: int| 0 <= a < b < out@.len() implies !comes_before(
                #[trigger] out@[b],
                #[trigger] out@[a],
            ) by {
                if a < k && b == k {
                } else if a == k {
                    let m = b - 1;
                    if comes_before(old_out[m], p) {
                        if m == k {
                            lemma_before_transitive(old_out[m], p, old_out[k as int]);
                            lemma_before_irreflexive(old_out[m]);
                        } else {
                            lemma_before_transitive(old_out[m], p, old_out[k as int]);
                            assert(!comes_before(old_out[m], old_out[k as int]));
                        }
                    }
                } else if b < k {
                    assert(out@[a] == old_out[a] && out@[b] == old_out[b]);
                } else if a < k {
                    assert(out@[a] == old_out[a] && out@[b] == old_out[b - 1]);
                } else {
                    assert(out@[a] == old_out[a - 1] && out@[b] == old_out[b - 1]);
                }
            }
            assert(orig.take(i + 1) =~= orig.take(i as int).push(p));
            vstd::seq_lib::to_multiset_insert(old_out, k as int, p);
            vstd::seq_lib::to_multiset_build(orig.take(i as int), p);
            assert(rest@ =~= orig.skip(i + 1));
        }
        i = i + 1;
    }
    assert(orig.take(i as int) =~= orig);
    out
}


/// The listing of a static export: each entry links to its exported file.
pub fn static_listing(pages: Vec<Page>) -> (r: Vec<Page>)
    ensures
        r@.len() == pages@.len(),
        forall|i: int|
            0 <= i < pages@.len() ==> {
                &&& (#[trigger] r@[i]).filename@ == static_next(pages@[i].filename@)
                &&& r@[i].title == pages@[i].title
                &&& r@[i].datetime == pages@[i].datetime
            },
{
    let ghost orig = pages@;
    let mut rest = pages;
    let mut out: Vec<Page> = Vec::new();
    let mut i: usize = 0;
    assert(orig.len() == rest.len());
    while rest.len() > 0
        invariant
            i <= orig.len() <= usize::MAX,
            rest@ == orig.skip(i as int),
            out@.len() == i,
            forall|k: int|
                0 <= k < i ==> {
                    &&& (#[trigger] out@[k]).filename@ == static_next(orig[k].filename@)
                    &&& out@[k].title == orig[k].title
                    &&& out@[k].datetime == orig[k].datetime
                },
        decreases rest@.len(),
    {
        let p = rest.remove(0);
        assert(p == orig[i as int]);
        let filename = html_file_name(p.filename.as_str());
        out.push(Page { filename, title: p.title, datetime: p.datetime });
        assert(rest@ =~= orig.skip(i + 1));
        i = i + 1;
    }
    out
}

} // verus!
