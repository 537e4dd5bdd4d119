//! The navigation resolver: the previous and next sibling of a page among
//! the directory's markdown files, in filename order.
use crate::order::{lemma_lex_irreflexive, lemma_lex_total, lemma_lex_transitive, lex_less, lex_lt};
use crate::text::{chars_of, slice_string};
use vstd::prelude::*;
use vstd::string::StringExecFns;

verus! {

/// The reserved summary document, never a sibling.
pub open spec fn summary_name() -> Seq<char> {
    "SUMMARY.md"@
}

/// The previous-link value that stands for the index page.
pub open spec fn index_sentinel() -> Seq<char> {
    "."@
}

/// The name ends in `.md`.
pub open spec fn has_md_suffix(f: Seq<char>) -> bool {
    f.len() >= 3 && f[f.len() - 3] == '.' && f[f.len() - 2] == 'm' && f[f.len() - 1] == 'd'
}

/// A document file: a name with the `md` extension, that is ending in `.md`
/// with something before the dot.
pub open spec fn markdown_name(f: Seq<char>) -> bool {
    f.len() > 3 && has_md_suffix(f)
}

/// A file that takes part in navigation: a document other than the summary
/// document.
pub open spec fn eligible(f: Seq<char>) -> bool {
    markdown_name(f) && f != summary_name()
}

/// The exported name of a file: a trailing `.md` becomes `.html`.
pub open spec fn html_name(f: Seq<char>) -> Seq<char> {
    if has_md_suffix(f) {
        f.take(f.len() - 3) + ".html"@
    } else {
        f
    }
}

pub open spec fn listed(files: Seq<String>, f: Seq<char>) -> bool {
    exists|k: int| 0 <= k < files.len() && files[k]@ == f
}

pub open spec fn below(files: Seq<String>, k: int, cur: Seq<char>) -> bool {
    eligible(files[k]@) && lex_lt(files[k]@, cur)
}

pub open spec fn above(files: Seq<String>, k: int, cur: Seq<char>) -> bool {
    eligible(files[k]@) && lex_lt(cur, files[k]@)
}

/// `p` is the previous link of `cur`: the index sentinel where no sibling
/// sorts before it, else the last sibling that does.
pub open spec fn is_prev(files: Seq<String>, cur: Seq<char>, p: Seq<char>) -> bool {
    if forall|k: int| 0 <= k < files.len() ==> !below(files, k, cur) {
        p == index_sentinel()
    } else {
        eligible(p) && listed(files, p) && lex_lt(p, cur) && forall|k: int|
            0 <= k < files.len() && below(files, k, cur) ==> !lex_lt(p, #[trigger] files[k]@)
    }
}

/// `n` is the next link of `cur`: the first sibling that sorts after it.
pub open spec fn is_next(files: Seq<String>, cur: Seq<char>, n: Option<Seq<char>>) -> bool {
    match n {
        None => forall|k: int| 0 <= k < files.len() ==> !above(files, k, cur),
        Some(n) => eligible(n) && listed(files, n) && lex_lt(cur, n) && forall|k: int|
            0 <= k < files.len() && above(files, k, cur) ==> !lex_lt(#[trigger] files[k]@, n),
    }
}

pub open spec fn opt_view(o: Option<String>) -> Option<Seq<char>> {
    match o {
        Some(s) => Some(s@),
        None => None,
    }
}

/// What the resolver owes for `cur`: both links absent where `cur` is not a
/// sibling, else the previous link and the next one.
pub open spec fn nav_ok(
    files: Seq<String>,
    cur: Seq<char>,
    prev: Option<Seq<char>>,
    next: Option<Seq<char>>,
) -> bool {
    if eligible(cur) && listed(files, cur) {
        prev is Some && is_prev(files, cur, prev->Some_0) && is_next(files, cur, next)
    } else {
        prev is None && next is None
    }
}

/// A link as written in a static export: the index sentinel becomes the
/// generated index file, and `.md` becomes `.html`.
pub open spec fn static_prev(p: Seq<char>) -> Seq<char> {
    if p == index_sentinel() {
        "index.html"@
    } else {
        html_name(p)
    }
}

pub open spec fn static_next(n: Seq<char>) -> Seq<char> {
    html_name(n)
}

pub open spec fn opt_map(o: Option<Seq<char>>, is_prev: bool) -> Option<Seq<char>> {
    match o {
        Some(s) => Some(if is_prev { static_prev(s) } else { static_next(s) }),
        None => None,
    }
}

/// Whether `name` is a document file, one with the `md` extension.
pub fn is_markdown_name(name: &str) -> (r: bool)
    ensures
        r == markdown_name(name@),
{
    let cs = chars_of(name);
    let n = cs.len();
    n > 3 && cs[n - 3] == '.' && cs[n - 2] == 'm' && cs[n - 1] == 'd'
}

fn is_page_file(f: &String) -> (r: bool)
    ensures
        r == eligible(f@),
{
    if !is_markdown_name(f.as_str()) {
        return false;
    }
    let summary = String::from_str("SUMMARY.md");
    !(*f == summary)
}

/// The previous and next sibling of `current` among `files`, the names in
/// the directory. Siblings are the eligible names in lexicographic order.
/// Where `current` is not one of them both are absent; the first sibling's
/// previous link is the index sentinel `"."`.
pub fn get_nav_links(files: &Vec<String>, current: &str) -> (r: (Option<String>, Option<String>))
    ensures
        nav_ok(files@, current@, opt_view(r.0), opt_view(r.1)),
{
    let cur = String::from_str(current);
    let cur_chars = chars_of(current);
    let mut found = false;
    let mut best_prev: Option<usize> = None;
    let mut best_next: Option<usize> = None;
    let ghost fs = files@;
    let ghost c = current@;
    let mut i: usize = 0;
    while i < files.len()
        invariant
            i <= fs.len(),
            fs == files@,
            c == current@,
            cur@ == c,
            cur_chars@ == c,
            found == exists|k: int| 0 <= k < i && fs[k]@ == c,
            best_prev is None ==> forall|k: int| 0 <= k < i ==> !below(fs, k, c),
            best_prev is Some ==> {
                let j = best_prev->Some_0;
                &&& j < i
                &&& below(fs, j as int, c)
                &&& forall|k: int|
                    0 <= k < i && below(fs, k, c) ==> !lex_lt(fs[j as int]@, #[trigger] fs[k]@)
            },
            best_next is None ==> forall|k: int| 0 <= k < i ==> !above(fs, k, c),
            best_next is Some ==> {
                let j = best_next->Some_0;
                &&& j < i
                &&& above(fs, j as int, c)
                &&& forall|k: int|
                    0 <= k < i && above(fs, k, c) ==> !lex_lt(#[trigger] fs[k]@, fs[j as int]@)
            },
        decreases fs.len() - i,
    {
        let f = &files[i];
        if *f == cur {
            found = true;
        }
        let elig = is_page_file(f);
        let fc = chars_of(f.as_str());
        let lt = lex_less(&fc, &cur_chars);
        let gt = lex_less(&cur_chars, &fc);
        if elig {
            if lt {
                match best_prev {
                    None => {
                        best_prev = Some(i);
                    },
                    Some(j) => {
                        let bc = chars_of(files[j].as_str());
                        if lex_less(&bc, &fc) {
                            proof {
                                assert forall|k: int| 0 <= k < i + 1 && below(fs, k, c) implies
                                    !lex_lt(fs[i as int]@, #[trigger] fs[k]@) by {
                                    if k < i {
                                        lemma_order_step(fs[j as int]@, fs[i as int]@, fs[k]@);
                                    } else {
                                        lemma_lex_irreflexive(fs[i as int]@);
                                    }
                                }
                            }
                            best_prev = Some(i);
                        }
                    },
                }
            } else if gt {
                match best_next {
                    None => {
                        best_next = Some(i);
                    },
                    Some(j) => {
                        let bc = chars_of(files[j].as_str());
                        if lex_less(&fc, &bc) {
                            proof {
                                assert forall|k: int| 0 <= k < i + 1 && above(fs, k, c) implies
                                    !lex_lt(#[trigger] fs[k]@, fs[i as int]@) by {
                                    if k < i {
                                        lemma_order_step_rev(fs[j as int]@, fs[i as int]@, fs[k]@);
                                    } else {
                                        lemma_lex_irreflexive(fs[i as int]@);
                                    }
                                }
                            }
                            best_next = Some(i);
                        }
                    },
                }
            }
        }
        proof {
            if lt && lex_lt(c, fc@) {
                lemma_lex_transitive(fc@, c, fc@);
                lemma_lex_irreflexive(fc@);
            }
            if best_prev is None {
                assert(!below(fs, i as int, c));
                assert forall|k: int| 0 <= k < i + 1 implies !below(fs, k, c) by {
                    if k == i {
                        assert(!below(fs, i as int, c));
                    }
                }
            }
            if best_prev is Some {
                let j = best_prev->Some_0;
                assert forall|k: int| 0 <= k < i + 1 && below(fs, k, c) implies !lex_lt(
                    fs[j as int]@,
                    #[trigger] fs[k]@,
                ) by {
                    if k == i && j == i {
                        lemma_lex_irreflexive(fs[i as int]@);
                    }
                }
            }
            if best_next is Some {
                let j = best_next->Some_0;
                assert forall|k: int| 0 <= k < i + 1 && above(fs, k, c) implies !lex_lt(
                    #[trigger] fs[k]@,
                    fs[j as int]@,
                ) by {
                    if k == i && j == i {
                        lemma_lex_irreflexive(fs[i as int]@);
                    }
                }
            }
            if best_next is None {
                assert(!above(fs, i as int, c));
                assert forall|k: int| 0 <= k < i + 1 implies !above(fs, k, c) by {
                    if k == i {
                        assert(!above(fs, i as int, c));
                    }
                }
            }
        }
        i = i + 1;
    }
    if !found || !is_page_file(&cur) {
        return (None, None);
    }
    let prev = match best_prev {
        None => String::from_str("."),
        Some(j) => files[j].clone(),
    };
    let next = match best_next {
        None => None,
        Some(j) => Some(files[j].clone()),
    };
    proof {
        if let Some(j) = best_prev {
            assert(!(forall|k: int| 0 <= k < fs.len() ==> !below(fs, k, c)));
            assert(listed(fs, fs[j as int]@));
        } else {
            reveal_strlit(".");
        }
        if let Some(j) = best_next {
            assert(listed(fs, fs[j as int]@));
        }
    }
    (Some(prev), next)
}

/// The exported file name of a document: its trailing `.md` becomes
/// `.html`.
pub fn html_file_name(filename: &str) -> (r: String)
    ensures
        r@ == html_name(filename@),
{
    let cs = chars_of(filename);
    let n = cs.len();
    if n >= 3 && cs[n - 3] == '.' && cs[n - 2] == 'm' && cs[n - 1] == 'd' {
        let stem = slice_string(&cs, 0, n - 3);
        assert(cs@.subrange(0, n - 3) =~= filename@.take(n - 3));
        stem.concat(".html")
    } else {
        String::from_str(filename)
    }
}

/// The links of a static export: the index sentinel becomes `index.html`,
/// and a file name's trailing `.md` becomes `.html`.
pub fn to_static_links(prev: Option<String>, next: Option<String>) -> (r: (
    Option<String>,
    Option<String>,
))
    ensures
        opt_view(r.0) == opt_map(opt_view(prev), true),
        opt_view(r.1) == opt_map(opt_view(next), false),
{
    let p = match prev {
        Some(p) => {
            let dot = String::from_str(".");
            if p == dot {
                Some(String::from_str("index.html"))
            } else {
                Some(html_file_name(p.as_str()))
            }
        },
        None => None,
    };
    let n = match next {
        Some(n) => {
            Some(html_file_name(n.as_str()))
        },
        None => None,
    };
    (p, n)
}

/// The navigation links of a page: none where navigation is disabled,
/// otherwise the resolver's links, rewritten for a static export. Both
/// modes take the same adjacency decision and differ only in the link text.
pub fn page_nav_links(
    files: &Vec<String>,
    current: &str,
    navigation_enabled: bool,
    is_static: bool,
) -> (r: (Option<String>, Option<String>))
    ensures
        !navigation_enabled ==> r.0 is None && r.1 is None,
        navigation_enabled ==> exists|p: Option<Seq<char>>, n: Option<Seq<char>>|
            {
                &&& nav_ok(files@, current@, p, n)
                &&& opt_view(r.0) == if is_static { opt_map(p, true) } else { p }
                &&& opt_view(r.1) == if is_static { opt_map(n, false) } else { n }
            },
{
    if !navigation_enabled {
        return (None, None);
    }
    let (p, n) = get_nav_links(files, current);
    let ghost pv = opt_view(p);
    let ghost nv = opt_view(n);
    if is_static {
        let r = to_static_links(p, n);
        assert(nav_ok(files@, current@, pv, nv));
        r
    } else {
        assert(nav_ok(files@, current@, pv, nv));
        (p, n)
    }
}

/// Where `b < f` and `g <= b`, also `g <= f`.
proof fn lemma_order_step(b: Seq<char>, f: Seq<char>, g: Seq<char>)
    requires
        lex_lt(b, f),
        !lex_lt(b, g),
    ensures
        !lex_lt(f, g),
{
    lemma_lex_total(b, g);
    if lex_lt(f, g) {
        if g == b {
            lemma_lex_transitive(b, f, b);
        } else {
            lemma_lex_transitive(f, g, b);
            lemma_lex_transitive(b, f, b);
        }
        lemma_lex_irreflexive(b);
    }
}

/// Where `f < b` and `b <= g`, also `f <= g`.
proof fn lemma_order_step_rev(b: Seq<char>, f: Seq<char>, g: Seq<char>)
    requires
        lex_lt(f, b),
        !lex_lt(g, b),
    ensures
        !lex_lt(g, f),
{
    lemma_lex_total(b, g);
    if lex_lt(g, f) {
        if g == b {
            lemma_lex_transitive(b, f, b);
        } else {
            lemma_lex_transitive(b, g, f);
            lemma_lex_transitive(b, f, b);
        }
        lemma_lex_irreflexive(b);
    }
}

} // verus!
