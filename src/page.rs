//! Page requests: the document a requested name stands for.
use crate::text::chars_of;
use vstd::prelude::*;
use vstd::string::StringExecFns;

verus! {

pub open spec fn ends_md(s: Seq<char>) -> bool {
    s.len() >= 3 && s.skip(s.len() - 3) == ".md"@
}

/// The file a request names: the name itself where it has the `.md`
/// extension, else the name with `.md` appended.
pub open spec fn page_file(s: Seq<char>) -> Seq<char> {
    if ends_md(s) {
        s
    } else {
        s + ".md"@
    }
}

/// The document file requested by `page`.
pub fn page_filename(page: &str) -> (r: String)
    ensures
        r@ == page_file(page@),
{
    let cs = chars_of(page);
    let n = cs.len();
    proof {
        reveal_strlit(".md");
    }
    if n >= 3 && cs[n - 3] == '.' && cs[n - 2] == 'm' && cs[n - 1] == 'd' {
        assert(page@.skip(n - 3) =~= ".md"@);
        String::from_str(page)
    } else {
        assert(n >= 3 ==> page@.skip(n - 3)[0] == cs@[n - 3]);
        assert(n >= 3 ==> page@.skip(n - 3)[1] == cs@[n - 2]);
        assert(n >= 3 ==> page@.skip(n - 3)[2] == cs@[n - 1]);
        String::from_str(page).concat(".md")
    }
}

/// A request that omits the extension names the same file as one that
/// includes it, and resolving a resolved name changes nothing.
pub proof fn lemma_extension_optional(p: Seq<char>)
    ensures
        !ends_md(p) ==> page_file(p) == page_file(p + ".md"@),
        page_file(page_file(p)) == page_file(p),
{
    reveal_strlit(".md");
    let q = p + ".md"@;
    assert(q.skip(q.len() - 3) =~= ".md"@);
}

} // verus!
