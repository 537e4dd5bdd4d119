//! The code highlighter: a syntax-coloured fragment when the highlighter can
//! produce one, a plain escaped `<pre><code>` block otherwise.
use crate::text::{escape_html, escaped, starts_with};
use syntect::highlighting::{Theme, ThemeSet};
use syntect::parsing::SyntaxSet;
use vstd::prelude::*;
use vstd::string::StringExecFns;

verus! {

#[verifier::external_type_specification]
#[verifier::external_body]
pub struct ExSyntaxSet(SyntaxSet);

#[verifier::external_type_specification]
#[verifier::external_body]
pub struct ExTheme(Theme);

/// What highlighting `code` as `token` in the default theme named `theme`
/// gives: `None` where no default syntax answers to the token, `Some(None)`
/// where highlighting failed, else the HTML snippet.
pub uninterp spec fn highlighted_of(code: Seq<char>, token: Seq<char>, theme: Seq<char>) -> Option<
    Option<Seq<char>>,
>;

/// The fixed configuration of the highlighter: the default syntax
/// definitions and one default colour theme, chosen by name, built once and
/// shared read-only.
pub struct Highlighter {
    syntaxes: SyntaxSet,
    theme: Theme,
    theme_name: String,
}

/// Relies on `SyntaxSet::load_defaults_newlines`: the syntaxes bundled with
/// syntect, always the same set.
#[verifier::external_body]
fn default_syntaxes() -> SyntaxSet {
    SyntaxSet::load_defaults_newlines()
}

/// Relies on `ThemeSet::load_defaults`: the themes bundled with syntect, of
/// which the one called `name`, if there is one.
#[verifier::external_body]
fn default_theme(name: &str) -> Option<Theme> {
    ThemeSet::load_defaults().themes.remove(name)
}

/// Relies on `SyntaxSet::find_syntax_by_token` (by extension, then by name
/// ignoring ASCII case) and `syntect::html::highlighted_html_for_string`,
/// whose snippet opens with `<pre style=...>`.
#[verifier::external_body]
fn highlight_token(hl: &Highlighter, code: &str, token: &str) -> (r: Option<Option<String>>)
    ensures
        opt_opt_view(r) == highlighted_of(code@, token@, hl.theme_name()),
        r matches Some(Some(h)) ==> starts_with(h@, pre_open()),
{
    match hl.syntaxes.find_syntax_by_token(token) {
        Some(s) => Some(
            syntect::html::highlighted_html_for_string(code, &hl.syntaxes, s, &hl.theme).ok(),
        ),
        None => None,
    }
}

pub open spec fn opt_opt_view(o: Option<Option<String>>) -> Option<Option<Seq<char>>> {
    match o {
        Some(Some(h)) => Some(Some(h@)),
        Some(None) => Some(None),
        None => None,
    }
}

impl Highlighter {
    pub closed spec fn theme_name(&self) -> Seq<char> {
        self.theme_name@
    }

    /// The highlighter for the default theme `theme_name`; `None` where no
    /// default theme has that name.
    pub fn new(theme_name: &str) -> (r: Option<Self>)
        ensures
            r matches Some(h) ==> h.theme_name() == theme_name@,
    {
        match default_theme(theme_name) {
            Some(theme) => Some(
                Highlighter {
                    syntaxes: default_syntaxes(),
                    theme,
                    theme_name: String::from_str(theme_name),
                },
            ),
            None => None,
        }
    }

    pub fn theme_name_str(&self) -> (r: &str)
        ensures
            r@ == self.theme_name(),
    {
        self.theme_name.as_str()
    }
}

/// The text every highlighted fragment opens with.
pub open spec fn pre_open() -> Seq<char> {
    seq!['<', 'p', 'r', 'e']
}

/// The token of the plain-text syntax.
pub open spec fn plain_token() -> Seq<char> {
    "Plain Text"@
}

/// The plain fragment: the code escaped inside `<pre><code>`.
pub open spec fn plain_html(code: Seq<char>) -> Seq<char> {
    "<pre><code>"@ + escaped(code) + "</code></pre>"@
}

/// The fragment given one highlighting attempt: its snippet where it
/// succeeded, the plain fragment where it failed.
pub open spec fn attempt_html(attempt: Option<Seq<char>>, code: Seq<char>) -> Seq<char> {
    match attempt {
        Some(h) => h,
        None => plain_html(code),
    }
}

/// The fragment for `code` in language `lang`: highlighted with the syntax
/// of `lang`, or with plain text where no syntax answers to `lang`; the
/// plain fragment where highlighting fails.
pub open spec fn code_html(code: Seq<char>, lang: Seq<char>, theme: Seq<char>) -> Seq<char> {
    match highlighted_of(code, lang, theme) {
        Some(attempt) => attempt_html(attempt, code),
        None => match highlighted_of(code, plain_token(), theme) {
            Some(attempt) => attempt_html(attempt, code),
            None => plain_html(code),
        },
    }
}

/// The plain fragment for `code`.
pub fn plain_code_html(code: &str) -> (r: String)
    ensures
        r@ == plain_html(code@),
{
    let mut out = String::from_str("<pre><code>");
    let body = escape_html(code);
    out.append(body.as_str());
    out.append("</code></pre>");
    out
}

/// The final fragment given what the highlighter produced: its output where
/// it succeeded, the plain fragment where it did not.
pub fn choose_html(attempt: Option<String>, code: &str) -> (r: String)
    ensures
        r@ == attempt_html(
            match attempt {
                Some(h) => Some(h@),
                None => None,
            },
            code@,
        ),
{
    match attempt {
        Some(h) => h,
        None => plain_code_html(code),
    }
}

/// Highlights `code` in the language named by `lang`, falling back to the
/// plain-text syntax for an unknown token and to the plain fragment where
/// highlighting fails. It never fails, and what it returns opens with
/// `<pre`.
pub fn render_code_to_html(hl: &Highlighter, code: &str, lang: &str) -> (r: String)
    ensures
        r@ == code_html(code@, lang@, hl.theme_name()),
        starts_with(r@, pre_open()),
{
    let attempt = match highlight_token(hl, code, lang) {
        Some(a) => Some(a),
        None => highlight_token(hl, code, "Plain Text"),
    };
    let r = match attempt {
        Some(a) => choose_html(a, code),
        None => plain_code_html(code),
    };
    proof {
        reveal_strlit("<pre><code>");
        if r@ == plain_html(code@) {
            assert(r@.subrange(0, 4) =~= pre_open());
        }
    }
    r
}

} // verus!
