//! The codeblock interception layer: a small state machine fed one markdown
//! event at a time. Events outside code blocks pass through; the text of a
//! code block is gathered and, at its end, replaced by one highlighted HTML
//! fragment that carries the block's own text in a `data-code` attribute.
use crate::highlight::{code_html, pre_open, render_code_to_html, Highlighter};
use crate::text::{
    chars_of, escape_char, escape_html, escaped, lemma_escape_round_trip, slice_string, starts_with,
    unescaped,
};
use vstd::prelude::*;
use vstd::string::StringExecFns;

verus! {

/// How a code block was opened.
pub enum CodeKind {
    Indented,
    Fenced(String),
}

/// The markdown events the layer tells apart; `Other` stands for every event
/// it passes through untouched.
pub enum MdEvent {
    CodeStart(CodeKind),
    CodeEnd,
    Text(String),
    Other,
}

/// What one event does to the stream.
pub enum Step {
    /// The event goes on unchanged.
    Pass,
    /// The event is absorbed into the current code block.
    Hold,
    /// A code block ended, with its text and language token.
    Finished { code: String, lang: String },
}

/// What the layer hands downstream for one event.
pub enum Emitted {
    Pass,
    Hold,
    Html(String),
}

enum Phase {
    Idle,
    Accumulating { lang: String, buffer: String },
}

pub enum PhaseView {
    Idle,
    Accumulating { lang: Seq<char>, buffer: Seq<char> },
}

pub enum StepView {
    Pass,
    Hold,
    Finished { code: Seq<char>, lang: Seq<char> },
}

impl Step {
    pub open spec fn view(&self) -> StepView {
        match self {
            Step::Pass => StepView::Pass,
            Step::Hold => StepView::Hold,
            Step::Finished { code, lang } => StepView::Finished { code: code@, lang: lang@ },
        }
    }
}

/// The language token of a block: its declared tag if fenced, plain text if
/// indented.
pub open spec fn lang_of(kind: CodeKind) -> Seq<char> {
    match kind {
        CodeKind::Indented => "text"@,
        CodeKind::Fenced(l) => l@,
    }
}

/// One transition: the next phase and what becomes of the event.
pub open spec fn step_spec(p: PhaseView, e: MdEvent) -> (PhaseView, StepView) {
    match p {
        PhaseView::Idle => match e {
            MdEvent::CodeStart(k) => (
                PhaseView::Accumulating { lang: lang_of(k), buffer: Seq::empty() },
                StepView::Hold,
            ),
            _ => (PhaseView::Idle, StepView::Pass),
        },
        PhaseView::Accumulating { lang, buffer } => match e {
            MdEvent::CodeEnd => (PhaseView::Idle, StepView::Finished { code: buffer, lang }),
            MdEvent::Text(t) => (
                PhaseView::Accumulating { lang, buffer: buffer + t@ },
                StepView::Hold,
            ),
            _ => (PhaseView::Accumulating { lang, buffer }, StepView::Hold),
        },
    }
}

/// The steps taken for a sequence of events, starting in phase `p`.
pub open spec fn run(p: PhaseView, evs: Seq<MdEvent>) -> Seq<StepView>
    decreases evs.len(),
{
    if evs.len() == 0 {
        Seq::empty()
    } else {
        let (q, s) = step_spec(p, evs[0]);
        seq![s] + run(q, evs.drop_first())
    }
}

/// The opening tag of a block's fragment, with the escaped text as
/// `data-code`.
pub open spec fn data_code_open(code: Seq<char>) -> Seq<char> {
    "<pre data-code=\""@ + escaped(code) + "\""@
}

/// A highlighted fragment with the `data-code` attribute added to its
/// outermost element, the `<pre` it opens with; any other text is left as
/// it is.
pub open spec fn spliced(html: Seq<char>, code: Seq<char>) -> Seq<char> {
    if starts_with(html, pre_open()) {
        data_code_open(code) + html.skip(4)
    } else {
        html
    }
}

/// The fragment a finished block becomes.
pub open spec fn block_html(code: Seq<char>, lang: Seq<char>, theme: Seq<char>) -> Seq<char> {
    spliced(code_html(code, lang, theme), code)
}

/// Adds the escaped `code` as a `data-code` attribute to the `<pre` tag that
/// `html` opens with.
pub fn splice_data_code(html: &str, code: &str) -> (r: String)
    ensures
        r@ == spliced(html@, code@),
{
    let cs = chars_of(html);
    let n = cs.len();
    if n < 4 || cs[0] != '<' || cs[1] != 'p' || cs[2] != 'r' || cs[3] != 'e' {
        proof {
            if starts_with(html@, pre_open()) {
                assert(html@.subrange(0, 4)[0] == cs@[0]);
                assert(html@.subrange(0, 4)[1] == cs@[1]);
                assert(html@.subrange(0, 4)[2] == cs@[2]);
                assert(html@.subrange(0, 4)[3] == cs@[3]);
            }
        }
        return String::from_str(html);
    }
    assert(html@.subrange(0, 4) =~= pre_open());
    let mut open = String::from_str("<pre data-code=\"");
    let esc = escape_html(code);
    open.append(esc.as_str());
    open.append("\"");
    let rest = slice_string(&cs, 4, n);
    assert(cs@.subrange(4, n as int) =~= html@.skip(4));
    open.append(rest.as_str());
    open
}

/// The fragment for one finished code block.
pub fn finish_block(hl: &Highlighter, code: &str, lang: &str) -> (r: String)
    ensures
        r@ == block_html(code@, lang@, hl.theme_name()),
{
    let h = render_code_to_html(hl, code, lang);
    splice_data_code(h.as_str(), code)
}

fn lang_token(kind: CodeKind) -> (r: String)
    ensures
        r@ == lang_of(kind),
{
    match kind {
        CodeKind::Indented => String::from_str("text"),
        CodeKind::Fenced(l) => l,
    }
}

/// The layer's state: idle, or inside a code block gathering its text.
pub struct CodeblockRenderer {
    phase: Phase,
}

impl CodeblockRenderer {
    pub closed spec fn view(&self) -> PhaseView {
        match self.phase {
            Phase::Idle => PhaseView::Idle,
            Phase::Accumulating { lang, buffer } => PhaseView::Accumulating {
                lang: lang@,
                buffer: buffer@,
            },
        }
    }

    pub fn new() -> (r: Self)
        ensures
            r.view() == PhaseView::Idle,
    {
        CodeblockRenderer { phase: Phase::Idle }
    }

    /// Takes one event through the state machine.
    pub fn advance(&mut self, ev: MdEvent) -> (r: Step)
        ensures
            (final(self).view(), r.view()) == step_spec(old(self).view(), ev),
    {
        let mut cur = Phase::Idle;
        core::mem::swap(&mut self.phase, &mut cur);
        match cur {
            Phase::Idle => match ev {
                MdEvent::CodeStart(kind) => {
                    let lang = lang_token(kind);
                    self.phase = Phase::Accumulating { lang, buffer: String::new() };
                    Step::Hold
                },
                _ => Step::Pass,
            },
            Phase::Accumulating { lang, buffer } => match ev {
                MdEvent::CodeEnd => Step::Finished { code: buffer, lang },
                MdEvent::Text(t) => {
                    let mut buffer = buffer;
                    buffer.append(t.as_str());
                    self.phase = Phase::Accumulating { lang, buffer };
                    Step::Hold
                },
                _ => {
                    self.phase = Phase::Accumulating { lang, buffer };
                    Step::Hold
                },
            },
        }
    }

    /// Takes one event through the layer: it passes on, is absorbed, or
    /// closes a code block, which becomes one highlighted fragment.
    pub fn feed(&mut self, hl: &Highlighter, ev: MdEvent) -> (r: Emitted)
        ensures
            final(self).view() == step_spec(old(self).view(), ev).0,
            step_spec(old(self).view(), ev).1 is Pass ==> r is Pass,
            step_spec(old(self).view(), ev).1 is Hold ==> r is Hold,
            step_spec(old(self).view(), ev).1 is Finished ==> r is Html && r->Html_0@
                == block_html(
                step_spec(old(self).view(), ev).1->Finished_code,
                step_spec(old(self).view(), ev).1->Finished_lang,
                hl.theme_name(),
            ),
    {
        let ghost before = self.view();
        let ghost e = ev;
        let step = self.advance(ev);
        assert(step.view() == step_spec(before, e).1);
        match step {
            Step::Pass => {
                Emitted::Pass
            },
            Step::Hold => Emitted::Hold,
            Step::Finished { code, lang } => {
                Emitted::Html(finish_block(hl, code.as_str(), lang.as_str()))
            },
        }
    }
}

/// Every code block's fragment is the highlighter's fragment with one
/// `data-code` attribute added right after its opening `<pre`; that value
/// is the block's text escaped, holds no `"`, and unescapes to the block's
/// text exactly. (`render_code_to_html` shows the fragment opens with
/// `<pre` for every block it renders.)
pub proof fn lemma_data_code_round_trip(code: Seq<char>, lang: Seq<char>, theme: Seq<char>)
    requires
        starts_with(code_html(code, lang, theme), pre_open()),
    ensures
        block_html(code, lang, theme) == data_code_open(code) + code_html(code, lang, theme).skip(4),
        starts_with(block_html(code, lang, theme), data_code_open(code)),
        unescaped(escaped(code)) == code,
        forall|i: int| 0 <= i < escaped(code).len() ==> escaped(code)[i] != '"',
{
    let h = code_html(code, lang, theme);
    let o = data_code_open(code);
    assert((o + h.skip(4)).subrange(0, o.len() as int) =~= o);
    lemma_escape_round_trip(code);
    lemma_escaped_has_no_quote(code);
}

proof fn lemma_escaped_has_no_quote(s: Seq<char>)
    ensures
        forall|i: int| 0 <= i < escaped(s).len() ==> escaped(s)[i] != '"',
    decreases s.len(),
{
    if s.len() > 0 {
        lemma_escaped_has_no_quote(s.drop_first());
        let e = escape_char(s[0]);
        let t = escaped(s.drop_first());
        assert(forall|i: int| 0 <= i < e.len() ==> e[i] != '"');
        assert(escaped(s) == e + t);
        assert forall|i: int| 0 <= i < escaped(s).len() implies escaped(s)[i] != '"' by {
            if i < e.len() {
                assert((e + t)[i] == e[i]);
            } else {
                assert((e + t)[i] == t[i - e.len()]);
            }
        }
    }
}

/// Inside a code block that is never closed, every later event is absorbed:
/// nothing of the block reaches the output.
pub proof fn lemma_unterminated_block_emits_nothing(
    lang: Seq<char>,
    buffer: Seq<char>,
    evs: Seq<MdEvent>,
)
    requires
        forall|i: int| 0 <= i < evs.len() ==> !(evs[i] is CodeEnd),
    ensures
        run(PhaseView::Accumulating { lang, buffer }, evs).len() == evs.len(),
        forall|i: int|
            0 <= i < evs.len() ==> run(PhaseView::Accumulating { lang, buffer }, evs)[i]
                is Hold,
    decreases evs.len(),
{
    if evs.len() > 0 {
        let (q, s) = step_spec(PhaseView::Accumulating { lang, buffer }, evs[0]);
        let nb = q->Accumulating_buffer;
        assert(q == PhaseView::Accumulating { lang, buffer: nb });
        lemma_unterminated_block_emits_nothing(lang, nb, evs.drop_first());
    }
}

} // verus!
