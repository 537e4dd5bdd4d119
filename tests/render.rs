use mdbook_server::codeblock::{finish_block, splice_data_code, CodeKind, CodeblockRenderer, Emitted, MdEvent, Step};
use mdbook_server::highlight::{choose_html, plain_code_html, render_code_to_html, Highlighter};

fn highlighter() -> Highlighter {
    Highlighter::new("base16-ocean.dark").unwrap()
}

fn unescape(s: &str) -> String {
    s.replace("&quot;", "\"")
        .replace("&#39;", "'")
        .replace("&lt;", "<")
        .replace("&gt;", ">")
        .replace("&amp;", "&")
}

fn data_code(html: &str) -> String {
    let start = html.find("data-code=\"").unwrap() + "data-code=\"".len();
    let len = html[start..].find('"').unwrap();
    html[start..start + len].to_string()
}

fn run(events: Vec<MdEvent>) -> Vec<String> {
    let hl = highlighter();
    let mut r = CodeblockRenderer::new();
    let mut out = Vec::new();
    for ev in events {
        match r.feed(&hl, ev) {
            Emitted::Pass => out.push("pass".to_string()),
            Emitted::Hold => out.push("hold".to_string()),
            Emitted::Html(h) => out.push(h),
        }
    }
    out
}

#[test]
fn highlighter_is_chosen_by_theme_name() {
    assert_eq!(highlighter().theme_name_str(), "base16-ocean.dark");
    assert!(Highlighter::new("no such theme").is_none());
}

#[test]
fn splice_adds_escaped_attribute() {
    let r = splice_data_code("<pre>x</pre>", "a<b\"c");
    assert_eq!(r, "<pre data-code=\"a&lt;b&quot;c\">x</pre>");
    assert_eq!(splice_data_code("<pre><pre>", "c"), "<pre data-code=\"c\"><pre>");
    assert_eq!(splice_data_code("<div><pre>", "c"), "<div><pre>");
}

#[test]
fn plain_fragment_escapes_code() {
    assert_eq!(plain_code_html("x<y & 'z'"), "<pre><code>x&lt;y &amp; &#39;z&#39;</code></pre>");
}

#[test]
fn choose_html_prefers_highlighter_output() {
    assert_eq!(choose_html(Some("<pre>h</pre>".to_string()), "c"), "<pre>h</pre>");
    assert_eq!(choose_html(None, "a>b"), "<pre><code>a&gt;b</code></pre>");
}

#[test]
fn known_language_is_highlighted() {
    let hl = highlighter();
    let h = render_code_to_html(&hl, "fn main() {}\n", "rust");
    assert!(h.starts_with("<pre"));
    assert!(h.contains("main"));
    assert!(h.contains("<span"));
}

#[test]
fn unknown_language_falls_back_to_plain_text() {
    let hl = highlighter();
    let h = render_code_to_html(&hl, "a<b\n", "nonexistentlang123");
    assert!(h.starts_with("<pre"));
    assert!(h.contains("a&lt;b"));
    assert!(!h.contains("a<b"));
}

#[test]
fn data_code_round_trips() {
    let hl = highlighter();
    let code = "<a href=\"x\">&'</a>\nlet y = 1 > 0;\n";
    let h = finish_block(&hl, code, "html");
    assert!(h.starts_with("<pre data-code=\""));
    assert_eq!(h.matches("data-code=").count(), 1);
    assert_eq!(unescape(&data_code(&h)), code);
    let plain = render_code_to_html(&hl, code, "html");
    assert_eq!(h, splice_data_code(&plain, code));
}

#[test]
fn fenced_block_becomes_one_fragment() {
    let out = run(vec![
        MdEvent::Other,
        MdEvent::CodeStart(CodeKind::Fenced("rust".to_string())),
        MdEvent::Text("let x = 1;\n".to_string()),
        MdEvent::Other,
        MdEvent::Text("let y = 2;\n".to_string()),
        MdEvent::CodeEnd,
        MdEvent::Text("after".to_string()),
    ]);
    assert_eq!(out.len(), 7);
    assert_eq!(out[0], "pass");
    assert_eq!(out[1], "hold");
    assert_eq!(out[2], "hold");
    assert_eq!(out[3], "hold");
    assert_eq!(out[4], "hold");
    assert!(out[5].starts_with("<pre data-code=\"let x = 1;\nlet y = 2;\n\""));
    assert_eq!(out[6], "pass");
}

#[test]
fn indented_block_uses_plain_text_token() {
    let mut r = CodeblockRenderer::new();
    assert!(matches!(r.advance(MdEvent::CodeStart(CodeKind::Indented)), Step::Hold));
    assert!(matches!(r.advance(MdEvent::Text("x".to_string())), Step::Hold));
    match r.advance(MdEvent::CodeEnd) {
        Step::Finished { code, lang } => {
            assert_eq!(code, "x");
            assert_eq!(lang, "text");
        }
        _ => panic!("block did not finish"),
    }
    assert!(matches!(r.advance(MdEvent::Other), Step::Pass));
}

#[test]
fn unterminated_block_emits_nothing() {
    let out = run(vec![
        MdEvent::Other,
        MdEvent::CodeStart(CodeKind::Fenced("python".to_string())),
        MdEvent::Text("print(1)\n".to_string()),
        MdEvent::Other,
    ]);
    assert_eq!(out, vec!["pass", "hold", "hold", "hold"]);
}

#[test]
fn rendering_twice_gives_the_same_output() {
    let events = || {
        vec![
            MdEvent::CodeStart(CodeKind::Fenced("rust".to_string())),
            MdEvent::Text("fn f() -> u8 { 1 }\n".to_string()),
            MdEvent::CodeEnd,
            MdEvent::Other,
        ]
    };
    assert_eq!(run(events()), run(events()));
}
