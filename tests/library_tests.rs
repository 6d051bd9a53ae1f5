use awsm_markdown_renderer::highlight::highlight_code;
use awsm_markdown_renderer::{
    process_events, render_markdown, render_markdown_with, render_math, scan_text, MdEvent, Piece,
};
use pulldown_cmark::Event;
use syntect::parsing::SyntaxSet;

fn is_literal(p: &Piece, s: &str) -> bool {
    matches!(p, Piece::Literal(t) if t == s)
}

fn is_math(p: &Piece, s: &str, block: bool) -> bool {
    matches!(p, Piece::Math { latex, display } if latex == s && *display == block)
}

fn text(s: &str) -> MdEvent {
    MdEvent::Text(s.to_string())
}

#[test]
fn scan_three_inline_formulas() {
    let (pieces, open) = scan_text("If $a=1$ and $b=2$, then $c=3$.");
    assert!(open.is_none());
    assert_eq!(pieces.len(), 7);
    assert!(is_literal(&pieces[0], "If "));
    assert!(is_math(&pieces[1], "a=1", false));
    assert!(is_literal(&pieces[2], " and "));
    assert!(is_math(&pieces[3], "b=2", false));
    assert!(is_literal(&pieces[4], ", then "));
    assert!(is_math(&pieces[5], "c=3", false));
    assert!(is_literal(&pieces[6], "."));
}

#[test]
fn scan_keeps_currency_literal() {
    let input = "The costs are $5 and $10 respectively.";
    let (pieces, open) = scan_text(input);
    assert!(open.is_none());
    assert_eq!(pieces.len(), 1);
    assert!(is_literal(&pieces[0], input));
}

#[test]
fn scan_rejects_alphanumeric_after_closer() {
    let (pieces, _) = scan_text("pay $1$x now");
    assert_eq!(pieces.len(), 1);
    assert!(is_literal(&pieces[0], "pay $1$x now"));
}

#[test]
fn scan_rejects_alphanumeric_before_opener() {
    let (pieces, _) = scan_text("x$1$ y");
    assert_eq!(pieces.len(), 1);
    assert!(is_literal(&pieces[0], "x$1$ y"));
}

#[test]
fn scan_accepts_punctuation_and_non_ascii_around() {
    let (pieces, _) = scan_text("($x$)");
    assert_eq!(pieces.len(), 3);
    assert!(is_literal(&pieces[0], "("));
    assert!(is_math(&pieces[1], "x", false));
    assert!(is_literal(&pieces[2], ")"));
    let (pieces, _) = scan_text("公式$x+y$的");
    assert_eq!(pieces.len(), 3);
    assert!(is_literal(&pieces[0], "公式"));
    assert!(is_math(&pieces[1], "x+y", false));
    assert!(is_literal(&pieces[2], "的"));
}

#[test]
fn scan_space_after_opener_is_literal() {
    let (pieces, _) = scan_text("$ x$");
    assert_eq!(pieces.len(), 1);
    assert!(is_literal(&pieces[0], "$ x$"));
}

#[test]
fn scan_block_in_one_unit() {
    let (pieces, open) = scan_text("a $$x^2$$ tail");
    assert!(open.is_none());
    assert_eq!(pieces.len(), 3);
    assert!(is_literal(&pieces[0], "a "));
    assert!(is_math(&pieces[1], "x^2", true));
    assert!(is_literal(&pieces[2], " tail"));
}

#[test]
fn scan_unterminated_block_opener() {
    let (pieces, open) = scan_text("see $$ a+b");
    assert_eq!(pieces.len(), 1);
    assert!(is_literal(&pieces[0], "see "));
    assert_eq!(open.as_deref(), Some(" a+b"));
}

#[test]
fn scan_empty_text() {
    let (pieces, open) = scan_text("");
    assert!(pieces.is_empty());
    assert!(open.is_none());
}

#[test]
fn block_math_across_text_units() {
    let events = vec![text("$$"), MdEvent::SoftBreak, text("x^2"), MdEvent::SoftBreak, text("$$")];
    let pieces = process_events(events);
    assert_eq!(pieces.len(), 1);
    assert!(is_math(&pieces[0], "\nx^2\n", true));
}

#[test]
fn block_math_closer_followed_by_text() {
    let events = vec![text("$$a"), MdEvent::HardBreak, text("b$$ then $d$")];
    let pieces = process_events(events);
    assert_eq!(pieces.len(), 3);
    assert!(is_math(&pieces[0], "a\nb", true));
    assert!(is_literal(&pieces[1], " then "));
    assert!(is_math(&pieces[2], "d", false));
}

#[test]
fn code_capture_ignores_dollars() {
    let events = vec![
        MdEvent::StartCodeBlock(Some("rust".to_string())),
        text("let a = \"$1$\";"),
        MdEvent::SoftBreak,
        MdEvent::Other(Event::Rule),
        MdEvent::EndCodeBlock,
        text("$x$"),
    ];
    let pieces = process_events(events);
    assert_eq!(pieces.len(), 2);
    assert!(matches!(&pieces[0], Piece::Code { lang: Some(l), code }
        if l == "rust" && code == "let a = \"$1$\";\n"));
    assert!(is_math(&pieces[1], "x", false));
}

#[test]
fn indented_code_block_has_no_token() {
    let events = vec![MdEvent::StartCodeBlock(None), text("x\n"), MdEvent::EndCodeBlock];
    let pieces = process_events(events);
    assert_eq!(pieces.len(), 1);
    assert!(matches!(&pieces[0], Piece::Code { lang: None, code } if code == "x\n"));
}

#[test]
fn other_events_are_forwarded() {
    let events = vec![MdEvent::Other(Event::Rule), MdEvent::SoftBreak];
    let pieces = process_events(events);
    assert_eq!(pieces.len(), 2);
    assert!(matches!(&pieces[0], Piece::Forward(MdEvent::Other(Event::Rule))));
    assert!(matches!(&pieces[1], Piece::Forward(MdEvent::SoftBreak)));
}

#[test]
fn unterminated_capture_emits_nothing() {
    let pieces = process_events(vec![text("$$ x")]);
    assert!(pieces.is_empty());
}

#[test]
fn render_math_inline_and_block() {
    let inline = render_math("E=mc^2", false);
    assert!(inline.starts_with(
        "<math xmlns=\"http://www.w3.org/1998/Math/MathML\" display=\"inline\">"
    ));
    assert!(inline.ends_with("</math>"));
    let block = render_math("E=mc^2", true);
    assert!(block.contains("display=\"block\""));
}

#[test]
fn render_math_error_fragment() {
    assert_eq!(
        render_math("\\frac{1", false),
        "<span class=\"math-error\" style=\"color:red\">Error: \\frac{1</span>"
    );
}

#[test]
fn render_math_error_is_escaped() {
    let r = render_math("\\frac{<b>&\"'", true);
    assert_eq!(
        r,
        "<span class=\"math-error\" style=\"color:red\">Error: \\frac{&lt;b&gt;&amp;&quot;&#39;</span>"
    );
    assert!(!r.contains("<math"));
}

#[test]
fn render_math_middle_is_contained() {
    let r = render_math("\\middle x", false);
    assert!(r.contains("math-error"));
    assert!(!r.contains("<math"));
}

#[test]
fn highlight_escapes_token_and_keeps_code() {
    let ss = SyntaxSet::load_defaults_newlines();
    let r = highlight_code(&ss, "a\"b", "x < y\nz");
    assert!(r.starts_with("<pre><code class=\"language-a&quot;b\">"));
    assert!(r.ends_with("</code></pre>"));
    assert!(r.contains("&lt;"));
    assert!(r.contains("z"));
}

#[test]
fn render_with_shared_syntax_set() {
    let ss = SyntaxSet::load_defaults_newlines();
    let html = render_markdown_with(&ss, "```latex\n\\frac{1}{2}\n```");
    assert!(html.contains("display=\"block\""));
    assert!(!html.contains("language-latex"));
}

#[test]
fn scan_currency_before_formula_joins_it() {
    let (pieces, _) = scan_text("Costs $5 and $x$ here.");
    assert_eq!(pieces.len(), 3);
    assert!(is_literal(&pieces[0], "Costs "));
    assert!(is_math(&pieces[1], "5 and $x", false));
    assert!(is_literal(&pieces[2], " here."));
}

#[test]
fn render_currency_and_formula() {
    let html = render_markdown("Use $x$ at $5/month.");
    assert!(html.contains("$5/month"));
    assert_eq!(html.match_indices("<math").count(), 1);
}

#[test]
fn render_empty_document() {
    assert_eq!(render_markdown(""), "");
}

fn respell(text: &str) -> String {
    let (pieces, open) = scan_text(text);
    let mut out = String::new();
    for p in &pieces {
        match p {
            Piece::Literal(t) => out.push_str(t),
            Piece::Math { latex, display: true } => out.push_str(&format!("$${}$$", latex)),
            Piece::Math { latex, display: false } => out.push_str(&format!("${}$", latex)),
            _ => panic!("the scanner emits only literal and math pieces"),
        }
    }
    if let Some(rest) = open {
        out.push_str("$$");
        out.push_str(&rest);
    }
    out
}

#[test]
fn scanner_pieces_spell_the_text() {
    for input in [
        "If $a=1$ and $b=2$, then $c=3$.",
        "The costs are $5 and $10 respectively.",
        "x$1$ y and $$a$$ then $$ open",
        "公式$x+y$的计算结果。",
        "$a$$b$",
        "$",
        "",
    ] {
        assert_eq!(respell(input), input);
    }
}

#[test]
fn render_math_middle_with_bracket_converts() {
    let r = render_math("\\left( a \\middle| b \\right)", true);
    assert!(r.starts_with("<math"));
    assert!(r.contains("display=\"block\""));
    assert!(!r.contains("math-error"));
}

#[test]
fn render_math_middle_without_operator_is_contained() {
    for latex in ["\\middle", "a \\middle {x}", "\\middle| '"] {
        let r = render_math(latex, false);
        assert!(r.contains("math-error"), "{}", latex);
    }
}

#[test]
fn render_math_escaped_backslash_before_middle_converts() {
    let r = render_math("\\\\middle x", false);
    assert!(!r.is_empty());
    let r = render_math("\\middlex", false);
    assert!(!r.is_empty());
}
