//! The whole pipeline: parse, run the state machine, render the captured
//! regions, and serialise the events to HTML.
use crate::events::{views, MdEvent, Piece, PieceView};
use crate::highlight::{code_block_markup, default_syntax_set, highlight_code};
use crate::machine::{process_events, run_spec};
use crate::math::{math_markup, render_math};
use crate::text::same_text;
use pulldown_cmark::{html, CodeBlockKind, CowStr, Event, Options, Parser, Tag, TagEnd};
use syntect::parsing::SyntaxSet;
use vstd::prelude::*;

verus! {

/// The token that names a code block's language; `text` where it has none.
pub open spec fn code_token(lang: Option<Seq<char>>) -> Seq<char> {
    match lang {
        Some(l) => l,
        None => "text"@,
    }
}

/// A token that marks a code block as display math.
pub open spec fn is_math_token(t: Seq<char>) -> bool {
    t == "math"@ || t == "latex"@
}

/// `e` is what the piece `p` renders to. Where highlighting decides, any
/// highlighted body is allowed inside the block.
pub open spec fn renders_as(p: PieceView, e: MdEvent) -> bool {
    match p {
        PieceView::Forward(f) => e == f,
        PieceView::Literal(s) => e matches MdEvent::Text(t) && t@ == s,
        PieceView::Math(latex, display) => e matches MdEvent::Html(h) && h@ == math_markup(
            latex,
            display,
        ),
        PieceView::Code(lang, code) => e matches MdEvent::Html(h) && if is_math_token(
            code_token(lang),
        ) {
            h@ == math_markup(code, true)
        } else {
            exists|body: Seq<char>| h@ == code_block_markup(code_token(lang), body)
        },
    }
}

/// Renders one piece to an event: literal text as text, math and code as
/// markup. A code block marked `math` or `latex` renders as display math.
pub fn render_piece(ss: &SyntaxSet, p: Piece) -> (e: MdEvent)
    ensures
        renders_as(p@, e),
{
    match p {
        Piece::Forward(f) => f,
        Piece::Literal(s) => MdEvent::Text(s),
        Piece::Math { latex, display } => MdEvent::Html(render_math(latex.as_str(), display)),
        Piece::Code { lang, code } => {
            let token = match lang {
                Some(l) => l,
                None => {
                    let mut t = String::new();
                    t.append("text");
                    t
                },
            };
            if same_text(token.as_str(), "math") || same_text(token.as_str(), "latex") {
                MdEvent::Html(render_math(code.as_str(), true))
            } else {
                MdEvent::Html(highlight_code(ss, token.as_str(), code.as_str()))
            }
        },
    }
}

/// Runs the state machine over `events` and renders what it emits: each
/// output event is the rendering of the piece at the same place.
pub fn transform_events(ss: &SyntaxSet, events: Vec<MdEvent>) -> (out: Vec<MdEvent>)
    ensures
        out.len() == run_spec(events@).1.len(),
        forall|i: int| 0 <= i < out.len() ==> renders_as(run_spec(events@).1[i], #[trigger] out@[i]),
{
    let pieces = process_events(events);
    let ghost ps = pieces@;
    let mut out: Vec<MdEvent> = Vec::new();
    for p in it: pieces
        invariant
            it.seq() == ps,
            out.len() == it.index(),
            forall|i: int| 0 <= i < out.len() ==> renders_as(#[trigger] ps[i]@, out@[i]),
    {
        let e = render_piece(ss, p);
        out.push(e);
    }
    assert forall|i: int| 0 <= i < out.len() implies renders_as(
        run_spec(events@).1[i],
        #[trigger] out@[i],
    ) by {
        assert(views(ps)[i] == ps[i]@);
    }
    out
}

/// The events that the Markdown parser makes of a document, with tables,
/// footnotes, strikethrough and task lists enabled.
pub uninterp spec fn parsed_events(src: Seq<char>) -> Seq<MdEvent>;

/// The HTML that the serializer writes for a sequence of events.
pub uninterp spec fn html_text(evs: Seq<MdEvent>) -> Seq<char>;

/// Relies on `pulldown_cmark::Parser::new_ext` with tables, footnotes,
/// strikethrough and task lists enabled: the document's events, in order,
/// each told apart by `classify`. They depend on the document alone.
#[verifier::external_body]
fn parse_events(src: &str) -> (r: Vec<MdEvent>)
    ensures
        r@ == parsed_events(src@),
{
    let mut options = Options::empty();
    options.insert(Options::ENABLE_TABLES);
    options.insert(Options::ENABLE_FOOTNOTES);
    options.insert(Options::ENABLE_STRIKETHROUGH);
    options.insert(Options::ENABLE_TASKLISTS);
    Parser::new_ext(src, options).map(classify).collect()
}

/// Tells apart the parser's events that the state machine reads; relies on
/// `Event::into_static` to carry every other event as it came.
#[verifier::external_body]
fn classify(e: Event) -> MdEvent {
    match e {
        Event::Start(Tag::CodeBlock(CodeBlockKind::Fenced(l))) => MdEvent::StartCodeBlock(Some(l.to_string())),
        Event::Start(Tag::CodeBlock(CodeBlockKind::Indented)) => MdEvent::StartCodeBlock(None),
        Event::End(TagEnd::CodeBlock) => MdEvent::EndCodeBlock,
        Event::Text(t) => MdEvent::Text(t.to_string()),
        Event::SoftBreak => MdEvent::SoftBreak,
        Event::HardBreak => MdEvent::HardBreak,
        other => MdEvent::Other(other.into_static()),
    }
}

/// Relies on `pulldown_cmark::Event`'s variants to turn an event back into
/// the parser's type.
#[verifier::external_body]
fn to_event(e: MdEvent) -> Event<'static> {
    match e {
        MdEvent::StartCodeBlock(Some(l)) => Event::Start(Tag::CodeBlock(CodeBlockKind::Fenced(CowStr::from(l)))),
        MdEvent::StartCodeBlock(None) => Event::Start(Tag::CodeBlock(CodeBlockKind::Indented)),
        MdEvent::EndCodeBlock => Event::End(TagEnd::CodeBlock),
        MdEvent::Text(t) => Event::Text(CowStr::from(t)),
        MdEvent::SoftBreak => Event::SoftBreak,
        MdEvent::HardBreak => Event::HardBreak,
        MdEvent::Html(h) => Event::Html(CowStr::from(h)),
        MdEvent::Other(o) => o,
    }
}

/// Relies on `pulldown_cmark::html::push_html`: the HTML of the events,
/// each turned back by `to_event`. It depends on the events alone.
#[verifier::external_body]
fn html_of(events: Vec<MdEvent>) -> (r: String)
    ensures
        r@ == html_text(events@),
{
    let mut s = String::new();
    html::push_html(&mut s, events.into_iter().map(to_event));
    s
}

/// The document's HTML is the serialization of events that render, one for
/// one and in order, the pieces that the state machine emits for the
/// parser's events.
pub open spec fn renders_document(src: Seq<char>, html: Seq<char>) -> bool {
    exists|out: Seq<MdEvent>|
        #![trigger html_text(out)]
        {
            let pieces = run_spec(parsed_events(src)).1;
            &&& out.len() == pieces.len()
            &&& forall|i: int| 0 <= i < out.len() ==> renders_as(pieces[i], #[trigger] out[i])
            &&& html == html_text(out)
        }
}

/// Renders a Markdown document to HTML with the given syntax definitions.
/// It never fails: a formula that does not convert becomes an error
/// fragment, and an unknown language token is highlighted as plain text.
pub fn render_markdown_with(ss: &SyntaxSet, markdown_input: &str) -> (r: String)
    ensures
        renders_document(markdown_input@, r@),
{
    let events = parse_events(markdown_input);
    let rendered = transform_events(ss, events);
    let r = html_of(rendered);
    assert(html_text(rendered@) == r@);
    r
}

/// Renders a Markdown document to HTML with syntect's bundled syntax
/// definitions.
pub fn render_markdown(markdown_input: &str) -> (r: String)
    ensures
        renders_document(markdown_input@, r@),
{
    let ss = default_syntax_set();
    render_markdown_with(&ss, markdown_input)
}

} // verus!
