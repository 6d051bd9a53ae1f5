//! The events that the state machine reads, and the pieces that it emits.
use pulldown_cmark::Event;
use vstd::prelude::*;

verus! {

/// A parser event, opaque here: it is carried through unchanged.
#[verifier::external_type_specification]
#[verifier::external_body]
pub struct ExEvent<'a>(Event<'a>);

/// One event of the parsed document, with the variants that the state
/// machine reads spelled out and every other event carried as it came.
pub enum MdEvent {
    /// Start of a code block, with the language token of a fenced block.
    StartCodeBlock(Option<String>),
    EndCodeBlock,
    Text(String),
    SoftBreak,
    HardBreak,
    /// Markup to pass through verbatim.
    Html(String),
    Other(Event<'static>),
}

/// What the state machine emits: an event forwarded unchanged, or a region
/// still to be rendered.
pub enum Piece {
    Forward(MdEvent),
    Literal(String),
    Math { latex: String, display: bool },
    Code { lang: Option<String>, code: String },
}

pub enum PieceView {
    Forward(MdEvent),
    Literal(Seq<char>),
    Math(Seq<char>, bool),
    Code(Option<Seq<char>>, Seq<char>),
}

pub open spec fn opt_view(o: Option<String>) -> Option<Seq<char>> {
    match o {
        Some(s) => Some(s@),
        None => None,
    }
}

impl View for Piece {
    type V = PieceView;

    open spec fn view(&self) -> PieceView {
        match self {
            Piece::Forward(e) => PieceView::Forward(*e),
            Piece::Literal(s) => PieceView::Literal(s@),
            Piece::Math { latex, display } => PieceView::Math(latex@, *display),
            Piece::Code { lang, code } => PieceView::Code(opt_view(*lang), code@),
        }
    }
}

pub open spec fn views(v: Seq<Piece>) -> Seq<PieceView> {
    v.map_values(|p: Piece| p@)
}

/// Appends `p` to `out`.
pub fn push_piece(out: &mut Vec<Piece>, p: Piece)
    ensures
        views(final(out)@) == views(old(out)@).push(p@),
{
    out.push(p);
    assert(views(out@) =~= views(old(out)@).push(p@));
}

} // verus!
