//! The event-stream state machine.
//!
//! It reads the parser's events one by one in one of three modes: normal,
//! capturing a code block, or capturing a block of display math that spans
//! several text units. Captured text is buffered until the mode ends and is
//! then emitted as one piece. A capture still open when the events run out
//! emits nothing.
use crate::events::{opt_view, push_piece, views, MdEvent, Piece, PieceView};
use crate::scanner::{
    find_pair, first_pair, lemma_first_pair_bounds, literal, scan_from, scan_into, scan_spec,
};
use crate::text::{chars_of, string_of};
use vstd::prelude::*;

verus! {

/// The capture mode, with the buffer that belongs to it.
pub enum Mode {
    Normal,
    CapturingCode { lang: Option<String>, buffer: String },
    CapturingDisplayMath { buffer: String },
}

pub enum ModeView {
    Normal,
    Code(Option<Seq<char>>, Seq<char>),
    DisplayMath(Seq<char>),
}

impl View for Mode {
    type V = ModeView;

    open spec fn view(&self) -> ModeView {
        match self {
            Mode::Normal => ModeView::Normal,
            Mode::CapturingCode { lang, buffer } => ModeView::Code(opt_view(*lang), buffer@),
            Mode::CapturingDisplayMath { buffer } => ModeView::DisplayMath(buffer@),
        }
    }
}

/// The mode and pieces after scanning a text unit in normal mode.
pub open spec fn after_scan(r: (Seq<PieceView>, Option<Seq<char>>)) -> (ModeView, Seq<PieceView>) {
    match r.1 {
        Some(b) => (ModeView::DisplayMath(b), r.0),
        None => (ModeView::Normal, r.0),
    }
}

/// One event read in mode `m`: the next mode and the pieces emitted.
pub open spec fn step_spec(m: ModeView, e: MdEvent) -> (ModeView, Seq<PieceView>) {
    match m {
        ModeView::Code(lang, buf) => match e {
            MdEvent::Text(t) => (ModeView::Code(lang, buf + t@), seq![]),
            MdEvent::SoftBreak | MdEvent::HardBreak => (ModeView::Code(lang, buf.push('\n')), seq![]),
            MdEvent::EndCodeBlock => (ModeView::Normal, seq![PieceView::Code(lang, buf)]),
            _ => (m, seq![]),
        },
        ModeView::DisplayMath(buf) => match e {
            MdEvent::Text(t) => match first_pair(t@, 0) {
                Some(k) => {
                    let r = after_scan(scan_spec(t@.subrange(k + 2, t@.len() as int)));
                    (r.0, seq![PieceView::Math(buf + t@.subrange(0, k), true)] + r.1)
                },
                None => (ModeView::DisplayMath(buf + t@), seq![]),
            },
            MdEvent::SoftBreak | MdEvent::HardBreak => (ModeView::DisplayMath(buf.push('\n')), seq![]),
            _ => (m, seq![]),
        },
        ModeView::Normal => match e {
            MdEvent::StartCodeBlock(lang) => (ModeView::Code(opt_view(lang), seq![]), seq![]),
            MdEvent::Text(t) => after_scan(scan_spec(t@)),
            _ => (ModeView::Normal, seq![PieceView::Forward(e)]),
        },
    }
}

/// The mode after reading `evs` from normal mode, and the pieces emitted.
pub open spec fn run_spec(evs: Seq<MdEvent>) -> (ModeView, Seq<PieceView>)
    decreases evs.len(),
{
    if evs.len() == 0 {
        (ModeView::Normal, seq![])
    } else {
        let prev = run_spec(evs.drop_last());
        let next = step_spec(prev.0, evs.last());
        (next.0, prev.1 + next.1)
    }
}

/// Scans `text` in normal mode, appending its pieces to `out`.
fn scan_normal(text: &str, out: &mut Vec<Piece>) -> (m: Mode)
    ensures
        m@ == after_scan(scan_spec(text@)).0,
        views(final(out)@) == views(old(out)@) + after_scan(scan_spec(text@)).1,
{
    match scan_into(text, out) {
        Some(b) => Mode::CapturingDisplayMath { buffer: b },
        None => Mode::Normal,
    }
}

/// Reads the event `e` in mode `m`, appends what it emits to `out`, and
/// returns the next mode.
pub fn step(m: Mode, e: MdEvent, out: &mut Vec<Piece>) -> (r: Mode)
    ensures
        r@ == step_spec(m@, e).0,
        views(final(out)@) == views(old(out)@) + step_spec(m@, e).1,
{
    match m {
        Mode::CapturingCode { lang, buffer } => {
            let mut buffer = buffer;
            match e {
                MdEvent::Text(t) => {
                    buffer.append(t.as_str());
                    Mode::CapturingCode { lang, buffer }
                },
                MdEvent::SoftBreak | MdEvent::HardBreak => {
                    buffer.push('\n');
                    Mode::CapturingCode { lang, buffer }
                },
                MdEvent::EndCodeBlock => {
                    push_piece(out, Piece::Code { lang, code: buffer });
                    Mode::Normal
                },
                _ => {
                    Mode::CapturingCode { lang, buffer }
                },
            }
        },
        Mode::CapturingDisplayMath { buffer } => {
            let mut buffer = buffer;
            match e {
                MdEvent::Text(t) => {
                    let v = chars_of(t.as_str());
                    match find_pair(&v, 0) {
                        Some(k) => {
                            proof {
                                lemma_first_pair_bounds(t@, 0);
                            }
                            let head = string_of(&v, 0, k);
                            buffer.append(head.as_str());
                            push_piece(out, Piece::Math { latex: buffer, display: true });
                            let rest = string_of(&v, k + 2, v.len());
                            let r = scan_normal(rest.as_str(), out);
                            assert(views(out@) =~= views(old(out)@) + step_spec(m@, e).1);
                            r
                        },
                        None => {
                            buffer.append(t.as_str());
                            Mode::CapturingDisplayMath { buffer }
                        },
                    }
                },
                MdEvent::SoftBreak | MdEvent::HardBreak => {
                    buffer.push('\n');
                    Mode::CapturingDisplayMath { buffer }
                },
                _ => {
                    Mode::CapturingDisplayMath { buffer }
                },
            }
        },
        Mode::Normal => match e {
            MdEvent::StartCodeBlock(lang) => {
                Mode::CapturingCode { lang, buffer: String::new() }
            },
            MdEvent::Text(t) => scan_normal(t.as_str(), out),
            other => {
                push_piece(out, Piece::Forward(other));
                Mode::Normal
            },
        },
    }
}

/// Runs the state machine over `events` from normal mode and returns what
/// it emits, in order.
pub fn process_events(events: Vec<MdEvent>) -> (out: Vec<Piece>)
    ensures
        views(out@) == run_spec(events@).1,
{
    let ghost evs = events@;
    let mut out: Vec<Piece> = Vec::new();
    let mut mode = Mode::Normal;
    for e in it: events
        invariant
            it.seq() == evs,
            mode@ == run_spec(evs.take(it.index() as int)).0,
            views(out@) == run_spec(evs.take(it.index() as int)).1,
    {
        proof {
            assert(evs.take(it.index() + 1).drop_last() =~= evs.take(it.index() as int));
        }
        mode = step(mode, e, &mut out);
    }
    assert(evs.take(evs.len() as int) =~= evs);
    out
}

/// The text that a code block's events add to its buffer: text as it is,
/// a line break as a newline, and nothing for any other event.
pub open spec fn code_text(evs: Seq<MdEvent>) -> Seq<char>
    decreases evs.len(),
{
    if evs.len() == 0 {
        seq![]
    } else {
        code_text(evs.drop_last()) + match evs.last() {
            MdEvent::Text(t) => t@,
            MdEvent::SoftBreak | MdEvent::HardBreak => seq!['\n'],
            _ => seq![],
        }
    }
}

proof fn lemma_code_capture_prefix(
    prefix: Seq<MdEvent>,
    lang: Option<String>,
    body: Seq<MdEvent>,
    k: int,
)
    requires
        run_spec(prefix).0 == ModeView::Normal,
        forall|i: int| 0 <= i < body.len() ==> !(#[trigger] body[i] is EndCodeBlock),
        0 <= k <= body.len(),
    ensures
        run_spec(prefix + seq![MdEvent::StartCodeBlock(lang)] + body.take(k)) == (
            ModeView::Code(opt_view(lang), code_text(body.take(k))),
            run_spec(prefix).1,
        ),
    decreases k,
{
    let start = prefix + seq![MdEvent::StartCodeBlock(lang)];
    if k == 0 {
        assert(start + body.take(0) =~= start);
        assert(start.drop_last() =~= prefix);
        assert(run_spec(prefix).1 + seq![] =~= run_spec(prefix).1);
        assert(code_text(body.take(0)) =~= seq![]);
    } else {
        lemma_code_capture_prefix(prefix, lang, body, k - 1);
        assert((start + body.take(k)).drop_last() =~= start + body.take(k - 1));
        assert(body.take(k).drop_last() =~= body.take(k - 1));
        assert((start + body.take(k)).last() == body[k - 1]);
        assert(body.take(k).last() == body[k - 1]);
        let prev = run_spec(prefix).1;
        assert(prev + seq![] =~= prev);
        let m = body[k - 1];
        assert(!(m is EndCodeBlock));
        match m {
            MdEvent::Text(t) => {},
            MdEvent::SoftBreak | MdEvent::HardBreak => {
                assert(code_text(body.take(k - 1)).push('\n') =~= code_text(body.take(k - 1))
                    + seq!['\n']);
            },
            _ => {
                assert(code_text(body.take(k - 1)) + seq![] =~= code_text(body.take(k - 1)));
            },
        }
    }
}

/// Code capture comes first: from normal mode, a code block's start, any
/// events without an end of block, and its end emit exactly one code piece
/// holding the block's text, whatever `$` it contains, and return to normal
/// mode.
pub proof fn lemma_code_block_captured(
    prefix: Seq<MdEvent>,
    lang: Option<String>,
    body: Seq<MdEvent>,
)
    requires
        run_spec(prefix).0 == ModeView::Normal,
        forall|i: int| 0 <= i < body.len() ==> !(#[trigger] body[i] is EndCodeBlock),
    ensures
        run_spec(prefix + seq![MdEvent::StartCodeBlock(lang)] + body + seq![MdEvent::EndCodeBlock])
            == (
            ModeView::Normal,
            run_spec(prefix).1 + seq![PieceView::Code(opt_view(lang), code_text(body))],
        ),
{
    lemma_code_capture_prefix(prefix, lang, body, body.len() as int);
    let start = prefix + seq![MdEvent::StartCodeBlock(lang)];
    let all = start + body + seq![MdEvent::EndCodeBlock];
    assert(body.take(body.len() as int) =~= body);
    assert(all.drop_last() =~= start + body.take(body.len() as int));
}

/// A block of display math whose opening and closing `$$` stand alone on
/// the lines around the formula, so that the parser delivers them as
/// separate text units, is still emitted as one block formula: the formula
/// with the two line breaks around it.
pub proof fn lemma_block_math_across_units(open: String, formula: String, close: String)
    requires
        open@ == "$$"@,
        close@ == "$$"@,
        first_pair(formula@, 0) is None,
    ensures
        run_spec(
            seq![
                MdEvent::Text(open),
                MdEvent::SoftBreak,
                MdEvent::Text(formula),
                MdEvent::SoftBreak,
                MdEvent::Text(close),
            ],
        ) == (ModeView::Normal, seq![
            PieceView::Math(seq!['\n'] + formula@ + seq!['\n'], true),
        ]),
{
    reveal_strlit("$$");
    let evs = seq![
        MdEvent::Text(open),
        MdEvent::SoftBreak,
        MdEvent::Text(formula),
        MdEvent::SoftBreak,
        MdEvent::Text(close),
    ];
    let d = "$$"@;
    assert(first_pair(d, 2) is None);
    assert(scan_from(d, 0, 0) == (literal(d, 0, 0), Some(d.subrange(2, 2))));
    assert(first_pair(d, 0) == Some(0int));
    let empty = d.subrange(2, 2);
    assert(empty.len() == 0);
    assert(scan_spec(empty) == (literal(empty, 0, 0), None::<Seq<char>>));
    let buf = seq!['\n'] + formula@ + seq!['\n'];
    assert(evs.take(1).drop_last() =~= evs.take(0));
    assert(evs.take(2).drop_last() =~= evs.take(1));
    assert(evs.take(3).drop_last() =~= evs.take(2));
    assert(evs.take(4).drop_last() =~= evs.take(3));
    assert(evs.drop_last() =~= evs.take(4));
    assert(literal(d, 0, 0) =~= Seq::<PieceView>::empty());
    assert(literal(empty, 0, 0) =~= Seq::<PieceView>::empty());
    assert(evs.take(0).len() == 0);
    assert(evs.take(1).last() == MdEvent::Text(open));
    assert(run_spec(evs.take(0)).0 == ModeView::Normal);
    assert(run_spec(evs.take(0)).1 =~= Seq::<PieceView>::empty());
    assert(scan_spec(open@).1 == Some(empty));
    assert(step_spec(ModeView::Normal, MdEvent::Text(open)).0 == ModeView::DisplayMath(empty));
    assert(run_spec(evs.take(1)).0 == ModeView::DisplayMath(empty));
    assert(run_spec(evs.take(1)).1 =~= Seq::<PieceView>::empty());
    assert(seq!['\n'] =~= empty.push('\n'));
    assert(run_spec(evs.take(2)).0 == ModeView::DisplayMath(seq!['\n']));
    assert(run_spec(evs.take(2)).1 =~= Seq::<PieceView>::empty());
    assert(run_spec(evs.take(3)).0 == ModeView::DisplayMath(seq!['\n'] + formula@));
    assert(run_spec(evs.take(3)).1 =~= Seq::<PieceView>::empty());
    assert(buf =~= (seq!['\n'] + formula@).push('\n'));
    assert(run_spec(evs.take(4)).0 == ModeView::DisplayMath(buf));
    assert(run_spec(evs.take(4)).1 =~= Seq::<PieceView>::empty());
    assert(buf + close@.subrange(0, 0) =~= buf);
    assert(run_spec(evs).1 =~= seq![PieceView::Math(buf, true)]);
}

} // verus!
