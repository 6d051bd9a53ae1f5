//! Splits one text unit into literal text and math spans.
//!
//! `$$...$$` within the unit is block math; an opening `$$` with no closer
//! in the unit hands the rest of the unit over to a block capture. A single
//! `$` opens inline math when a non-space follows and a closing `$` exists
//! (not part of `$$`, not after a space), and the span is accepted only when
//! the characters around it pass the boundary rules, which keep amounts such
//! as `$5/month` literal.
use crate::events::{push_piece, views, Piece, PieceView};
use crate::text::{
    chars_of, is_alphanumeric_ascii, is_ascii, is_ascii_alnum, is_ascii_char, is_white_space,
    is_whitespace, string_of,
};
use vstd::prelude::*;

verus! {

/// `s[k]` and `s[k + 1]` form the block delimiter `$$`.
pub open spec fn pair_at(s: Seq<char>, k: int) -> bool {
    0 <= k && k + 1 < s.len() && s[k] == '$' && s[k + 1] == '$'
}

/// The first `$$` that starts at `k` or later.
pub open spec fn first_pair(s: Seq<char>, k: int) -> Option<int>
    decreases s.len() - k,
{
    if k < 0 || k + 1 >= s.len() {
        None
    } else if pair_at(s, k) {
        Some(k)
    } else {
        first_pair(s, k + 1)
    }
}

/// `s[j]` can close an inline span: a `$` not followed by another `$` and
/// not preceded by white space.
pub open spec fn closes_inline(s: Seq<char>, j: int) -> bool {
    &&& 1 <= j < s.len()
    &&& s[j] == '$'
    &&& !(j + 1 < s.len() && s[j + 1] == '$')
    &&& !is_white_space(s[j - 1])
}

/// The first inline closer at `k` or later.
pub open spec fn first_closer(s: Seq<char>, k: int) -> Option<int>
    decreases s.len() - k,
{
    if k < 1 || k >= s.len() {
        None
    } else if closes_inline(s, k) {
        Some(k)
    } else {
        first_closer(s, k + 1)
    }
}

/// `s[i]` is a `$` followed by a character that is not white space.
pub open spec fn opens_inline(s: Seq<char>, i: int) -> bool {
    0 <= i && i + 1 < s.len() && s[i] == '$' && !is_white_space(s[i + 1])
}

/// The punctuation that may directly follow a closing `$`.
pub open spec fn is_closing_punct(c: char) -> bool {
    c == '.' || c == ',' || c == ';' || c == ':' || c == '!' || c == '?' || c == ')' || c == ']'
        || c == '}' || c == '"' || c == '\'' || c == '/'
}

/// What precedes the opening `$` at `i` allows a formula.
pub open spec fn before_ok(s: Seq<char>, i: int) -> bool {
    ||| i == 0
    ||| is_white_space(s[i - 1])
    ||| !is_ascii_alnum(s[i - 1])
    ||| !is_ascii_char(s[i - 1])
}

/// What follows the closing `$` at `c` allows a formula.
pub open spec fn after_ok(s: Seq<char>, c: int) -> bool {
    ||| c + 1 == s.len()
    ||| is_white_space(s[c + 1])
    ||| is_closing_punct(s[c + 1])
    ||| !is_ascii_char(s[c + 1])
}

/// `s[a..b]` as a literal piece, or nothing when it is empty.
pub open spec fn literal(s: Seq<char>, a: int, b: int) -> Seq<PieceView> {
    if a < b {
        seq![PieceView::Literal(s.subrange(a, b))]
    } else {
        seq![]
    }
}

/// The pieces of `s` from position `i` on, where the literal text pending
/// since `last` has not been emitted yet; and the content after an opening
/// `$$` that has no closer in `s`, if one is met.
pub open spec fn scan_from(s: Seq<char>, last: int, i: int) -> (Seq<PieceView>, Option<Seq<char>>)
    decreases s.len() - i via scan_from_decreases
{
    if i < 0 || i >= s.len() {
        (literal(s, last, s.len() as int), None)
    } else if pair_at(s, i) {
        match first_pair(s, i + 2) {
            Some(e) => {
                let rest = scan_from(s, e + 2, e + 2);
                (literal(s, last, i) + seq![PieceView::Math(s.subrange(i + 2, e), true)] + rest.0, rest.1)
            },
            None => (literal(s, last, i), Some(s.subrange(i + 2, s.len() as int))),
        }
    } else if opens_inline(s, i) && first_closer(s, i + 1) is Some {
        let c = first_closer(s, i + 1)->0;
        if before_ok(s, i) && after_ok(s, c) {
            let rest = scan_from(s, c + 1, c + 1);
            (literal(s, last, i) + seq![PieceView::Math(s.subrange(i + 1, c), false)] + rest.0, rest.1)
        } else {
            scan_from(s, last, c + 1)
        }
    } else {
        scan_from(s, last, i + 1)
    }
}

#[via_fn]
proof fn scan_from_decreases(s: Seq<char>, last: int, i: int) {
    lemma_first_pair_bounds(s, i + 2);
    lemma_first_closer_bounds(s, i + 1);
}

/// The pieces of the text unit `s`, and the start of an unterminated block.
pub open spec fn scan_spec(s: Seq<char>) -> (Seq<PieceView>, Option<Seq<char>>) {
    scan_from(s, 0, 0)
}

/// A `$$` found from `k` on starts at `k` or later.
pub proof fn lemma_first_pair_bounds(s: Seq<char>, k: int)
    ensures
        first_pair(s, k) matches Some(j) ==> k <= j && pair_at(s, j),
    decreases s.len() - k,
{
    if !(k < 0 || k + 1 >= s.len()) && !pair_at(s, k) {
        lemma_first_pair_bounds(s, k + 1);
    }
}

/// An inline closer found from `k` on stands at `k` or later.
proof fn lemma_first_closer_bounds(s: Seq<char>, k: int)
    ensures
        first_closer(s, k) matches Some(j) ==> k <= j && closes_inline(s, j),
    decreases s.len() - k,
{
    if !(k < 1 || k >= s.len()) && !closes_inline(s, k) {
        lemma_first_closer_bounds(s, k + 1);
    }
}

/// The source text of a piece: a literal as it is, a formula between its
/// delimiters.
pub open spec fn source_of(p: PieceView) -> Seq<char> {
    match p {
        PieceView::Literal(t) => t,
        PieceView::Math(latex, true) => seq!['$', '$'] + latex + seq!['$', '$'],
        PieceView::Math(latex, false) => seq!['$'] + latex + seq!['$'],
        _ => seq![],
    }
}

/// The source text of a sequence of pieces.
pub open spec fn source_of_all(ps: Seq<PieceView>) -> Seq<char>
    decreases ps.len(),
{
    if ps.len() == 0 {
        seq![]
    } else {
        source_of(ps[0]) + source_of_all(ps.drop_first())
    }
}

/// The source text of an unterminated block: its opener and what follows.
pub open spec fn source_of_open(o: Option<Seq<char>>) -> Seq<char> {
    match o {
        Some(r) => seq!['$', '$'] + r,
        None => seq![],
    }
}

proof fn lemma_source_concat(a: Seq<PieceView>, b: Seq<PieceView>)
    ensures
        source_of_all(a + b) == source_of_all(a) + source_of_all(b),
    decreases a.len(),
{
    if a.len() == 0 {
        assert(a + b =~= b);
    } else {
        lemma_source_concat(a.drop_first(), b);
        assert((a + b).drop_first() =~= a.drop_first() + b);
        assert(source_of_all(a + b) =~= source_of_all(a) + source_of_all(b));
    }
}

proof fn lemma_source_literal(s: Seq<char>, a: int, b: int)
    requires
        0 <= a <= b <= s.len(),
    ensures
        source_of_all(literal(s, a, b)) == s.subrange(a, b),
{
    if a < b {
        let l = literal(s, a, b);
        assert(l.drop_first() =~= Seq::<PieceView>::empty());
        assert(source_of_all(l.drop_first()) == Seq::<char>::empty());
        assert(source_of(l[0]) == s.subrange(a, b));
        assert(source_of_all(l) =~= s.subrange(a, b));
    } else {
        assert(s.subrange(a, b) =~= Seq::<char>::empty());
    }
}

proof fn lemma_scan_from_spells(s: Seq<char>, last: int, i: int)
    requires
        0 <= last <= i <= s.len(),
    ensures
        source_of_all(scan_from(s, last, i).0) + source_of_open(scan_from(s, last, i).1)
            == s.subrange(last, s.len() as int),
    decreases s.len() - i,
{
    let n = s.len() as int;
    lemma_source_literal(s, last, i);
    if i >= n {
        lemma_source_literal(s, last, n);
        assert(source_of_all(literal(s, last, n)) + source_of_open(None) =~= s.subrange(last, n));
    } else if pair_at(s, i) {
        lemma_first_pair_bounds(s, i + 2);
        match first_pair(s, i + 2) {
            Some(e) => {
                let m = seq![PieceView::Math(s.subrange(i + 2, e), true)];
                let rest = scan_from(s, e + 2, e + 2);
                lemma_scan_from_spells(s, e + 2, e + 2);
                lemma_source_concat(literal(s, last, i), m);
                lemma_source_concat(literal(s, last, i) + m, rest.0);
                assert(m.drop_first() =~= Seq::<PieceView>::empty());
                assert(source_of_all(m.drop_first()) == Seq::<char>::empty());
                assert(source_of_all(m) =~= seq!['$', '$'] + s.subrange(i + 2, e) + seq!['$', '$']);
                assert(scan_from(s, last, i).0 == literal(s, last, i) + m + rest.0);
                assert(s.subrange(last, n) =~= s.subrange(last, i) + (seq!['$', '$'] + s.subrange(
                    i + 2,
                    e,
                ) + seq!['$', '$']) + s.subrange(e + 2, n));
                assert(source_of_all(scan_from(s, last, i).0) + source_of_open(scan_from(s, last, i).1)
                    =~= s.subrange(last, n));
            },
            None => {
                lemma_source_literal(s, last, i);
                assert(s.subrange(last, n) =~= s.subrange(last, i) + (seq!['$', '$'] + s.subrange(
                    i + 2,
                    n,
                )));
                assert(source_of_all(scan_from(s, last, i).0) + source_of_open(scan_from(s, last, i).1)
                    =~= s.subrange(last, n));
            },
        }
    } else if opens_inline(s, i) && first_closer(s, i + 1) is Some {
        lemma_first_closer_bounds(s, i + 1);
        let c = first_closer(s, i + 1)->0;
        if before_ok(s, i) && after_ok(s, c) {
            let m = seq![PieceView::Math(s.subrange(i + 1, c), false)];
            let rest = scan_from(s, c + 1, c + 1);
            lemma_scan_from_spells(s, c + 1, c + 1);
            lemma_source_concat(literal(s, last, i), m);
            lemma_source_concat(literal(s, last, i) + m, rest.0);
            assert(m.drop_first() =~= Seq::<PieceView>::empty());
            assert(source_of_all(m.drop_first()) == Seq::<char>::empty());
            assert(source_of_all(m) =~= seq!['$'] + s.subrange(i + 1, c) + seq!['$']);
            assert(scan_from(s, last, i).0 == literal(s, last, i) + m + rest.0);
            assert(s.subrange(last, n) =~= s.subrange(last, i) + (seq!['$'] + s.subrange(i + 1, c)
                + seq!['$']) + s.subrange(c + 1, n));
            assert(source_of_all(scan_from(s, last, i).0) + source_of_open(scan_from(s, last, i).1)
                =~= s.subrange(last, n));
        } else {
            lemma_scan_from_spells(s, last, c + 1);
        }
    } else {
        lemma_scan_from_spells(s, last, i + 1);
    }
}

/// The scanner loses and adds no character: the literal pieces, each
/// formula between its delimiters, and an unterminated block after its
/// opener, spell the text unit again in order.
pub proof fn lemma_scan_spells_text(s: Seq<char>)
    ensures
        source_of_all(scan_spec(s).0) + source_of_open(scan_spec(s).1) == s,
{
    lemma_scan_from_spells(s, 0, 0);
    assert(s.subrange(0, s.len() as int) =~= s);
}

/// The first `$$` in `v` that starts at `k` or later.
pub(crate) fn find_pair(v: &Vec<char>, k: usize) -> (r: Option<usize>)
    ensures
        match r {
            Some(j) => first_pair(v@, k as int) == Some(j as int),
            None => first_pair(v@, k as int) is None,
        },
{
    let n = v.len();
    let mut j = k;
    while j < n
        invariant
            n == v.len(),
            k <= j,
            first_pair(v@, k as int) == first_pair(v@, j as int),
        decreases n - j,
    {
        if v[j] == '$' && j + 1 < n && v[j + 1] == '$' {
            return Some(j);
        }
        j = j + 1;
    }
    None
}

/// The first inline closer in `v` at `k` or later.
fn find_closer(v: &Vec<char>, k: usize) -> (r: Option<usize>)
    requires
        k >= 1,
    ensures
        match r {
            Some(j) => first_closer(v@, k as int) == Some(j as int),
            None => first_closer(v@, k as int) is None,
        },
{
    let n = v.len();
    let mut j = k;
    while j < n
        invariant
            n == v.len(),
            1 <= k <= j,
            first_closer(v@, k as int) == first_closer(v@, j as int),
        decreases n - j,
    {
        if v[j] == '$' && !(j + 1 < n && v[j + 1] == '$') && !is_whitespace(v[j - 1]) {
            return Some(j);
        }
        j = j + 1;
    }
    None
}

fn is_closing_punctuation(c: char) -> (r: bool)
    ensures
        r == is_closing_punct(c),
{
    c == '.' || c == ',' || c == ';' || c == ':' || c == '!' || c == '?' || c == ')' || c == ']'
        || c == '}' || c == '"' || c == '\'' || c == '/'
}

fn push_literal(out: &mut Vec<Piece>, v: &Vec<char>, a: usize, b: usize)
    requires
        a <= b <= v.len(),
    ensures
        views(final(out)@) == views(old(out)@) + literal(v@, a as int, b as int),
{
    if a < b {
        push_piece(out, Piece::Literal(string_of(v, a, b)));
    } else {
        assert(views(out@) + literal(v@, a as int, b as int) =~= views(out@));
    }
}

/// Appends the pieces of the text unit `text` to `out`. The result is the
/// content after an opening `$$` that has no closer in `text`, which
/// continues in later text units.
pub(crate) fn scan_into(text: &str, out: &mut Vec<Piece>) -> (r: Option<String>)
    ensures
        views(final(out)@) == views(old(out)@) + scan_spec(text@).0,
        match r {
            Some(rest) => scan_spec(text@).1 == Some(rest@),
            None => scan_spec(text@).1 is None,
        },
{
    let v = chars_of(text);
    let ghost s = text@;
    let ghost start = views(out@);
    let n = v.len();
    let mut last: usize = 0;
    let mut i: usize = 0;
    while i < n
        invariant
            v@ == s,
            s == text@,
            start == views(old(out)@),
            n == s.len(),
            last <= i <= n,
            start + scan_spec(s).0 == views(out@) + scan_from(s, last as int, i as int).0,
            scan_spec(s).1 == scan_from(s, last as int, i as int).1,
        decreases n - i,
    {
        if v[i] == '$' && i + 1 < n && v[i + 1] == '$' {
            let ghost old_out = views(out@);
            push_literal(out, &v, last, i);
            match find_pair(&v, i + 2) {
                Some(e) => {
                    proof {
                        lemma_first_pair_bounds(s, i + 2);
                    }
                    push_piece(out, Piece::Math { latex: string_of(&v, i + 2, e), display: true });
                    assert(views(out@) + scan_from(s, e + 2, e + 2).0 =~= old_out + scan_from(
                        s,
                        last as int,
                        i as int,
                    ).0);
                    last = e + 2;
                    i = e + 2;
                },
                None => {
                    let rest = string_of(&v, i + 2, n);
                    assert(pair_at(s, i as int));
                    assert(scan_from(s, last as int, i as int) == (
                        literal(s, last as int, i as int),
                        Some(s.subrange(i + 2, n as int)),
                    ));
                    assert(views(out@) =~= start + scan_spec(s).0);
                    return Some(rest);
                },
            }
        } else if v[i] == '$' && i + 1 < n && !is_whitespace(v[i + 1]) {
            match find_closer(&v, i + 1) {
                Some(c) => {
                    proof {
                        lemma_first_closer_bounds(s, i + 1);
                    }
                    let before = i == 0 || is_whitespace(v[i - 1]) || !is_alphanumeric_ascii(v[i - 1])
                        || !is_ascii(v[i - 1]);
                    let after = c + 1 == n || is_whitespace(v[c + 1]) || is_closing_punctuation(
                        v[c + 1],
                    ) || !is_ascii(v[c + 1]);
                    if before && after {
                        let ghost old_out = views(out@);
                        push_literal(out, &v, last, i);
                        push_piece(out, Piece::Math { latex: string_of(&v, i + 1, c), display: false });
                        assert(views(out@) + scan_from(s, c + 1, c + 1).0 =~= old_out + scan_from(
                            s,
                            last as int,
                            i as int,
                        ).0);
                        last = c + 1;
                    }
                    i = c + 1;
                },
                None => {
                    i = i + 1;
                },
            }
        } else {
            i = i + 1;
        }
    }
    push_literal(out, &v, last, n);
    assert(views(out@) =~= start + scan_spec(s).0);
    None
}

/// Splits the text unit `text` into literal and math pieces. The second
/// result is the content after an opening `$$` that has no closer in
/// `text`, which continues in later text units.
pub fn scan_text(text: &str) -> (r: (Vec<Piece>, Option<String>))
    ensures
        views(r.0@) == scan_spec(text@).0,
        match r.1 {
            Some(rest) => scan_spec(text@).1 == Some(rest@),
            None => scan_spec(text@).1 is None,
        },
{
    let mut out: Vec<Piece> = Vec::new();
    let open = scan_into(text, &mut out);
    assert(views(out@) =~= scan_spec(text@).0);
    (out, open)
}

} // verus!
