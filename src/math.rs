//! Rendering of LaTeX formulas to MathML, with failures contained.
//!
//! A formula that the converter rejects becomes a visible error fragment
//! holding the escaped source, so one bad formula never stops the rest of
//! the document.
use crate::text::{chars_of, escape, escape_html};
use latex2mathml::{latex_to_mathml, DisplayStyle, LatexError};
use vstd::prelude::*;

verus! {

/// The converter's error, opaque here.
#[verifier::external_type_specification]
#[verifier::external_body]
pub struct ExLatexError(LatexError);

/// The MathML that `latex2mathml` makes of a formula's content, placed
/// inside the `<math>` element; `None` where it rejects the formula.
pub uninterp spec fn latex_conversion(latex: Seq<char>) -> Option<Seq<char>>;

/// The `display` attribute's value for a block or an inline formula.
pub open spec fn display_name(display: bool) -> Seq<char> {
    if display {
        "block"@
    } else {
        "inline"@
    }
}

/// The `<math>` element around converted content.
pub open spec fn math_element(display: bool, body: Seq<char>) -> Seq<char> {
    "<math xmlns=\"http://www.w3.org/1998/Math/MathML\" display=\""@ + display_name(display)
        + "\">"@ + body + "</math>"@
}

/// The characters that the converter's lexer skips between tokens.
pub open spec fn is_lexer_blank(c: char) -> bool {
    c == ' ' || c == '\t' || c == '\n' || c == '\r'
}

/// The first position at `p` or later that the lexer does not skip.
pub open spec fn skip_blanks(s: Seq<char>, p: int) -> int
    decreases s.len() - p,
{
    if 0 <= p < s.len() && is_lexer_blank(s[p]) {
        skip_blanks(s, p + 1)
    } else {
        p
    }
}

/// The backslash at `k` starts a command: it is not the character that a
/// command started by the backslash before it takes as its name.
pub open spec fn starts_command(s: Seq<char>, k: int) -> bool
    decreases k,
{
    0 <= k < s.len() && s[k] == '\\' && (k == 0 || !starts_command(s, k - 1))
}

/// The characters that the lexer reads, alone, as an operator or a bracket.
pub open spec fn is_single_operator(c: char) -> bool {
    c == '=' || c == ';' || c == ',' || c == '.' || c == '\'' || c == '(' || c == ')' || c == '['
        || c == ']' || c == '|' || c == '+' || c == '-' || c == '*' || c == '/' || c == '!'
        || c == '<' || c == '>'
}

/// The command `\middle` starts at `k`.
pub open spec fn middle_at(s: Seq<char>, k: int) -> bool {
    &&& starts_command(s, k)
    &&& k + 7 <= s.len()
    &&& s[k + 1] == 'm'
    &&& s[k + 2] == 'i'
    &&& s[k + 3] == 'd'
    &&& s[k + 4] == 'd'
    &&& s[k + 5] == 'l'
    &&& s[k + 6] == 'e'
    &&& !(k + 7 < s.len() && (('a' <= s[k + 7] && s[k + 7] <= 'z') || ('A' <= s[k + 7] && s[k
        + 7] <= 'Z')))
}

/// The `\middle` at `k` may reach the converter's `unimplemented!()`: it is
/// not followed by a one-character operator or bracket, or that one is
/// followed by a prime. A command after `\middle` counts here too: which
/// commands the converter reads as operators takes its whole table.
pub open spec fn middle_fails_at(s: Seq<char>, k: int) -> bool {
    &&& middle_at(s, k)
    &&& {
        let q = skip_blanks(s, k + 7);
        let r = skip_blanks(s, q + 1);
        !(q < s.len() && is_single_operator(s[q])) || (r < s.len() && s[r] == '\'')
    }
}

/// `s` holds a `\middle` on which the converter may panic.
pub open spec fn has_failing_middle(s: Seq<char>) -> bool {
    exists|k: int| middle_fails_at(s, k)
}

/// The visible fragment that stands for a formula that failed.
pub open spec fn error_fragment(latex: Seq<char>) -> Seq<char> {
    "<span class=\"math-error\" style=\"color:red\">Error: "@ + escape_html(latex) + "</span>"@
}

/// The markup for a formula: its MathML, or the error fragment where the
/// converter rejects the formula or would panic on its `\middle`.
pub open spec fn math_markup(latex: Seq<char>, display: bool) -> Seq<char> {
    if has_failing_middle(latex) || latex_conversion(latex) is None {
        error_fragment(latex)
    } else {
        math_element(display, latex_conversion(latex)->0)
    }
}

/// Relies on `latex2mathml::latex_to_mathml`: on success it returns the
/// converted content inside a `<math>` element whose `display` attribute
/// names the style, and the content does not depend on the style. It panics
/// (`unimplemented!()`) where `\middle` is not followed by an operator or a
/// bracket; those inputs are left out.
#[verifier::external_body]
fn convert_latex(latex: &str, display: bool) -> (r: Result<String, LatexError>)
    requires
        !has_failing_middle(latex@),
    ensures
        match r {
            Ok(m) => latex_conversion(latex@) is Some && m@ == math_element(
                display,
                latex_conversion(latex@)->0,
            ),
            Err(_) => latex_conversion(latex@) is None,
        },
{
    let style = if display {
        DisplayStyle::Block
    } else {
        DisplayStyle::Inline
    };
    latex_to_mathml(latex, style)
}

/// The first position at `p` or later that the converter's lexer does not
/// skip.
fn skip_lexer_blanks(v: &Vec<char>, p: usize) -> (q: usize)
    requires
        p <= v.len(),
    ensures
        q as int == skip_blanks(v@, p as int),
        p <= q <= v.len(),
{
    let mut q = p;
    while q < v.len() && (v[q] == ' ' || v[q] == '\t' || v[q] == '\n' || v[q] == '\r')
        invariant
            p <= q <= v.len(),
            skip_blanks(v@, p as int) == skip_blanks(v@, q as int),
        decreases v.len() - q,
    {
        q = q + 1;
    }
    q
}

/// Whether `latex` holds a `\middle` on which the converter may panic.
pub fn contains_failing_middle(latex: &str) -> (r: bool)
    ensures
        r == has_failing_middle(latex@),
{
    let v = chars_of(latex);
    let n = v.len();
    let mut k: usize = 0;
    let mut prev = false;
    while k < n
        invariant
            n == v.len(),
            v@ == latex@,
            k <= n,
            k > 0 ==> prev == starts_command(v@, k - 1),
            forall|j: int| 0 <= j < k ==> !middle_fails_at(v@, j),
        decreases n - k,
    {
        let start = v[k] == '\\' && (k == 0 || !prev);
        assert(start == starts_command(v@, k as int));
        if start && n - k >= 7 && v[k + 1] == 'm' && v[k + 2] == 'i' && v[k + 3] == 'd' && v[k + 4]
            == 'd' && v[k + 5] == 'l' && v[k + 6] == 'e' && !(k + 7 < n && (('a' <= v[k + 7]
            && v[k + 7] <= 'z') || ('A' <= v[k + 7] && v[k + 7] <= 'Z'))) {
            let q = skip_lexer_blanks(&v, k + 7);
            let c = if q < n {
                v[q]
            } else {
                ' '
            };
            let operator = q < n && (c == '=' || c == ';' || c == ',' || c == '.' || c == '\''
                || c == '(' || c == ')' || c == '[' || c == ']' || c == '|' || c == '+' || c == '-'
                || c == '*' || c == '/' || c == '!' || c == '<' || c == '>');
            if !operator {
                assert(middle_fails_at(v@, k as int));
                return true;
            }
            let r = skip_lexer_blanks(&v, q + 1);
            if r < n && v[r] == '\'' {
                assert(middle_fails_at(v@, k as int));
                return true;
            }
        }
        prev = start;
        k = k + 1;
    }
    false
}

/// The error fragment for `latex`.
pub fn render_error(latex: &str) -> (r: String)
    ensures
        r@ == error_fragment(latex@),
{
    let mut r = String::new();
    r.append("<span class=\"math-error\" style=\"color:red\">Error: ");
    let escaped = escape(latex);
    r.append(escaped.as_str());
    r.append("</span>");
    r
}

/// Renders a formula as MathML, as block or inline math; a formula that
/// fails becomes the error fragment.
pub fn render_math(latex: &str, display: bool) -> (r: String)
    ensures
        r@ == math_markup(latex@, display),
{
    if contains_failing_middle(latex) {
        return render_error(latex);
    }
    match convert_latex(latex, display) {
        Ok(mathml) => mathml,
        Err(_) => render_error(latex),
    }
}

} // verus!
