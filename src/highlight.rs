//! Syntax highlighting of code blocks.
//!
//! The language token picks a syntax definition; a token that matches none,
//! or no token, falls back to plain text. Each line is classified by
//! `syntect`, and the result is wrapped in a block whose class names the
//! token as it was written.
use crate::text::{escape, escape_html};
use syntect::html::{ClassStyle, ClassedHTMLGenerator};
use syntect::parsing::{SyntaxReference, SyntaxSet};
use syntect::util::LinesWithEndings;
use vstd::prelude::*;

verus! {

/// A set of syntax definitions, opaque here.
#[verifier::external_type_specification]
#[verifier::external_body]
pub struct ExSyntaxSet(SyntaxSet);

/// One syntax definition, opaque here.
#[verifier::external_type_specification]
#[verifier::external_body]
pub struct ExSyntaxReference(SyntaxReference);

/// The line-by-line HTML builder, opaque here.
#[verifier::external_type_specification]
#[verifier::external_body]
pub struct ExClassedHTMLGenerator<'a>(ClassedHTMLGenerator<'a>);

/// The highlighter's error, opaque here.
#[verifier::external_type_specification]
#[verifier::external_body]
pub struct ExSyntectError(syntect::Error);

/// The block around highlighted code, with the language token in its class.
pub open spec fn code_block_markup(lang: Seq<char>, body: Seq<char>) -> Seq<char> {
    "<pre><code class=\"language-"@ + escape_html(lang) + "\">"@ + body + "</code></pre>"@
}

/// The lines of `s`: each ends with its newline, but the last one may lack it.
pub open spec fn is_lines_of(lines: Seq<Seq<char>>, s: Seq<char>) -> bool {
    &&& lines.flatten() == s
    &&& forall|i: int| 0 <= i < lines.len() ==> #[trigger] lines[i].len() > 0
    &&& forall|i: int| 0 <= i < lines.len() - 1 ==> #[trigger] lines[i].last() == '\n'
    &&& forall|i: int, j: int|
        0 <= i < lines.len() && 0 <= j < lines[i].len() - 1 ==> #[trigger] lines[i][j] != '\n'
}

/// Relies on `SyntaxSet::load_defaults_newlines`: syntect's bundled syntax
/// definitions, for lines that keep their newline.
#[verifier::external_body]
pub(crate) fn default_syntax_set() -> SyntaxSet {
    SyntaxSet::load_defaults_newlines()
}

/// Relies on `SyntaxSet::find_syntax_by_token`: the definition that the
/// token names, if any.
#[verifier::external_body]
fn find_by_token<'a>(ss: &'a SyntaxSet, token: &str) -> Option<&'a SyntaxReference> {
    ss.find_syntax_by_token(token)
}

/// Relies on `SyntaxSet::find_syntax_by_name`: the definition with that
/// name, if any.
#[verifier::external_body]
fn find_by_name<'a>(ss: &'a SyntaxSet, name: &str) -> Option<&'a SyntaxReference> {
    ss.find_syntax_by_name(name)
}

/// Relies on `ClassedHTMLGenerator::new_with_class_style`: an empty builder
/// that writes space-separated scope classes.
#[verifier::external_body]
fn new_generator<'a>(syntax: &'a SyntaxReference, ss: &'a SyntaxSet) -> ClassedHTMLGenerator<'a> {
    ClassedHTMLGenerator::new_with_class_style(syntax, ss, ClassStyle::Spaced)
}

/// Relies on `ClassedHTMLGenerator::parse_html_for_line_which_includes_newline`:
/// classifies one line and adds its escaped, classified HTML.
#[verifier::external_body]
fn add_line(g: &mut ClassedHTMLGenerator, line: &str) -> Result<(), syntect::Error> {
    g.parse_html_for_line_which_includes_newline(line)
}

/// Relies on `ClassedHTMLGenerator::finalize`: the HTML built so far, with
/// open spans closed.
#[verifier::external_body]
fn finish(g: ClassedHTMLGenerator) -> String {
    g.finalize()
}

/// Relies on `syntect::util::LinesWithEndings`: the lines of `s`, each with
/// its newline.
#[verifier::external_body]
fn lines_with_endings(s: &str) -> (r: Vec<&str>)
    ensures
        is_lines_of(r@.map_values(|l: &str| l@), s@),
{
    LinesWithEndings::from(s).collect()
}

/// Highlights `code` by the syntax that `lang` names, or as plain text,
/// and wraps it in a block whose class is `language-` and the token.
pub fn highlight_code(ss: &SyntaxSet, lang: &str, code: &str) -> (r: String)
    ensures
        exists|body: Seq<char>| r@ == code_block_markup(lang@, body),
{
    let syntax = match find_by_token(ss, lang) {
        Some(s) => Some(s),
        None => find_by_name(ss, "Plain Text"),
    };
    let body = match syntax {
        Some(s) => {
            let mut g = new_generator(s, ss);
            let lines = lines_with_endings(code);
            let mut i: usize = 0;
            while i < lines.len()
                decreases lines.len() - i,
            {
                let _ = add_line(&mut g, lines[i]);
                i = i + 1;
            }
            finish(g)
        },
        None => escape(code),
    };
    let mut r = String::new();
    r.append("<pre><code class=\"language-");
    let token = escape(lang);
    r.append(token.as_str());
    r.append("\">");
    r.append(body.as_str());
    r.append("</code></pre>");
    assert(r@ == code_block_markup(lang@, body@));
    r
}

} // verus!
