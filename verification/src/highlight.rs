//! Syntax highlighting of fenced code blocks, through syntect.

use vstd::prelude::*;
use syntect::highlighting::{Theme, ThemeSet};
use syntect::html::highlighted_html_for_string;
use syntect::parsing::SyntaxSet;

verus! {

#[verifier::external_type_specification]
#[verifier::external_body]
pub struct ExSyntaxSet(SyntaxSet);

#[verifier::external_type_specification]
#[verifier::external_body]
pub struct ExTheme(Theme);

/// The highlighted HTML for a code block with the given language tag. An
/// unrecognized or empty tag falls back to plain-text highlighting, so a
/// result exists for every input.
pub uninterp spec fn highlight_of(lang: Seq<char>, code: Seq<char>) -> Seq<char>;

/// The syntax and theme tables used to highlight code blocks, built once and
/// passed by reference into the converter.
pub struct Highlighter {
    syntaxes: SyntaxSet,
    theme: Theme,
}

impl Highlighter {
    /// Relies on syntect::parsing::SyntaxSet::load_defaults_newlines and
    /// syntect::highlighting::ThemeSet::load_defaults: both read tables that
    /// are embedded in the binary, so every `Highlighter` holds the same
    /// tables and the theme name is always present.
    #[verifier::external_body]
    pub fn new() -> Highlighter {
        let syntaxes = SyntaxSet::load_defaults_newlines();
        let theme = ThemeSet::load_defaults().themes["base16-ocean.dark"].clone();
        Highlighter { syntaxes, theme }
    }

    /// Relies on syntect::parsing::SyntaxSet::find_syntax_by_token and
    /// syntect::html::highlighted_html_for_string: with the fixed embedded
    /// tables of `Highlighter::new`, the result is a deterministic function of
    /// the language tag and the code text alone, and highlighting never fails;
    /// an unknown tag falls back to the plain-text syntax.
    #[verifier::external_body]
    pub fn highlight(&self, lang: &str, code: &str) -> (r: String)
        ensures
            r@ == highlight_of(lang@, code@),
    {
        let syntax = match self.syntaxes.find_syntax_by_token(lang) {
            Some(s) => s,
            None => self.syntaxes.find_syntax_plain_text(),
        };
        highlighted_html_for_string(code, &self.syntaxes, syntax, &self.theme)
    }
}

} // verus!
