//! Code highlighting, which the `syntect` crate performs with the syntaxes
//! and the theme that it brings along.

use vstd::prelude::*;

verus! {

/// The HTML that `syntect` makes of `code` read as `language`, with its
/// default syntaxes and the theme `base16-ocean.dark`, or nothing where
/// `syntect` reports an error.
pub uninterp spec fn highlighted_html(language: Seq<char>, code: Seq<char>) -> Option<Seq<char>>;

/// Highlights `code` line by line with `syntect`: the syntax is the one
/// that `SyntaxSet::find_syntax_by_token` finds for `language` among the
/// default syntaxes, or plain text; each line of `LinesWithEndings` goes
/// through `HighlightLines::highlight_line` and
/// `append_highlighted_html_for_styled_line` without background colours.
/// Trusted: the result depends on the language and the code alone.
#[verifier::external_body]
fn highlight_lines(language: &str, code: &str) -> (html: Option<String>)
    ensures
        match html {
            Some(text) => highlighted_html(language@, code@) == Some(text@),
            None => highlighted_html(language@, code@) is None,
        },
{
    let syntaxes = syntect::parsing::SyntaxSet::load_defaults_newlines();
    let themes = syntect::highlighting::ThemeSet::load_defaults();
    let plain_text = syntaxes.find_syntax_plain_text();
    let syntax = syntaxes.find_syntax_by_token(language).unwrap_or(plain_text);
    let mut lines = syntect::easy::HighlightLines::new(syntax, &themes.themes["base16-ocean.dark"]);
    let mut html = String::new();
    for line in syntect::util::LinesWithEndings::from(code) {
        let regions = lines.highlight_line(line, &syntaxes).ok()?;
        let plain = syntect::html::IncludeBackground::No;
        syntect::html::append_highlighted_html_for_styled_line(&regions, plain, &mut html).ok()?;
    }
    Some(html)
}

/// Gathers the code of one block and highlights it.
pub struct Highlighter {
    /// The code gathered so far.
    pub buffer: String,
    /// The language of the block, as the post names it.
    pub language: String,
}

impl Highlighter {
    /// A highlighter that has gathered nothing and knows no language.
    pub fn new() -> (made: Highlighter)
        ensures
            made.buffer@.len() == 0,
            made.language@.len() == 0,
    {
        Highlighter { buffer: String::new(), language: String::new() }
    }

    /// Adds `str` to the code gathered so far.
    pub fn push_str(&mut self, str: &str)
        ensures
            final(self).buffer@ == old(self).buffer@ + str@,
            final(self).language == old(self).language,
    {
        self.buffer.append(str);
    }

    /// Highlights the code gathered so far as HTML and starts gathering
    /// anew. Gives nothing where the code cannot be highlighted.
    pub fn highlight(&mut self) -> (html: Option<String>)
        ensures
            final(self).buffer@.len() == 0,
            final(self).language == old(self).language,
            match html {
                Some(text) => highlighted_html(old(self).language@, old(self).buffer@) == Some(
                    text@,
                ),
                None => highlighted_html(old(self).language@, old(self).buffer@) is None,
            },
    {
        let html = highlight_lines(self.language.as_str(), self.buffer.as_str());
        self.buffer = String::new();
        html
    }
}

} // verus!
