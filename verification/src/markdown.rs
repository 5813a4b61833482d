//! The markdown transformation, which the `pulldown_cmark` crate performs.

use vstd::prelude::*;

verus! {

/// The HTML that `pulldown_cmark` renders for a markdown text with every
/// extension switched on.
pub uninterp spec fn markdown_html(text: Seq<char>) -> Seq<char>;

/// Calls `pulldown_cmark::html::push_html` on the events that
/// `pulldown_cmark::Parser::new_ext` reads from `text` under
/// `Options::all()`. Trusted: the HTML depends on the text alone.
#[verifier::external_body]
fn push_html(text: &str) -> (html: String)
    ensures
        html@ == markdown_html(text@),
{
    let mut html = String::new();
    let parser = pulldown_cmark::Parser::new_ext(text, pulldown_cmark::Options::all());
    pulldown_cmark::html::push_html(&mut html, parser);
    html
}

/// Renders a markdown text as HTML.
pub fn to_html(text: &str) -> (html: String)
    ensures
        html@ == markdown_html(text@),
{
    push_html(text)
}

} // verus!
