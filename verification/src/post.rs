//! One content page: a post's text poured into the page skeleton.

use crate::date::{post_date, post_date_text, Date};
use crate::markdown::{markdown_html, to_html};
use crate::metadata::{metadata_of, Metadata, MetadataError, MetadataView};
use crate::path::{build_path, build_path_of};
use crate::text::{chars_of, replace, replaced, slice_of, string_of, trim_start, trimmed_start};
use vstd::prelude::*;

verus! {

/// A generated content page.
#[derive(Debug)]
pub struct Post {
    /// The whole page.
    pub html: String,
    pub metadata: Metadata,
    /// Where the page is written.
    pub build_path: String,
}

/// The mathematical value of a `Post`.
pub struct PostView {
    pub html: Seq<char>,
    pub metadata: MetadataView,
    pub build_path: Seq<char>,
}

impl View for Post {
    type V = PostView;

    open spec fn view(&self) -> PostView {
        PostView { html: self.html@, metadata: self.metadata@, build_path: self.build_path@ }
    }
}

/// The date on a content page: empty where the post states none.
pub open spec fn page_date(date: Option<Date>) -> Seq<char> {
    match date {
        Some(d) => post_date_text(d),
        None => Seq::empty(),
    }
}

/// The page skeleton with its three placeholders filled: first the title,
/// then the date, then the content, each wherever its placeholder stands.
pub open spec fn page_of(
    template: Seq<char>,
    title: Seq<char>,
    date: Seq<char>,
    content: Seq<char>,
) -> Seq<char> {
    replaced(
        replaced(replaced(template, "<!-- title -->"@, title), "<!-- date -->"@, date),
        "<!-- content -->"@,
        content,
    )
}

/// The body of a post as it is handed to the markdown transformation: what
/// follows the opening block, without leading white space.
pub open spec fn body_of(file: Seq<char>, end_position: nat) -> Seq<char> {
    trimmed_start(file.skip(end_position as int))
}

/// The content page of the post with text `file` kept at `path`.
pub open spec fn post_of(template: Seq<char>, path: Seq<char>, file: Seq<char>) -> Result<
    PostView,
    MetadataError,
> {
    match metadata_of(file, path) {
        Ok(metadata) => Ok(
            PostView {
                html: page_of(
                    template,
                    metadata.title,
                    page_date(metadata.date),
                    markdown_html(body_of(file, metadata.end_position)),
                ),
                metadata,
                build_path: build_path_of(path),
            },
        ),
        Err(e) => Err(e),
    }
}

impl Post {
    /// The post's metadata make sense.
    pub open spec fn wf(&self) -> bool {
        self.metadata.wf()
    }

    /// Generates the content page of the post with text `file` kept at
    /// `path`. Fails, with the reason, exactly where the opening block of
    /// the post cannot be read.
    pub fn new(post_template: &str, path: &str, file: &str) -> (made: Result<Post, MetadataError>)
        ensures
            match made {
                Ok(post) => post_of(post_template@, path@, file@) == Ok::<PostView, MetadataError>(
                    post@,
                ) && post.wf(),
                Err(e) => post_of(post_template@, path@, file@) == Err::<PostView, MetadataError>(
                    e,
                ),
            },
    {
        let metadata = match Metadata::new(file, path) {
            Ok(metadata) => metadata,
            Err(e) => {
                return Err(e);
            },
        };
        let chars = chars_of(file);
        let body = trim_start(&slice_of(&chars, metadata.end_position, chars.len()));
        let content = to_html(string_of(&body).as_str());
        let date: Vec<char> = match &metadata.date {
            Some(d) => post_date(d),
            None => Vec::new(),
        };
        let titled = replace(
            &chars_of(post_template),
            &chars_of("<!-- title -->"),
            &chars_of(metadata.title.as_str()),
        );
        let dated = replace(&titled, &chars_of("<!-- date -->"), &date);
        let page = replace(&dated, &chars_of("<!-- content -->"), &chars_of(content.as_str()));
        Ok(Post { html: string_of(&page), metadata, build_path: build_path(path) })
    }
}

/// Generates the content page of the post with text `file` kept at `path`:
/// where the page is to be written, and the page.
pub fn build(post_template: &str, path: &str, file: &str) -> (made: Result<
    (String, String),
    MetadataError,
>)
    ensures
        match made {
            Ok(page) => post_of(post_template@, path@, file@) matches Ok(post) && page.0@
                == post.build_path && page.1@ == post.html,
            Err(e) => post_of(post_template@, path@, file@) == Err::<PostView, MetadataError>(e),
        },
{
    match Post::new(post_template, path, file) {
        Ok(post) => Ok((post.build_path, post.html)),
        Err(e) => Err(e),
    }
}

} // verus!
