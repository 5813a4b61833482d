//! The entries of a listing written with `{{ name }}` placeholders, and
//! the block of `key = value` lines that such a post opens with.

use crate::markup::{
    generate_tokens, token_at, token_text, token_views, tokens_of, wrapped_at, Token, TokenView,
};
use crate::metadata::read_time_text;
use crate::path::{file_name, file_name_of, last_index_of};
use crate::text::{
    append, chars_of, decimal, find_from, first_match, push_decimal, same_chars, slice_of,
    string_of, trim, trimmed,
};
use vstd::prelude::*;

verus! {

/// What a listing shows of one post.
#[derive(Debug)]
pub struct Post {
    pub path: String,
    pub title: String,
    pub user: String,
    pub words: usize,
    pub duration: String,
    pub summary: String,
}

/// The mathematical value of a `Post`.
pub struct PostView {
    pub path: Seq<char>,
    pub title: Seq<char>,
    pub user: Seq<char>,
    pub words: nat,
    pub duration: Seq<char>,
    pub summary: Seq<char>,
}

impl View for Post {
    type V = PostView;

    open spec fn view(&self) -> PostView {
        PostView {
            path: self.path@,
            title: self.title@,
            user: self.user@,
            words: self.words as nat,
            duration: self.duration@,
            summary: self.summary@,
        }
    }
}

impl Default for Post {
    /// A post of which nothing is known.
    fn default() -> (post: Post)
        ensures
            post@ == (PostView {
                path: Seq::empty(),
                title: Seq::empty(),
                user: Seq::empty(),
                words: 0,
                duration: Seq::empty(),
                summary: Seq::empty(),
            }),
    {
        Post {
            path: String::new(),
            title: String::new(),
            user: String::new(),
            words: 0,
            duration: String::new(),
            summary: String::new(),
        }
    }
}

/// Where the line that starts at `from` ends, and where the next one
/// starts: at its line feed and after it, or both at the end of the text.
pub open spec fn line_bounds(text: Seq<char>, from: int) -> (int, int) {
    match first_match(text, "\n"@, from) {
        Some(feed) => (feed, feed + 1),
        None => (text.len() as int, text.len() as int),
    }
}

/// The line of `text` from `from` up to `end`, where a line feed stands at
/// `end` or the text ends: without the carriage return that may stand
/// before the line feed.
pub open spec fn line_text(text: Seq<char>, from: int, end: int) -> Seq<char> {
    if from < end < text.len() && text[end - 1] == '\r' {
        text.subrange(from, end - 1)
    } else {
        text.subrange(from, end)
    }
}

/// The lines of `text` from position `from` on. A line ends at its line
/// feed; no line follows the last line feed.
pub open spec fn lines_from(text: Seq<char>, from: int) -> Seq<Seq<char>>
    decreases text.len() - from,
{
    if from < 0 || from >= text.len() {
        Seq::empty()
    } else {
        let (end, next) = line_bounds(text, from);
        if from <= end && from < next <= text.len() {
            seq![line_text(text, from, end)] + lines_from(text, next)
        } else if from <= end <= text.len() {
            seq![line_text(text, from, end)]
        } else {
            Seq::empty()
        }
    }
}

/// The lines of `text`.
pub open spec fn lines_of(text: Seq<char>) -> Seq<Seq<char>> {
    lines_from(text, 0)
}

/// The title and the user that the block of a post states.
pub struct Heading {
    pub title: Seq<char>,
    pub user: Seq<char>,
}

/// Reads the lines of the block from line `i` on: the title and the user
/// of the whole block with the number of the first line of the body, or
/// nothing where a line of the block has no `=`. The block ends with the
/// line `+++ -->`, or with the text.
pub open spec fn block_from(lines: Seq<Seq<char>>, i: int, heading: Heading) -> Option<
    (Heading, int),
>
    decreases lines.len() - i,
{
    if i < 0 || i >= lines.len() {
        Some((heading, lines.len() as int))
    } else if lines[i] == "<!-- +++"@ {
        block_from(lines, i + 1, heading)
    } else if lines[i] == "+++ -->"@ {
        Some((heading, i + 1))
    } else {
        match first_match(lines[i], "="@, 0) {
            Some(at) => {
                let key = trimmed(lines[i].take(at));
                let value = trimmed(lines[i].skip(at + 1));
                block_from(
                    lines,
                    i + 1,
                    if key == "title"@ {
                        Heading { title: value, ..heading }
                    } else if key == "user"@ {
                        Heading { user: value, ..heading }
                    } else {
                        heading
                    },
                )
            },
            None => None,
        }
    }
}

/// The number of blanks in `line`.
pub open spec fn blanks(line: Seq<char>) -> nat {
    line.filter(|c: char| c == ' ').len()
}

/// The words of the lines from line `i` on: for each line one more than
/// its blanks.
pub open spec fn words_from(lines: Seq<Seq<char>>, i: int) -> nat
    decreases lines.len() - i,
{
    if i < 0 || i >= lines.len() {
        0
    } else {
        blanks(lines[i]) + 1 + words_from(lines, i + 1)
    }
}

/// The first lines of the body, seven at most, each with a line feed
/// after it: lines `i` up to, not including, `to`.
pub open spec fn summary_from(lines: Seq<Seq<char>>, i: int, to: int) -> Seq<char>
    decreases to - i,
{
    if i < 0 || i >= to || i >= lines.len() {
        Seq::empty()
    } else {
        lines[i] + "\n"@ + summary_from(lines, i + 1, to)
    }
}

/// What is read of the post with text `text` kept at `path`. Nothing
/// where the text does not open with the line `<!-- +++`, a line of the
/// block has no `=`, or the words are more than a `usize` counts.
pub open spec fn post_of(path: Seq<char>, text: Seq<char>) -> Option<PostView> {
    let lines = lines_of(text);
    if lines.len() == 0 || lines[0] != "<!-- +++"@ {
        None
    } else {
        match block_from(lines, 0, Heading { title: Seq::empty(), user: Seq::empty() }) {
            Some((heading, body)) => if words_from(lines, body) <= usize::MAX {
                Some(
                    PostView {
                        path,
                        title: heading.title,
                        user: heading.user,
                        words: words_from(lines, body),
                        duration: read_time_text(words_from(lines, body)),
                        summary: summary_from(lines, body, body + 7),
                    },
                )
            } else {
                None
            },
            None => None,
        }
    }
}

/// The file name of `path` without its extension: up to its last `.`,
/// unless that opens the file name or the file name has none. A path
/// without file name has no stem.
pub open spec fn file_stem_of(path: Seq<char>) -> Option<Seq<char>> {
    let name = file_name_of(path);
    let dot = last_index_of(name, '.', name.len() as int);
    if name.len() == 0 {
        None
    } else if dot <= 0 {
        Some(name)
    } else {
        Some(name.take(dot))
    }
}

/// What stands for the variable `name` in the entry of `post`. Nothing
/// for a name that is none of `link`, `title`, `user`, `date`, `duration`,
/// `words` and `summary`, and for `link` where the path has no file name.
pub open spec fn variable_text(post: PostView, name: Seq<char>) -> Option<Seq<char>> {
    if name == "link"@ {
        match file_stem_of(post.path) {
            Some(stem) => Some("build/"@ + stem + ".html"@),
            None => None,
        }
    } else if name == "title"@ {
        Some(post.title)
    } else if name == "user"@ {
        Some(post.user)
    } else if name == "date"@ {
        Some(Seq::empty())
    } else if name == "duration"@ {
        Some(post.duration)
    } else if name == "words"@ {
        Some(decimal(post.words) + " words"@)
    } else if name == "summary"@ {
        Some(post.summary)
    } else {
        None
    }
}

/// The entry of `post` from the tokens of the entry skeleton, from token
/// `i` on, after `out`: a variable between `{{` and `}}` gives way to what
/// stands for it, a `{{` without variable to nothing, and any other token
/// to its text. Nothing where a variable has no text, or where a `{%` or a
/// heading stands.
pub open spec fn entry_from(tokens: Seq<TokenView>, i: int, post: PostView, out: Seq<char>) -> Option<
    Seq<char>,
>
    decreases tokens.len() - i,
{
    if i < 0 || i >= tokens.len() {
        Some(out)
    } else {
        match tokens[i] {
            TokenView::TemplateStart => match wrapped_at(tokens, i + 1, TokenView::TemplateEnd) {
                Some(name) => match variable_text(post, trimmed(name)) {
                    Some(text) => entry_from(tokens, i + 3, post, out + text),
                    None => None,
                },
                None => entry_from(tokens, i + 1, post, out),
            },
            TokenView::ShortcodeStart => None,
            TokenView::Heading(_) => None,
            token => entry_from(tokens, i + 1, post, out + token_text(token)),
        }
    }
}

/// The entry of `post` under the entry skeleton `template`, with a line
/// feed after it.
pub open spec fn entry_of(post: PostView, template: Seq<char>) -> Option<Seq<char>> {
    match tokens_of(template) {
        Some(tokens) => match entry_from(tokens, 0, post, Seq::empty()) {
            Some(html) => Some(html + "\n"@),
            None => None,
        },
        None => None,
    }
}

/// The entries of `posts` under the entry skeleton `template`, one after
/// the other. Nothing where one of them has none.
pub open spec fn entries_of(posts: Seq<PostView>, template: Seq<char>) -> Option<Seq<char>>
    decreases posts.len(),
{
    if posts.len() == 0 {
        Some(Seq::empty())
    } else {
        match (entries_of(posts.drop_last(), template), entry_of(posts.last(), template)) {
            (Some(before), Some(entry)) => Some(before + entry),
            _ => None,
        }
    }
}

/// The values of the posts `posts`, in their order.
pub open spec fn post_views(posts: Seq<Post>) -> Seq<PostView> {
    posts.map_values(|p: Post| p@)
}

/// The lines of `text`.
pub fn split_lines(text: &Vec<char>) -> (lines: Vec<Vec<char>>)
    ensures
        lines@.map_values(|l: Vec<char>| l@) == lines_of(text@),
{
    let ghost view = |l: Vec<char>| l@;
    let feed = chars_of("\n");
    proof {
        reveal_strlit("\n");
    }
    let mut lines: Vec<Vec<char>> = Vec::new();
    let mut from: usize = 0;
    assert(lines@.map_values(view) == Seq::<Seq<char>>::empty());
    while from < text.len()
        invariant
            from <= text.len(),
            feed@ == "\n"@,
            feed@.len() == 1,
            view == |l: Vec<char>| l@,
            lines_of(text@) == lines@.map_values(view) + lines_from(text@, from as int),
        decreases text.len() - from,
    {
        let (end, next): (usize, usize) = match find_from(text, &feed, from) {
            Some(at) => (at, at + 1),
            None => (text.len(), text.len()),
        };
        let line = if from < end && end < text.len() && text[end - 1] == '\r' {
            slice_of(text, from, end - 1)
        } else {
            slice_of(text, from, end)
        };
        let ghost before = lines@.map_values(view);
        let ghost value = line@;
        lines.push(line);
        proof {
            assert(lines@.map_values(view) == before.push(value));
            assert(before.push(value) + lines_from(text@, next as int) == before + (seq![value]
                + lines_from(text@, next as int)));
            if next == from {
                assert(lines_from(text@, next as int) == Seq::<Seq<char>>::empty());
            }
        }
        if next == from {
            from = text.len();
        } else {
            from = next;
        }
    }
    assert(lines_from(text@, from as int) == Seq::<Seq<char>>::empty());
    lines
}

/// The number of blanks in `line`.
fn count_blanks(line: &Vec<char>) -> (count: usize)
    ensures
        count == blanks(line@),
        count <= line.len(),
{
    let ghost blank = |c: char| c == ' ';
    let mut count: usize = 0;
    let mut i: usize = 0;
    while i < line.len()
        invariant
            i <= line.len(),
            blank == |c: char| c == ' ',
            count == line@.take(i as int).filter(blank).len(),
            count <= i,
        decreases line.len() - i,
    {
        proof {
            assert(line@.take(i + 1) == line@.take(i as int).push(line@[i as int]));
            line@.take(i as int).lemma_filter_push(line@[i as int], blank);
        }
        if line[i] == ' ' {
            count += 1;
        }
        i += 1;
    }
    assert(line@.take(i as int) == line@);
    count
}

/// Reads what a listing shows of the post with text `text` kept at `path`.
pub fn parse_post(path: &str, text: &str) -> (made: Option<Post>)
    ensures
        match made {
            Some(post) => post_of(path@, text@) == Some(post@),
            None => post_of(path@, text@) is None,
        },
{
    let ghost view = |l: Vec<char>| l@;
    let lines = split_lines(&chars_of(text));
    let ghost all = lines@.map_values(view);
    let open = chars_of("<!-- +++");
    let close = chars_of("+++ -->");
    if lines.len() == 0 || !same_chars(&lines[0], &open) {
        assert(all.len() > 0 ==> all[0] == lines@[0]@);
        return None;
    }
    let mut title: Vec<char> = Vec::new();
    let mut user: Vec<char> = Vec::new();
    let mut i: usize = 0;
    let mut body: usize = lines.len();
    let mut closed = false;
    proof {
        reveal_strlit("=");
    }
    while i < lines.len() && !closed
        invariant
            i <= lines@.len(),
            body <= lines@.len(),
            all == lines@.map_values(view),
            all == lines_of(text@),
            all.len() > 0,
            all[0] == "<!-- +++"@,
            view == |l: Vec<char>| l@,
            open@ == "<!-- +++"@,
            close@ == "+++ -->"@,
            "="@.len() == 1,
            !closed ==> block_from(all, 0, Heading { title: Seq::empty(), user: Seq::empty() })
                == block_from(all, i as int, Heading { title: title@, user: user@ }),
            !closed ==> body == lines@.len(),
            closed ==> block_from(all, 0, Heading { title: Seq::empty(), user: Seq::empty() })
                == Some((Heading { title: title@, user: user@ }, body as int)),
        decreases lines.len() - i + (if closed { 0int } else { 1int }),
    {
        let line = &lines[i];
        assert(all[i as int] == line@);
        if same_chars(line, &open) {
            i += 1;
        } else if same_chars(line, &close) {
            body = i + 1;
            closed = true;
        } else {
            match find_from(line, &chars_of("="), 0) {
                Some(at) => {
                    let key = trim(&slice_of(line, 0, at));
                    let value = trim(&slice_of(line, at + 1, line.len()));
                    if same_chars(&key, &chars_of("title")) {
                        title = value;
                    } else if same_chars(&key, &chars_of("user")) {
                        user = value;
                    }
                    i += 1;
                },
                None => {
                    return None;
                },
            }
        }
    }
    let mut words: usize = 0;
    let mut summary: Vec<char> = Vec::new();
    let mut k: usize = lines.len();
    let ghost heading = Heading { title: title@, user: user@ };
    assert(block_from(all, 0, Heading { title: Seq::empty(), user: Seq::empty() }) == Some(
        (heading, body as int),
    ));
    while k > body
        invariant
            body <= k <= lines@.len(),
            all == lines@.map_values(view),
            all == lines_of(text@),
            all.len() > 0,
            all[0] == "<!-- +++"@,
            block_from(all, 0, Heading { title: Seq::empty(), user: Seq::empty() }) == Some(
                (heading, body as int),
            ),
            view == |l: Vec<char>| l@,
            words == words_from(all, k as int),
        decreases k,
    {
        k -= 1;
        assert(all[k as int] == lines@[k as int]@);
        let blank: usize = count_blanks(&lines[k]);
        if blank == usize::MAX || words > usize::MAX - blank - 1 {
            proof {
                lemma_words_grow(all, body as int, k as int);
            }
            return None;
        }
        words = words + blank + 1;
    }
    let mut n: usize = body;
    while n < lines.len() && n - body < 7
        invariant
            body <= n <= lines@.len(),
            n - body <= 7,
            all == lines@.map_values(view),
            view == |l: Vec<char>| l@,
            summary_from(all, body as int, body + 7) == summary@ + summary_from(
                all,
                n as int,
                body + 7,
            ),
        decreases lines.len() - n,
    {
        assert(all[n as int] == lines@[n as int]@);
        let ghost before = summary@;
        append(&mut summary, &lines[n]);
        summary.push('\n');
        proof {
            reveal_strlit("\n");
            assert(summary@ == before + (all[n as int] + "\n"@));
            assert(before + (all[n as int] + "\n"@ + summary_from(all, n + 1, body + 7))
                == before + (all[n as int] + "\n"@) + summary_from(all, n + 1, body + 7));
        }
        n += 1;
    }
    let mut duration: Vec<char> = Vec::new();
    if words < 250 {
        append(&mut duration, &chars_of("&lt;1 minute read"));
    } else {
        push_decimal(&mut duration, (words / 250) as u64);
        append(&mut duration, &chars_of(" minute read"));
    }
    Some(
        Post {
            path: path.to_owned(),
            title: string_of(&title),
            user: string_of(&user),
            words,
            duration: string_of(&duration),
            summary: string_of(&summary),
        },
    )
}

/// The words from a line on are no fewer than those from a later line on.
pub proof fn lemma_words_grow(lines: Seq<Seq<char>>, i: int, k: int)
    requires
        0 <= i <= k <= lines.len(),
    ensures
        words_from(lines, i) >= words_from(lines, k),
    decreases k - i,
{
    if i < k {
        lemma_words_grow(lines, i + 1, k);
    }
}

/// The file name of `path` without its extension, if it has a file name.
fn file_stem(path: &Vec<char>) -> (stem: Option<Vec<char>>)
    ensures
        match stem {
            Some(s) => file_stem_of(path@) == Some(s@),
            None => file_stem_of(path@) is None,
        },
{
    let name = file_name(path);
    if name.len() == 0 {
        return None;
    }
    let mut dot: usize = name.len();
    while dot > 0 && name[dot - 1] != '.'
        invariant
            dot <= name.len(),
            last_index_of(name@, '.', name.len() as int) == last_index_of(name@, '.', dot as int),
        decreases dot,
    {
        dot -= 1;
    }
    if dot <= 1 {
        assert(name@.subrange(0, name.len() as int) =~= name@);
        Some(slice_of(&name, 0, name.len()))
    } else {
        Some(slice_of(&name, 0, dot - 1))
    }
}

/// What stands for the variable `name` in the entry of `post`.
fn variable(post: &Post, name: &Vec<char>) -> (text: Option<Vec<char>>)
    ensures
        match text {
            Some(t) => variable_text(post@, name@) == Some(t@),
            None => variable_text(post@, name@) is None,
        },
{
    if same_chars(name, &chars_of("link")) {
        match file_stem(&chars_of(post.path.as_str())) {
            Some(stem) => {
                let mut link = chars_of("build/");
                append(&mut link, &stem);
                append(&mut link, &chars_of(".html"));
                Some(link)
            },
            None => None,
        }
    } else if same_chars(name, &chars_of("title")) {
        Some(chars_of(post.title.as_str()))
    } else if same_chars(name, &chars_of("user")) {
        Some(chars_of(post.user.as_str()))
    } else if same_chars(name, &chars_of("date")) {
        Some(Vec::new())
    } else if same_chars(name, &chars_of("duration")) {
        Some(chars_of(post.duration.as_str()))
    } else if same_chars(name, &chars_of("words")) {
        let mut words: Vec<char> = Vec::new();
        push_decimal(&mut words, post.words as u64);
        append(&mut words, &chars_of(" words"));
        Some(words)
    } else if same_chars(name, &chars_of("summary")) {
        Some(chars_of(post.summary.as_str()))
    } else {
        None
    }
}

/// Makes the entry of `post` under the entry skeleton `template`.
pub fn generate_post_item(post: &Post, template: &str) -> (made: Option<String>)
    ensures
        match made {
            Some(html) => entry_of(post@, template@) == Some(html@),
            None => entry_of(post@, template@) is None,
        },
{
    let tokens = match generate_tokens(template) {
        Some(tokens) => tokens,
        None => {
            return None;
        },
    };
    let ghost all = token_views(tokens@);
    let mut out: Vec<char> = Vec::new();
    let mut i: usize = 0;
    while i < tokens.len()
        invariant
            i <= tokens@.len(),
            all == token_views(tokens@),
            tokens_of(template@) == Some(all),
            entry_from(all, 0, post@, Seq::empty()) == entry_from(all, i as int, post@, out@),
        decreases tokens.len() - i,
    {
        assert(all[i as int] == tokens@[i as int]@);
        match &tokens[i] {
            Token::TemplateStart => {
                let name: Option<&String> = if tokens.len() - i >= 3 {
                    assert(all[i + 1] == tokens@[i + 1]@);
                    assert(all[i + 2] == tokens@[i + 2]@);
                    match (&tokens[i + 1], &tokens[i + 2]) {
                        (Token::String(name), Token::TemplateEnd) => Some(name),
                        _ => None,
                    }
                } else {
                    None
                };
                match name {
                    Some(name) => {
                        match variable(post, &trim(&chars_of(name.as_str()))) {
                            Some(text) => {
                                append(&mut out, &text);
                                i += 3;
                            },
                            None => {
                                return None;
                            },
                        }
                    },
                    None => {
                        i += 1;
                    },
                }
            },
            Token::ShortcodeStart => {
                return None;
            },
            Token::Heading(_) => {
                return None;
            },
            token => {
                append(&mut out, &chars_of(token.to_string().as_str()));
                i += 1;
            },
        }
    }
    out.push('\n');
    proof {
        reveal_strlit("\n");
    }
    Some(string_of(&out))
}

/// Makes the entries of `posts` under the entry skeleton `template`, one
/// after the other.
pub fn generate_posts_list(posts: &Vec<Post>, template: &str) -> (made: Option<String>)
    ensures
        match made {
            Some(html) => entries_of(post_views(posts@), template@) == Some(html@),
            None => entries_of(post_views(posts@), template@) is None,
        },
{
    let ghost all = post_views(posts@);
    let mut out: Vec<char> = Vec::new();
    let mut i: usize = 0;
    while i < posts.len()
        invariant
            i <= posts@.len(),
            all == post_views(posts@),
            entries_of(all.take(i as int), template@) == Some(out@),
        decreases posts.len() - i,
    {
        proof {
            assert(all.take(i + 1).drop_last() == all.take(i as int));
            assert(all.take(i + 1).last() == posts@[i as int]@);
        }
        match generate_post_item(&posts[i], template) {
            Some(entry) => {
                append(&mut out, &chars_of(entry.as_str()));
            },
            None => {
                proof {
                    lemma_entries_none(all, template@, i + 1);
                }
                return None;
            },
        }
        i += 1;
    }
    assert(all.take(i as int) == all);
    Some(string_of(&out))
}

/// Where the first `k` of some posts have no entries, the posts have none.
pub proof fn lemma_entries_none(posts: Seq<PostView>, template: Seq<char>, k: int)
    requires
        0 <= k <= posts.len(),
        entries_of(posts.take(k), template) is None,
    ensures
        entries_of(posts, template) is None,
    decreases posts.len() - k,
{
    if k < posts.len() {
        assert(posts.take(k + 1).drop_last() == posts.take(k));
        lemma_entries_none(posts, template, k + 1);
    } else {
        assert(posts.take(k) == posts);
    }
}

} // verus!
