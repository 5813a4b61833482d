//! What a post says of itself in the block that opens its file.
//!
//! A post may open with a block that `~~~` starts, at the very first
//! character of the file, and that the next line starting with `~~~`
//! closes. Between the two stand lines of the form `key: value`. The keys
//! `title`, `summary` and `date` are read, others are passed over. What
//! follows the closing line is the body of the post.

use crate::date::{parse_date, parsed_date, Date};
use crate::path::{link_path, link_path_of};
use crate::text::{
    append, chars_of, decimal, find_from, first_match, first_non_space, is_space, is_whitespace,
    matches_at, push_decimal, same_chars, skip_spaces, slice_of, starts_with_at, string_of, trim,
    trimmed,
};
use vstd::prelude::*;

verus! {

/// Why a file's opening block cannot be read.
#[derive(Clone, Copy, Debug, PartialEq, Eq, Structural)]
pub enum MetadataError {
    /// The block is opened and no later line closes it.
    Unterminated,
}

/// What a post says of itself, and what is counted from its body.
#[derive(Debug)]
pub struct Metadata {
    pub title: String,
    pub summary: String,
    pub date: Option<Date>,
    pub link_path: String,
    pub real_path: String,
    pub word_count: usize,
    /// Where the body starts in the file, counted in characters.
    pub end_position: usize,
}

/// The mathematical value of a `Metadata`.
pub struct MetadataView {
    pub title: Seq<char>,
    pub summary: Seq<char>,
    pub date: Option<Date>,
    pub link_path: Seq<char>,
    pub real_path: Seq<char>,
    pub word_count: nat,
    pub end_position: nat,
}

impl MetadataView {
    /// A date, if there is one, is one that can be printed.
    pub open spec fn wf(self) -> bool {
        self.date matches Some(d) ==> d.wf()
    }
}

impl View for Metadata {
    type V = MetadataView;

    open spec fn view(&self) -> MetadataView {
        MetadataView {
            title: self.title@,
            summary: self.summary@,
            date: self.date,
            link_path: self.link_path@,
            real_path: self.real_path@,
            word_count: self.word_count as nat,
            end_position: self.end_position as nat,
        }
    }
}

/// The three fields that the block of a post can set.
pub struct Fields {
    pub title: Seq<char>,
    pub summary: Seq<char>,
    pub date: Option<Date>,
}

/// The text that opens and closes the block.
pub open spec fn marker() -> Seq<char> {
    "~~~"@
}

/// The fields of a post without a block.
pub open spec fn no_fields() -> Fields {
    Fields { title: Seq::empty(), summary: Seq::empty(), date: None }
}

/// The fields after one line of the block has been read. A line without
/// `:` sets nothing, a key is what stands before the first `:` as it is,
/// and a value is what stands after it without the white space around it.
/// A date that cannot be read leaves the date as it was.
pub open spec fn apply_line(fields: Fields, line: Seq<char>) -> Fields {
    match first_match(line, ":"@, 0) {
        Some(colon) => {
            let key = line.take(colon);
            let value = trimmed(line.skip(colon + 1));
            if key == "title"@ {
                Fields { title: value, ..fields }
            } else if key == "summary"@ {
                Fields { summary: value, ..fields }
            } else if key == "date"@ {
                match parsed_date(value) {
                    Some(date) => Fields { date: Some(date), ..fields },
                    None => fields,
                }
            } else {
                fields
            }
        },
        None => fields,
    }
}

/// Where the line that starts at `from` ends: at its line feed, or at the
/// end of the file.
pub open spec fn line_end(file: Seq<char>, from: int) -> int {
    match first_match(file, "\n"@, from) {
        Some(end) => end,
        None => file.len() as int,
    }
}

/// Reads the lines of the block from the line that starts at `from`, with
/// `fields` read so far: the fields of the whole block and the position
/// where its closing line ends, or nothing if no line closes the block.
pub open spec fn scan_block(file: Seq<char>, from: int, fields: Fields) -> Option<(Fields, int)>
    decreases file.len() - from,
{
    if from < 0 || from > file.len() {
        None
    } else if matches_at(file, from, marker()) {
        Some((fields, line_end(file, from)))
    } else {
        match first_match(file, "\n"@, from) {
            Some(end) => if from <= end < file.len() {
                scan_block(file, end + 1, apply_line(fields, file.subrange(from, end)))
            } else {
                None
            },
            None => None,
        }
    }
}

/// The fields of a file and the position where its body starts.
pub open spec fn block_of(file: Seq<char>) -> Result<(Fields, int), MetadataError> {
    if matches_at(file, 0, marker()) {
        match scan_block(file, skip_spaces(file, 3), no_fields()) {
            Some(found) => Ok(found),
            None => Err(MetadataError::Unterminated),
        }
    } else {
        Ok((no_fields(), 0))
    }
}

/// The number of white-space characters in `s`.
pub open spec fn space_count(s: Seq<char>) -> nat {
    s.filter(|c: char| is_space(c)).len()
}

/// The rough word count of a body: one more than its white-space
/// characters, as far as a `usize` can count.
pub open spec fn word_count_of(body: Seq<char>) -> nat {
    if space_count(body) < usize::MAX {
        space_count(body) + 1
    } else {
        usize::MAX as nat
    }
}

/// What `Metadata::new` reads from a file kept at `path`.
pub open spec fn metadata_of(file: Seq<char>, path: Seq<char>) -> Result<
    MetadataView,
    MetadataError,
> {
    match block_of(file) {
        Ok((fields, end)) => Ok(
            MetadataView {
                title: fields.title,
                summary: fields.summary,
                date: fields.date,
                link_path: link_path_of(path),
                real_path: path,
                word_count: word_count_of(file.skip(end)),
                end_position: end as nat,
            },
        ),
        Err(e) => Err(e),
    }
}

/// The word count as the listing prints it.
pub open spec fn word_count_text(count: nat) -> Seq<char> {
    if count != 1 {
        decimal(count) + " words"@
    } else {
        "1 word"@
    }
}

/// The reading time as the listing prints it, at 250 words a minute.
pub open spec fn read_time_text(count: nat) -> Seq<char> {
    if count < 250 {
        "&lt;1 minute read"@
    } else {
        decimal(count / 250) + " minute read"@
    }
}

/// The fields of a Metadata make sense: its date, if it has one, is one
/// that can be printed.
pub open spec fn fields_wf(fields: Fields) -> bool {
    fields.date matches Some(d) ==> d.wf()
}

/// The fields of a block while it is read.
struct Draft {
    title: Vec<char>,
    summary: Vec<char>,
    date: Option<Date>,
}

impl Draft {
    /// The fields read so far.
    spec fn fields(&self) -> Fields {
        Fields { title: self.title@, summary: self.summary@, date: self.date }
    }

    /// Reads one line of the block.
    fn read_line(&mut self, line: &Vec<char>)
        requires
            fields_wf(old(self).fields()),
        ensures
            final(self).fields() == apply_line(old(self).fields(), line@),
            fields_wf(final(self).fields()),
    {
        let colon: usize = match find_from(line, &chars_of(":"), 0) {
            Some(at) => at,
            None => {
                return ;
            },
        };
        proof {
            reveal_strlit(":");
        }
        let key = slice_of(line, 0, colon);
        let value = trim(&slice_of(line, colon + 1, line.len()));
        if same_chars(&key, &chars_of("title")) {
            self.title = value;
        } else if same_chars(&key, &chars_of("summary")) {
            self.summary = value;
        } else if same_chars(&key, &chars_of("date")) {
            match parse_date(&value) {
                Some(date) => {
                    self.date = Some(date);
                },
                None => {},
            }
        }
    }
}

/// The number of white-space characters of `chars` from `from` on.
fn count_spaces(chars: &Vec<char>, from: usize) -> (count: usize)
    requires
        from <= chars.len(),
    ensures
        count == space_count(chars@.skip(from as int)),
{
    let ghost body = chars@.skip(from as int);
    let mut count: usize = 0;
    let mut i: usize = from;
    while i < chars.len()
        invariant
            from <= i <= chars.len(),
            body == chars@.skip(from as int),
            count == space_count(body.take(i - from)),
            count <= i - from,
        decreases chars.len() - i,
    {
        proof {
            let pred = |c: char| is_space(c);
            assert(body.take(i - from + 1) == body.take(i - from).push(chars@[i as int]));
            body.take(i - from).lemma_filter_push(chars@[i as int], pred);
        }
        if is_whitespace(chars[i]) {
            count += 1;
        }
        i += 1;
    }
    assert(body.take(i - from) == body);
    count
}

impl Metadata {
    /// A date, if there is one, is one that can be printed.
    pub open spec fn wf(&self) -> bool {
        self.date matches Some(d) ==> d.wf()
    }

    /// Reads the opening block of `file`, the text of the post kept at
    /// `path`, and counts the words of its body.
    pub fn new(file: &str, path: &str) -> (made: Result<Metadata, MetadataError>)
        ensures
            match made {
                Ok(metadata) => metadata_of(file@, path@) == Ok::<MetadataView, MetadataError>(
                    metadata@,
                ) && metadata.wf() && metadata.end_position <= file@.len(),
                Err(e) => metadata_of(file@, path@) == Err::<MetadataView, MetadataError>(e),
            },
    {
        let chars = chars_of(file);
        let tildes = chars_of("~~~");
        let feed = chars_of("\n");
        let mut draft = Draft { title: Vec::new(), summary: Vec::new(), date: None };
        let mut end: usize = 0;
        proof {
            reveal_strlit("~~~");
            reveal_strlit("\n");
        }
        if starts_with_at(&chars, 0, &tildes) {
            let start: usize = first_non_space(&chars, 3);
            let mut from: usize = start;
            let mut closed = false;
            while !closed
                invariant
                    from <= chars.len(),
                    end <= chars.len(),
                    chars@ == file@,
                    matches_at(chars@, 0, marker()),
                    start == skip_spaces(chars@, 3),
                    tildes@ == marker(),
                    feed@ == "\n"@,
                    feed@.len() == 1,
                    fields_wf(draft.fields()),
                    !closed ==> scan_block(chars@, start as int, no_fields()) == scan_block(
                        chars@,
                        from as int,
                        draft.fields(),
                    ),
                    closed ==> scan_block(chars@, start as int, no_fields()) == Some(
                        (draft.fields(), end as int),
                    ),
                decreases
                        (if closed {
                            0int
                        } else {
                            1int
                        }) + chars.len() - from,
            {
                if starts_with_at(&chars, from, &tildes) {
                    end =
                    match find_from(&chars, &feed, from) {
                        Some(at) => at,
                        None => chars.len(),
                    };
                    closed = true;
                } else {
                    match find_from(&chars, &feed, from) {
                        Some(at) => {
                            let line = slice_of(&chars, from, at);
                            draft.read_line(&line);
                            from = at + 1;
                        },
                        None => {
                            return Err(MetadataError::Unterminated);
                        },
                    }
                }
            }
        }
        let spaces: usize = count_spaces(&chars, end);
        let word_count: usize = if spaces < usize::MAX {
            spaces + 1
        } else {
            spaces
        };
        Ok(
            Metadata {
                title: string_of(&draft.title),
                summary: string_of(&draft.summary),
                date: draft.date,
                link_path: link_path(path),
                real_path: path.to_owned(),
                word_count,
                end_position: end,
            },
        )
    }

    /// The word count as the listing prints it: `1 word`, `250 words`.
    pub fn word_count(&self) -> (text: String)
        ensures
            text@ == word_count_text(self.word_count as nat),
    {
        if self.word_count != 1 {
            let mut text: Vec<char> = Vec::new();
            push_decimal(&mut text, self.word_count as u64);
            append(&mut text, &chars_of(" words"));
            string_of(&text)
        } else {
            "1 word".to_owned()
        }
    }

    /// The reading time as the listing prints it, at 250 words a minute.
    pub fn read_time(&self) -> (text: String)
        ensures
            text@ == read_time_text(self.word_count as nat),
    {
        if self.word_count < 250 {
            "&lt;1 minute read".to_owned()
        } else {
            let mut text: Vec<char> = Vec::new();
            push_decimal(&mut text, (self.word_count / 250) as u64);
            append(&mut text, &chars_of(" minute read"));
            string_of(&text)
        }
    }

    /// The date in parts, if the post states one: the day as an ordinal,
    /// the name of the month, and the year.
    pub fn date(&self) -> (parts: Option<(String, String, i32)>)
        requires
            self.wf(),
        ensures
            match (parts, self.date) {
                (Some(p), Some(d)) => p.0@ == crate::date::ordinal(d.day as nat) && p.1@
                    == crate::date::month_name(d.month as int) && p.2 == d.year,
                (None, None) => true,
                _ => false,
            },
    {
        match &self.date {
            Some(d) => Some(d.parts()),
            None => None,
        }
    }
}

} // verus!
