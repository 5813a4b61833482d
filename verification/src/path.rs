//! Source paths: what kind of source a path names, and where its output
//! goes. A path is text whose components `/` separates.

use crate::text::{append, chars_of, same_chars, slice_of, string_of};
use vstd::prelude::*;

verus! {

/// The part that a source plays in the site.
#[derive(Clone, Copy, Debug, PartialEq, Eq, Structural)]
pub enum Role {
    /// A text skeleton with placeholders.
    Template,
    /// A document that becomes one page of the site.
    ContentItem,
}

/// Which of the site's templates a template source is.
#[derive(Clone, Copy, Debug, PartialEq, Eq, Structural)]
pub enum TemplateKind {
    /// The skeleton of every content page.
    Post,
    /// The skeleton of the listing page.
    List,
    /// The skeleton of one entry of the listing page.
    ListItem,
    /// A template file that the site does not name.
    Other,
}

/// The position of the last `c` before position `to` in `s`, or -1.
pub open spec fn last_index_of(s: Seq<char>, c: char, to: int) -> int
    decreases to,
{
    if to <= 0 || to > s.len() {
        -1
    } else if s[to - 1] == c {
        to - 1
    } else {
        last_index_of(s, c, to - 1)
    }
}

/// The last component of `path`: what follows its last `/`.
pub open spec fn file_name_of(path: Seq<char>) -> Seq<char> {
    path.skip(last_index_of(path, '/', path.len() as int) + 1)
}

/// The extension of `path`: what follows the last `.` of its file name,
/// unless that `.` opens the file name or the file name has none.
pub open spec fn extension_of(path: Seq<char>) -> Option<Seq<char>> {
    let name = file_name_of(path);
    let dot = last_index_of(name, '.', name.len() as int);
    if dot <= 0 {
        None
    } else {
        Some(name.skip(dot + 1))
    }
}

/// `c`, or its lower-case form if it is an ASCII capital.
pub open spec fn ascii_lower(c: char) -> char {
    if 0x41 <= c as u32 <= 0x5A {
        ((c as u32) + 0x20) as u8 as char
    } else {
        c
    }
}

/// `s` with each ASCII capital in lower case.
pub open spec fn ascii_lowered(s: Seq<char>) -> Seq<char> {
    s.map_values(|c: char| ascii_lower(c))
}

/// The role that a path's extension gives it: `md` in any mix of cases is
/// content, `html` is a template, anything else is no source.
pub open spec fn role_of(path: Seq<char>) -> Option<Role> {
    match extension_of(path) {
        Some(extension) => if ascii_lowered(extension) == "md"@ {
            Some(Role::ContentItem)
        } else if ascii_lowered(extension) == "html"@ {
            Some(Role::Template)
        } else {
            None
        },
        None => None,
    }
}

/// Where the skeleton of the content pages is kept.
pub open spec fn post_template_path() -> Seq<char> {
    "templates/post.html"@
}

/// Where the skeleton of the listing page is kept.
pub open spec fn list_template_path() -> Seq<char> {
    "templates/post_list.html"@
}

/// Where the skeleton of a listing entry is kept.
pub open spec fn list_item_template_path() -> Seq<char> {
    "templates/post_list_item.html"@
}

/// Which template a template path names.
pub open spec fn template_kind_of(path: Seq<char>) -> TemplateKind {
    if path == post_template_path() {
        TemplateKind::Post
    } else if path == list_template_path() {
        TemplateKind::List
    } else if path == list_item_template_path() {
        TemplateKind::ListItem
    } else {
        TemplateKind::Other
    }
}

/// The file name of the page made from the content file named `name`: the
/// last two characters of `name` give way to `html`.
pub open spec fn output_name_of(name: Seq<char>) -> Seq<char> {
    let stem = if name.len() >= 2 {
        name.take(name.len() - 2)
    } else {
        Seq::empty()
    };
    stem + "html"@
}

/// The file name under which the listing links to the page made from
/// `path`: the file name of `path` with `html` for its extension.
pub open spec fn link_path_of(path: Seq<char>) -> Seq<char> {
    let name = file_name_of(path);
    let dot = last_index_of(name, '.', name.len() as int);
    if name.len() == 0 {
        Seq::empty()
    } else if dot <= 0 {
        name + "."@ + "html"@
    } else {
        name.take(dot + 1) + "html"@
    }
}

/// Where the page made from the content file `path` is written.
pub open spec fn build_path_of(path: Seq<char>) -> Seq<char> {
    "build/"@ + output_name_of(file_name_of(path))
}

/// Where the listing page is written.
pub open spec fn list_build_path() -> Seq<char> {
    "build/post_list.html"@
}

/// The position of the last `c` in `s`, if there is one.
fn last_index(s: &Vec<char>, c: char) -> (at: Option<usize>)
    ensures
        match at {
            Some(i) => i < s.len() && i == last_index_of(s@, c, s.len() as int),
            None => last_index_of(s@, c, s.len() as int) == -1,
        },
{
    let mut i: usize = s.len();
    while i > 0
        invariant
            i <= s.len(),
            last_index_of(s@, c, s.len() as int) == last_index_of(s@, c, i as int),
        decreases i,
    {
        if s[i - 1] == c {
            return Some(i - 1);
        }
        i -= 1;
    }
    None
}

/// The last component of `path`.
pub fn file_name(path: &Vec<char>) -> (name: Vec<char>)
    ensures
        name@ == file_name_of(path@),
{
    match last_index(path, '/') {
        Some(i) => slice_of(path, i + 1, path.len()),
        None => {
            assert(path@.skip(0) == path@);
            slice_of(path, 0, path.len())
        },
    }
}

/// The extension of `path`, if it has one.
pub fn extension(path: &Vec<char>) -> (ext: Option<Vec<char>>)
    ensures
        match ext {
            Some(e) => extension_of(path@) == Some(e@),
            None => extension_of(path@) is None,
        },
{
    let name = file_name(path);
    match last_index(&name, '.') {
        Some(dot) => {
            if dot == 0 {
                None
            } else {
                Some(slice_of(&name, dot + 1, name.len()))
            }
        },
        None => None,
    }
}

/// `c`, or its lower-case form if it is an ASCII capital.
fn lower(c: char) -> (l: char)
    ensures
        l == ascii_lower(c),
{
    let u: u32 = c as u32;
    if 0x41 <= u && u <= 0x5A {
        ((u + 0x20) as u8) as char
    } else {
        c
    }
}

/// `s` with each ASCII capital in lower case.
fn lowered(s: &Vec<char>) -> (out: Vec<char>)
    ensures
        out@ == ascii_lowered(s@),
{
    let mut out: Vec<char> = Vec::new();
    let mut i: usize = 0;
    while i < s.len()
        invariant
            i <= s.len(),
            out@.len() == i,
            forall|j: int| 0 <= j < i ==> out@[j] == ascii_lower(s@[j]),
        decreases s.len() - i,
    {
        out.push(lower(s[i]));
        i += 1;
    }
    assert(out@ =~= ascii_lowered(s@));
    out
}

/// The role of the source that `path` names, if it names one.
pub fn classify(path: &str) -> (role: Option<Role>)
    ensures
        role == role_of(path@),
{
    let chars = chars_of(path);
    match extension(&chars) {
        Some(ext) => {
            let low = lowered(&ext);
            if same_chars(&low, &chars_of("md")) {
                Some(Role::ContentItem)
            } else if same_chars(&low, &chars_of("html")) {
                Some(Role::Template)
            } else {
                None
            }
        },
        None => None,
    }
}

/// Which of the site's templates `path` names.
pub fn template_kind(path: &str) -> (kind: TemplateKind)
    ensures
        kind == template_kind_of(path@),
{
    let chars = chars_of(path);
    if same_chars(&chars, &chars_of("templates/post.html")) {
        TemplateKind::Post
    } else if same_chars(&chars, &chars_of("templates/post_list.html")) {
        TemplateKind::List
    } else if same_chars(&chars, &chars_of("templates/post_list_item.html")) {
        TemplateKind::ListItem
    } else {
        TemplateKind::Other
    }
}

/// The file name of the page made from the content file named `name`.
pub fn output_name(name: &Vec<char>) -> (out: Vec<char>)
    ensures
        out@ == output_name_of(name@),
{
    let mut out: Vec<char> = if name.len() >= 2 {
        slice_of(name, 0, name.len() - 2)
    } else {
        Vec::new()
    };
    append(&mut out, &chars_of("html"));
    out
}

/// The file name under which the listing links to the page made from `path`.
pub fn link_path(path: &str) -> (link: String)
    ensures
        link@ == link_path_of(path@),
{
    let chars = chars_of(path);
    let name = file_name(&chars);
    if name.len() == 0 {
        return String::new();
    }
    let mut out: Vec<char> = match last_index(&name, '.') {
        Some(dot) => {
            if dot == 0 {
                let mut whole = slice_of(&name, 0, name.len());
                whole.push('.');
                proof {
                    reveal_strlit(".");
                    assert(whole@ == name@ + "."@);
                }
                whole
            } else {
                slice_of(&name, 0, dot + 1)
            }
        },
        None => {
            let mut whole = slice_of(&name, 0, name.len());
            whole.push('.');
            proof {
                reveal_strlit(".");
                assert(whole@ == name@ + "."@);
            }
            whole
        },
    };
    append(&mut out, &chars_of("html"));
    string_of(&out)
}

/// Where the page made from the content file `path` is written.
pub fn build_path(path: &str) -> (out: String)
    ensures
        out@ == build_path_of(path@),
{
    let chars = chars_of(path);
    let name = file_name(&chars);
    let mut out = chars_of("build/");
    append(&mut out, &output_name(&name));
    string_of(&out)
}

} // verus!
