//! The dependency graph of the site: which pages a change reaches.
//!
//! | changed                            | to be made anew                  |
//! |------------------------------------|----------------------------------|
//! | the page skeleton                  | every content page, the listing  |
//! | a listing skeleton                 | the listing                      |
//! | a post, added or modified          | its content page, the listing    |
//! | a post, removed                    | the listing; its page is deleted |
//!
//! A template that the site does not name counts as the page skeleton: it
//! may be part of any page.

use crate::path::{classify, role_of, template_kind, template_kind_of, Role, TemplateKind};
use crate::watcher::{texts, ChangeSet, Changes};
use vstd::prelude::*;

verus! {

/// The pages that a set of changes reaches, beside the content pages of
/// the posts that were added or modified themselves.
#[derive(Clone, Copy, Debug, PartialEq, Eq, Structural)]
pub struct Affected {
    /// The content page of every post is to be made anew.
    pub every_post: bool,
    /// The listing page is to be made anew.
    pub listing: bool,
}

/// A change of the source at `path` reaches every content page.
pub open spec fn reaches_every_post(path: Seq<char>) -> bool {
    role_of(path) == Some(Role::Template) && (template_kind_of(path) == TemplateKind::Post
        || template_kind_of(path) == TemplateKind::Other)
}

/// One of `paths` names a source whose change reaches every content page.
pub open spec fn any_reaches_every_post(paths: Seq<Seq<char>>) -> bool {
    exists|i: int| 0 <= i < paths.len() && reaches_every_post(#[trigger] paths[i])
}

/// What the changes `changes` reach: every content page where a source
/// that reaches them all was added or modified, and the listing whenever
/// anything changed at all.
pub open spec fn affected_of(changes: Changes) -> Affected {
    Affected {
        every_post: any_reaches_every_post(changes.added) || any_reaches_every_post(
            changes.modified,
        ),
        listing: !changes.is_empty(),
    }
}

/// Whether one of `paths` names a source whose change reaches every
/// content page.
fn any_reaches(paths: &Vec<String>) -> (found: bool)
    ensures
        found == any_reaches_every_post(texts(paths@)),
{
    let mut i: usize = 0;
    while i < paths.len()
        invariant
            i <= paths@.len(),
            forall|j: int| 0 <= j < i ==> !reaches_every_post(#[trigger] texts(paths@)[j]),
        decreases paths.len() - i,
    {
        let path = paths[i].as_str();
        assert(texts(paths@)[i as int] == path@);
        if classify(path) == Some(Role::Template) {
            let kind = template_kind(path);
            if kind == TemplateKind::Post || kind == TemplateKind::Other {
                return true;
            }
        }
        i += 1;
    }
    false
}

/// Says which pages the changes `changes` reach.
pub fn affected(changes: &ChangeSet) -> (reached: Affected)
    ensures
        reached == affected_of(changes@),
{
    Affected {
        every_post: any_reaches(&changes.added) || any_reaches(&changes.modified),
        listing: !changes.is_empty(),
    }
}

} // verus!
