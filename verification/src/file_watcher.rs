//! The source catalog of the posts: which entries of a directory are
//! posts, and whether a new look at the directory shows another picture.

use crate::keyed::lemma_filter_map_step;
use crate::path::{classify, role_of, Role};
use vstd::prelude::*;

verus! {

/// One entry of a directory as a walk over it reports it.
#[derive(Debug)]
pub struct DirEntry {
    pub path: String,
    pub is_folder: bool,
    /// The fingerprint of the entry's bytes; empty for a folder.
    pub fingerprint: String,
}

impl View for DirEntry {
    type V = (Seq<char>, bool, Seq<char>);

    open spec fn view(&self) -> (Seq<char>, bool, Seq<char>) {
        (self.path@, self.is_folder, self.fingerprint@)
    }
}

/// The values of the entries `entries`, in their order.
pub open spec fn entries_of(entries: Seq<DirEntry>) -> Seq<(Seq<char>, bool, Seq<char>)> {
    entries.map_values(|e: DirEntry| e@)
}

/// An entry that is a post: no folder, and content by its extension.
pub open spec fn is_post() -> spec_fn((Seq<char>, bool, Seq<char>)) -> bool {
    |e: (Seq<char>, bool, Seq<char>)| !e.1 && role_of(e.0) == Some(Role::ContentItem)
}

/// The posts among the entries of a directory, in their order.
pub open spec fn posts_of(entries: Seq<(Seq<char>, bool, Seq<char>)>) -> Seq<
    (Seq<char>, bool, Seq<char>),
> {
    entries.filter(is_post())
}

/// The picture of the posts of a directory from the last look at it.
pub struct FileWatcher {
    files: Vec<DirEntry>,
}

/// Whether `a` and `b` hold the same entries in the same order.
fn same_entries(a: &Vec<DirEntry>, b: &Vec<DirEntry>) -> (same: bool)
    ensures
        same == (entries_of(a@) == entries_of(b@)),
{
    if a.len() != b.len() {
        assert(entries_of(a@).len() != entries_of(b@).len());
        return false;
    }
    let mut i: usize = 0;
    while i < a.len()
        invariant
            i <= a@.len(),
            a@.len() == b@.len(),
            forall|j: int| 0 <= j < i ==> (#[trigger] a@[j])@ == b@[j]@,
        decreases a.len() - i,
    {
        if a[i].path != b[i].path || a[i].is_folder != b[i].is_folder || a[i].fingerprint
            != b[i].fingerprint {
            assert(entries_of(a@)[i as int] != entries_of(b@)[i as int]);
            return false;
        }
        i += 1;
    }
    assert(entries_of(a@) =~= entries_of(b@));
    true
}

/// The posts among `entries`, in their order.
fn keep_posts(entries: Vec<DirEntry>) -> (files: Vec<DirEntry>)
    ensures
        entries_of(files@) == posts_of(entries_of(entries@)),
{
    let ghost all = entries_of(entries@);
    let mut files: Vec<DirEntry> = Vec::new();
    let mut i: usize = 0;
    while i < entries.len()
        invariant
            i <= entries@.len(),
            all == entries_of(entries@),
            entries_of(files@) == all.take(i as int).filter(is_post()),
        decreases entries.len() - i,
    {
        proof {
            lemma_filter_map_step(
                all,
                i as int,
                is_post(),
                |e: (Seq<char>, bool, Seq<char>)| e,
            );
            assert(all[i as int] == entries@[i as int]@);
        }
        let entry = &entries[i];
        if !entry.is_folder && classify(entry.path.as_str()) == Some(Role::ContentItem) {
            let ghost before = entries_of(files@);
            files.push(
                DirEntry {
                    path: entry.path.clone(),
                    is_folder: entry.is_folder,
                    fingerprint: entry.fingerprint.clone(),
                },
            );
            assert(entries_of(files@) == before.push(all[i as int]));
        }
        i += 1;
    }
    assert(all.take(i as int) == all);
    files
}

impl FileWatcher {
    /// The posts of the picture, in the order of the directory.
    pub closed spec fn files(&self) -> Seq<(Seq<char>, bool, Seq<char>)> {
        entries_of(self.files@)
    }

    /// The picture of the posts among `entries`.
    pub fn new(entries: Vec<DirEntry>) -> (watcher: FileWatcher)
        ensures
            watcher.files() == posts_of(entries_of(entries@)),
    {
        FileWatcher { files: keep_posts(entries) }
    }

    /// The number of posts in the picture.
    pub fn len(&self) -> (count: usize)
        ensures
            count == self.files().len(),
    {
        self.files.len()
    }

    /// Takes the picture of the posts among `entries`, and says whether it
    /// differs from the picture held before.
    pub fn update(&mut self, entries: Vec<DirEntry>) -> (changed: bool)
        ensures
            final(self).files() == posts_of(entries_of(entries@)),
            changed == (old(self).files() != posts_of(entries_of(entries@))),
    {
        let files = keep_posts(entries);
        if same_entries(&self.files, &files) {
            false
        } else {
            self.files = files;
            true
        }
    }
}

} // verus!
