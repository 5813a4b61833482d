//! The rebuild scheduler: one tick takes a look at the sources and makes
//! anew exactly what the changes reach.
//!
//! A tick reads nothing and writes nothing itself. It is handed the
//! catalog, the sources as they are now, and hands back a report: the
//! files to delete, the pages to write, and the listing to write. Within a
//! tick the removed sources are dealt with first, then the templates, then
//! the posts, and the listing comes last.

use crate::depgraph::{affected, affected_of};
use crate::fingerprint::{fingerprint, fingerprint_of};
use crate::keyed::{
    has_path, index_of, lemma_filter_map_step, lemma_filter_none, lemma_filter_paths,
    lemma_index_entry, lemma_map_paths, paths_differ,
};
use crate::metadata::MetadataError;
use crate::path::{
    build_path, build_path_of, classify, list_item_template_path, list_template_path,
    post_template_path, role_of, Role,
};
use crate::post::{post_of, Post, PostView};
use crate::post_list::{list_page_of, posts_marker};
use crate::posts::{metadata_of_listing, Posts, Skeletons};
use crate::text::{first_match, utf8_text};
use crate::watcher::{seen, texts, ChangeSet, Changes, Observation, Watcher};
use vstd::prelude::*;

verus! {

/// One source of the catalog: its path, and its bytes unless it could not
/// be read this time.
#[derive(Debug)]
pub struct Source {
    pub path: String,
    pub bytes: Option<Vec<u8>>,
}

impl View for Source {
    type V = (Seq<char>, Option<Seq<u8>>);

    open spec fn view(&self) -> (Seq<char>, Option<Seq<u8>>) {
        (
            self.path@,
            match self.bytes {
                Some(bytes) => Some(bytes@),
                None => None,
            },
        )
    }
}

/// The values of the sources `sources`, in their order.
pub open spec fn catalog_of(sources: Seq<Source>) -> Seq<(Seq<char>, Option<Seq<u8>>)> {
    sources.map_values(|s: Source| s@)
}

/// Why a source could not be used.
#[derive(Clone, Copy, Debug, PartialEq, Eq, Structural)]
pub enum Failure {
    /// Its bytes are not UTF-8.
    NotText,
    /// It is a post whose opening block is not closed.
    Unterminated,
    /// It is a listing skeleton without the marker where the entries go.
    NoMarker,
}

/// A page to write.
#[derive(Debug)]
pub struct Page {
    pub build_path: String,
    pub html: String,
}

/// How making the content page of one post went.
#[derive(Debug)]
pub struct Outcome {
    /// The path of the post.
    pub path: String,
    pub result: Result<Page, Failure>,
}

impl View for Outcome {
    type V = (Seq<char>, Result<(Seq<char>, Seq<char>), Failure>);

    open spec fn view(&self) -> (Seq<char>, Result<(Seq<char>, Seq<char>), Failure>) {
        (
            self.path@,
            match self.result {
                Ok(page) => Ok((page.build_path@, page.html@)),
                Err(e) => Err(e),
            },
        )
    }
}

/// A template that was not taken, and why.
#[derive(Debug)]
pub struct Rejection {
    pub path: String,
    pub reason: Failure,
}

impl View for Rejection {
    type V = (Seq<char>, Failure);

    open spec fn view(&self) -> (Seq<char>, Failure) {
        (self.path@, self.reason)
    }
}

/// Where the scheduler stands in its cycle.
#[derive(Clone, Copy, Debug, PartialEq, Eq, Structural)]
pub enum Phase {
    /// Between two ticks.
    Idle,
    /// The catalog is being taken.
    Scanning,
    /// The catalog is compared with the records.
    Diffing,
    /// The content pages that the changes reach are made anew.
    Regenerating,
    /// The listing is made anew where the changes reach it.
    AggregateCheck,
    /// A template or a directory that the site needs was missing at the
    /// start. There is no way on from here.
    Fatal,
}

/// What moves the scheduler on.
#[derive(Clone, Copy, Debug, PartialEq, Eq, Structural)]
pub enum Event {
    /// The time between two ticks has passed.
    Poll,
    /// The catalog was taken.
    Scanned,
    /// The comparison found changes.
    Changed,
    /// The comparison found no change.
    Unchanged,
    /// Every content page that was to be made anew was made or has failed.
    Regenerated,
    /// The listing was made anew, or was left as nothing reached it.
    Listed,
    /// Something that the site needs at the start is missing.
    Missing,
}

/// The phase that follows `phase` on `event`. An event that the phase does
/// not wait for leaves the phase as it is.
pub open spec fn next_phase(phase: Phase, event: Event) -> Phase {
    match (phase, event) {
        (Phase::Fatal, _) => Phase::Fatal,
        (Phase::Idle, Event::Missing) => Phase::Fatal,
        (Phase::Idle, Event::Poll) => Phase::Scanning,
        (Phase::Scanning, Event::Scanned) => Phase::Diffing,
        (Phase::Diffing, Event::Changed) => Phase::Regenerating,
        (Phase::Diffing, Event::Unchanged) => Phase::Idle,
        (Phase::Regenerating, Event::Regenerated) => Phase::AggregateCheck,
        (Phase::AggregateCheck, Event::Listed) => Phase::Idle,
        _ => phase,
    }
}

/// The phases that a tick goes through after `Idle`: the short way back
/// where nothing changed, the whole cycle where something did.
pub open spec fn phases_of(changed: bool) -> Seq<Phase> {
    if changed {
        seq![
            Phase::Scanning,
            Phase::Diffing,
            Phase::Regenerating,
            Phase::AggregateCheck,
            Phase::Idle,
        ]
    } else {
        seq![Phase::Scanning, Phase::Diffing, Phase::Idle]
    }
}

/// Moves the scheduler on from `phase` on `event`.
pub fn advance(phase: Phase, event: Event) -> (next: Phase)
    ensures
        next == next_phase(phase, event),
{
    match (phase, event) {
        (Phase::Fatal, _) => Phase::Fatal,
        (Phase::Idle, Event::Missing) => Phase::Fatal,
        (Phase::Idle, Event::Poll) => Phase::Scanning,
        (Phase::Scanning, Event::Scanned) => Phase::Diffing,
        (Phase::Diffing, Event::Changed) => Phase::Regenerating,
        (Phase::Diffing, Event::Unchanged) => Phase::Idle,
        (Phase::Regenerating, Event::Regenerated) => Phase::AggregateCheck,
        (Phase::AggregateCheck, Event::Listed) => Phase::Idle,
        _ => phase,
    }
}

/// What a tick found and made.
#[derive(Debug)]
pub struct Report {
    /// The phases that the tick went through, one after the other.
    pub phases: Vec<Phase>,
    /// What the look at the sources showed.
    pub changes: ChangeSet,
    /// The pages of removed posts: files to delete, before anything is
    /// written.
    pub deleted: Vec<String>,
    /// The templates that were not taken.
    pub rejected: Vec<Rejection>,
    /// One outcome for each content page that was to be made anew.
    pub outcomes: Vec<Outcome>,
    /// The listing page, where it was made anew.
    pub listing: Option<String>,
}

/// A file of the catalog is a source if its extension gives it a role.
pub open spec fn is_source() -> spec_fn((Seq<char>, Option<Seq<u8>>)) -> bool {
    |s: (Seq<char>, Option<Seq<u8>>)| role_of(s.0) is Some
}

/// What a look at one source shows.
pub open spec fn observation_of() -> spec_fn((Seq<char>, Option<Seq<u8>>)) -> (
    Seq<char>,
    Option<Seq<char>>,
) {
    |s: (Seq<char>, Option<Seq<u8>>)|
        (
            s.0,
            match s.1 {
                Some(bytes) => Some(fingerprint_of(bytes)),
                None => None,
            },
        )
}

/// What a look at the catalog shows: one observation for each source.
pub open spec fn observed_of(catalog: Seq<(Seq<char>, Option<Seq<u8>>)>) -> Seq<
    (Seq<char>, Option<Seq<char>>),
> {
    catalog.filter(is_source()).map_values(observation_of())
}

/// The text that `bytes` encode, if they are UTF-8.
pub open spec fn text_of(bytes: Seq<u8>) -> Option<Seq<char>> {
    if vstd::utf8::valid_utf8(bytes) {
        Some(vstd::utf8::decode_utf8(bytes))
    } else {
        None
    }
}

/// The content page of the post with the bytes `bytes` kept at `path`, or
/// why there is none.
pub open spec fn generated(template: Seq<char>, path: Seq<char>, bytes: Seq<u8>) -> Result<
    PostView,
    Failure,
> {
    match text_of(bytes) {
        Some(file) => match post_of(template, path, file) {
            Ok(post) => Ok(post),
            Err(_) => Err(Failure::Unterminated),
        },
        None => Err(Failure::NotText),
    }
}

/// The bytes of the source at `path`, if it was added or modified.
pub open spec fn touched_bytes(
    catalog: Seq<(Seq<char>, Option<Seq<u8>>)>,
    changes: Changes,
    path: Seq<char>,
) -> Option<Seq<u8>> {
    if changes.touches(path) && has_path(catalog, path) {
        index_of(catalog)[path]
    } else {
        None
    }
}

/// A skeleton after a tick: the text of its source if that was added or
/// modified, is text and, where the skeleton needs the marker, holds it;
/// else the skeleton as it was.
pub open spec fn skeleton_after(old: Seq<char>, touched: Option<Seq<u8>>, needs_marker: bool) -> Seq<
    char,
> {
    match touched {
        Some(bytes) => match text_of(bytes) {
            Some(text) => if !needs_marker || first_match(text, posts_marker(), 0).is_some() {
                text
            } else {
                old
            },
            None => old,
        },
        None => old,
    }
}

/// The rejection of the template at `path`, if it was added or modified
/// and cannot be taken.
pub open spec fn rejection_of(path: Seq<char>, touched: Option<Seq<u8>>, needs_marker: bool) -> Seq<
    (Seq<char>, Failure),
> {
    match touched {
        Some(bytes) => match text_of(bytes) {
            Some(text) => if !needs_marker || first_match(text, posts_marker(), 0).is_some() {
                Seq::empty()
            } else {
                seq![(path, Failure::NoMarker)]
            },
            None => seq![(path, Failure::NotText)],
        },
        None => Seq::empty(),
    }
}

/// The skeletons after a tick.
pub open spec fn skeletons_after(
    old: Skeletons,
    catalog: Seq<(Seq<char>, Option<Seq<u8>>)>,
    changes: Changes,
) -> Skeletons {
    Skeletons {
        post: skeleton_after(
            old.post,
            touched_bytes(catalog, changes, post_template_path()),
            false,
        ),
        list: skeleton_after(old.list, touched_bytes(catalog, changes, list_template_path()), true),
        item: skeleton_after(
            old.item,
            touched_bytes(catalog, changes, list_item_template_path()),
            false,
        ),
    }
}

/// The templates that a tick does not take: the page skeleton, the
/// listing skeleton and the entry skeleton, in this order, as far as they
/// were added or modified and cannot be taken.
pub open spec fn rejected_of(catalog: Seq<(Seq<char>, Option<Seq<u8>>)>, changes: Changes) -> Seq<
    (Seq<char>, Failure),
> {
    rejection_of(
        post_template_path(),
        touched_bytes(catalog, changes, post_template_path()),
        false,
    ) + rejection_of(
        list_template_path(),
        touched_bytes(catalog, changes, list_template_path()),
        true,
    ) + rejection_of(
        list_item_template_path(),
        touched_bytes(catalog, changes, list_item_template_path()),
        false,
    )
}

/// A path that names a post.
pub open spec fn is_post_path() -> spec_fn(Seq<char>) -> bool {
    |path: Seq<char>| role_of(path) == Some(Role::ContentItem)
}

/// The posts among the removed sources, in their order.
pub open spec fn removed_posts(changes: Changes) -> Seq<Seq<char>> {
    changes.removed.filter(is_post_path())
}

/// The files to delete: the page of each removed post.
pub open spec fn deleted_of(changes: Changes) -> Seq<Seq<char>> {
    removed_posts(changes).map_values(|path: Seq<char>| build_path_of(path))
}

/// A source whose content page is to be made anew: a post that can be read
/// and that was added or modified, or any post that can be read where
/// every content page is to be made anew.
pub open spec fn is_target(changes: Changes, every_post: bool) -> spec_fn(
    (Seq<char>, Option<Seq<u8>>),
) -> bool {
    |s: (Seq<char>, Option<Seq<u8>>)|
        role_of(s.0) == Some(Role::ContentItem) && s.1 is Some && (every_post || changes.touches(
            s.0,
        ))
}

/// How making the content page of a source goes, under the page skeleton
/// `template`.
pub open spec fn outcome_with(template: Seq<char>) -> spec_fn((Seq<char>, Option<Seq<u8>>)) -> (
    Seq<char>,
    Result<PostView, Failure>,
) {
    |s: (Seq<char>, Option<Seq<u8>>)| (s.0, generated(template, s.0, s.1->0))
}

/// The outcomes of a tick: one for each source whose content page is to
/// be made anew, in the order of the catalog.
pub open spec fn outcomes_of(
    template: Seq<char>,
    catalog: Seq<(Seq<char>, Option<Seq<u8>>)>,
    changes: Changes,
) -> Seq<(Seq<char>, Result<PostView, Failure>)> {
    catalog.filter(is_target(changes, affected_of(changes).every_post)).map_values(
        outcome_with(template),
    )
}

/// An outcome as the report holds it: of a page, where it is to be written
/// and its text.
pub open spec fn brief() -> spec_fn((Seq<char>, Result<PostView, Failure>)) -> (
    Seq<char>,
    Result<(Seq<char>, Seq<char>), Failure>,
) {
    |o: (Seq<char>, Result<PostView, Failure>)|
        (
            o.0,
            match o.1 {
                Ok(post) => Ok((post.build_path, post.html)),
                Err(e) => Err(e),
            },
        )
}

/// The pages `index` without those of the posts at `paths`.
pub open spec fn without(index: Map<Seq<char>, PostView>, paths: Seq<Seq<char>>) -> Map<
    Seq<char>,
    PostView,
>
    decreases paths.len(),
{
    if paths.len() == 0 {
        index
    } else {
        without(index, paths.drop_last()).remove(paths.last())
    }
}

/// The pages `index` with the pages that `outcomes` made, each in place of
/// the page that its post had. A failure leaves the page that its post had.
pub open spec fn with_pages(
    index: Map<Seq<char>, PostView>,
    outcomes: Seq<(Seq<char>, Result<PostView, Failure>)>,
) -> Map<Seq<char>, PostView>
    decreases outcomes.len(),
{
    if outcomes.len() == 0 {
        index
    } else {
        let before = with_pages(index, outcomes.drop_last());
        match outcomes.last().1 {
            Ok(post) => before.insert(outcomes.last().0, post),
            Err(_) => before,
        }
    }
}

/// The values of the outcomes `outcomes`, in their order.
pub open spec fn briefs(outcomes: Seq<Outcome>) -> Seq<
    (Seq<char>, Result<(Seq<char>, Seq<char>), Failure>),
> {
    outcomes.map_values(|o: Outcome| o@)
}

/// The values of the rejections `rejected`, in their order.
pub open spec fn rejections(rejected: Seq<Rejection>) -> Seq<(Seq<char>, Failure)> {
    rejected.map_values(|r: Rejection| r@)
}

/// The observations of a catalog in which no path occurs twice: no path
/// occurs twice, and a source is observed with the fingerprint of its bytes.
pub proof fn lemma_observed(catalog: Seq<(Seq<char>, Option<Seq<u8>>)>)
    requires
        paths_differ(catalog),
    ensures
        paths_differ(observed_of(catalog)),
        forall|path: Seq<char>| #[trigger]
            has_path(observed_of(catalog), path) <==> has_path(catalog, path) && role_of(path)
                is Some,
        forall|path: Seq<char>| #[trigger]
            has_path(observed_of(catalog), path) ==> index_of(observed_of(catalog))[path]
                == observation_of()((path, index_of(catalog)[path])).1,
{
    lemma_filter_paths(catalog, is_source());
    lemma_map_paths(catalog.filter(is_source()), observation_of());
}

/// Makes the content page of the post with the bytes `bytes` kept at
/// `path`. Fails, with the reason, where the bytes are not UTF-8 or the
/// opening block of the post is not closed, and nowhere else.
pub fn generate(post_template: &str, path: &str, bytes: &[u8]) -> (made: Result<Post, Failure>)
    ensures
        match made {
            Ok(post) => generated(post_template@, path@, bytes@) == Ok::<PostView, Failure>(post@)
                && post.wf(),
            Err(e) => generated(post_template@, path@, bytes@) == Err::<PostView, Failure>(e),
        },
{
    match utf8_text(bytes) {
        Some(file) => match Post::new(post_template, path, file) {
            Ok(post) => Ok(post),
            Err(_) => Err(Failure::Unterminated),
        },
        None => Err(Failure::NotText),
    }
}

/// Whether no path occurs twice in the catalog.
pub fn distinct_paths(catalog: &Vec<Source>) -> (distinct: bool)
    ensures
        distinct == paths_differ(catalog_of(catalog@)),
{
    let ghost cat = catalog_of(catalog@);
    let mut i: usize = 0;
    while i < catalog.len()
        invariant
            i <= catalog@.len(),
            cat == catalog_of(catalog@),
            forall|a: int, b: int| 0 <= a < b < i ==> (#[trigger] cat[a]).0 != (#[trigger] cat[b]).0,
        decreases catalog.len() - i,
    {
        let mut k: usize = 0;
        while k < i
            invariant
                k <= i < catalog@.len(),
                cat == catalog_of(catalog@),
                forall|a: int| 0 <= a < k ==> (#[trigger] cat[a]).0 != cat[i as int].0,
            decreases i - k,
        {
            if catalog[k].path == catalog[i].path {
                assert(cat[k as int].0 == cat[i as int].0);
                return false;
            }
            k += 1;
        }
        i += 1;
    }
    true
}

/// Takes a look at the catalog: one observation for each source, with
/// the fingerprint of its bytes.
fn observe(catalog: &Vec<Source>) -> (observed: Vec<Observation>)
    ensures
        seen(observed@) == observed_of(catalog_of(catalog@)),
{
    let ghost cat = catalog_of(catalog@);
    let mut observed: Vec<Observation> = Vec::new();
    let mut i: usize = 0;
    while i < catalog.len()
        invariant
            i <= catalog@.len(),
            cat == catalog_of(catalog@),
            seen(observed@) == cat.take(i as int).filter(is_source()).map_values(observation_of()),
        decreases catalog.len() - i,
    {
        proof {
            lemma_filter_map_step(cat, i as int, is_source(), observation_of());
            assert(cat[i as int] == catalog@[i as int]@);
        }
        let source = &catalog[i];
        if classify(source.path.as_str()).is_some() {
            let print: Option<String> = match &source.bytes {
                Some(bytes) => Some(fingerprint(bytes.as_slice())),
                None => None,
            };
            let ghost before = seen(observed@);
            observed.push(Observation { path: source.path.clone(), fingerprint: print });
            assert(seen(observed@) == before.push(observation_of()(cat[i as int])));
        }
        i += 1;
    }
    assert(cat.take(i as int) == cat);
    observed
}

/// The bytes of the source at `path`, if it was added or modified.
fn touched_source<'a>(catalog: &'a Vec<Source>, changes: &ChangeSet, path: &str) -> (bytes: Option<
    &'a Vec<u8>,
>)
    requires
        paths_differ(catalog_of(catalog@)),
    ensures
        match bytes {
            Some(b) => touched_bytes(catalog_of(catalog@), changes@, path@) == Some(b@),
            None => touched_bytes(catalog_of(catalog@), changes@, path@) is None,
        },
{
    if !changes.touches(path) {
        return None;
    }
    let ghost cat = catalog_of(catalog@);
    let wanted = path.to_owned();
    let mut i: usize = 0;
    while i < catalog.len()
        invariant
            i <= catalog@.len(),
            cat == catalog_of(catalog@),
            paths_differ(cat),
            wanted@ == path@,
            changes@.touches(path@),
            forall|j: int| 0 <= j < i ==> (#[trigger] cat[j]).0 != path@,
        decreases catalog.len() - i,
    {
        assert(cat[i as int] == catalog@[i as int]@);
        if catalog[i].path == wanted {
            proof {
                lemma_index_entry(cat, i as int);
            }
            return match &catalog[i].bytes {
                Some(bytes) => Some(bytes),
                None => None,
            };
        }
        i += 1;
    }
    None
}

/// Takes the pages of the removed posts out of the store, and gives the
/// files to delete.
fn drop_removed(posts: &mut Posts, changes: &ChangeSet) -> (deleted: Vec<String>)
    requires
        old(posts).wf(),
    ensures
        final(posts).wf(),
        final(posts).index() == without(old(posts).index(), removed_posts(changes@)),
        texts(deleted@) == deleted_of(changes@),
        changes@.removed.len() == 0 ==> final(posts).listing() == old(posts).listing(),
        final(posts).list_skeleton() == old(posts).list_skeleton(),
        final(posts).item_skeleton() == old(posts).item_skeleton(),
        final(posts).post_skeleton() == old(posts).post_skeleton(),
{
    let ghost removed = changes@.removed;
    let ghost page = |path: Seq<char>| build_path_of(path);
    let mut deleted: Vec<String> = Vec::new();
    let mut i: usize = 0;
    while i < changes.removed.len()
        invariant
            i <= changes.removed@.len(),
            removed == changes@.removed,
            page == |path: Seq<char>| build_path_of(path),
            posts.wf(),
            posts.index() == without(old(posts).index(), removed.take(i as int).filter(is_post_path())),
            texts(deleted@) == removed.take(i as int).filter(is_post_path()).map_values(page),
            i == 0 ==> posts.listing() == old(posts).listing(),
            posts.list_skeleton() == old(posts).list_skeleton(),
            posts.item_skeleton() == old(posts).item_skeleton(),
            posts.post_skeleton() == old(posts).post_skeleton(),
        decreases changes.removed.len() - i,
    {
        proof {
            lemma_filter_map_step(removed, i as int, is_post_path(), page);
            assert(removed[i as int] == changes.removed@[i as int]@);
        }
        let path = changes.removed[i].as_str();
        if classify(path) == Some(Role::ContentItem) {
            let ghost gone = removed.take(i as int).filter(is_post_path());
            posts.remove(path);
            let ghost before = texts(deleted@);
            deleted.push(build_path(path));
            proof {
                assert(texts(deleted@) == before.push(build_path_of(path@)));
                assert(gone.push(path@).drop_last() == gone);
            }
        }
        i += 1;
    }
    assert(removed.take(i as int) == removed);
    deleted
}

/// Takes the skeletons whose sources were added or modified, and gives
/// those that cannot be taken.
fn take_templates(posts: &mut Posts, catalog: &Vec<Source>, changes: &ChangeSet) -> (rejected: Vec<
    Rejection,
>)
    requires
        old(posts).wf(),
        paths_differ(catalog_of(catalog@)),
    ensures
        final(posts).wf(),
        final(posts).listing() == old(posts).listing(),
        final(posts).skeletons() == skeletons_after(
            old(posts).skeletons(),
            catalog_of(catalog@),
            changes@,
        ),
        rejections(rejected@) == rejected_of(catalog_of(catalog@), changes@),
{
    let mut rejected: Vec<Rejection> = Vec::new();
    match touched_source(catalog, changes, "templates/post.html") {
        Some(bytes) => match utf8_text(bytes.as_slice()) {
            Some(text) => {
                posts.set_post_template(text.to_owned());
            },
            None => {
                rejected.push(
                    Rejection { path: "templates/post.html".to_owned(), reason: Failure::NotText },
                );
            },
        },
        None => {},
    }
    assert(rejections(rejected@) == rejection_of(
        post_template_path(),
        touched_bytes(catalog_of(catalog@), changes@, post_template_path()),
        false,
    ));
    let ghost first = rejections(rejected@);
    match touched_source(catalog, changes, "templates/post_list.html") {
        Some(bytes) => match utf8_text(bytes.as_slice()) {
            Some(text) => {
                if !posts.set_list_template(text.to_owned()) {
                    rejected.push(
                        Rejection {
                            path: "templates/post_list.html".to_owned(),
                            reason: Failure::NoMarker,
                        },
                    );
                }
            },
            None => {
                rejected.push(
                    Rejection {
                        path: "templates/post_list.html".to_owned(),
                        reason: Failure::NotText,
                    },
                );
            },
        },
        None => {},
    }
    assert(rejections(rejected@) == first + rejection_of(
        list_template_path(),
        touched_bytes(catalog_of(catalog@), changes@, list_template_path()),
        true,
    ));
    let ghost second = rejections(rejected@);
    match touched_source(catalog, changes, "templates/post_list_item.html") {
        Some(bytes) => match utf8_text(bytes.as_slice()) {
            Some(text) => {
                posts.set_list_item_template(text.to_owned());
            },
            None => {
                rejected.push(
                    Rejection {
                        path: "templates/post_list_item.html".to_owned(),
                        reason: Failure::NotText,
                    },
                );
            },
        },
        None => {},
    }
    assert(rejections(rejected@) == second + rejection_of(
        list_item_template_path(),
        touched_bytes(catalog_of(catalog@), changes@, list_item_template_path()),
        false,
    ));
    rejected
}

/// Makes anew the content pages that the changes reach, and puts those
/// that could be made into the store.
fn regenerate(posts: &mut Posts, catalog: &Vec<Source>, changes: &ChangeSet) -> (outcomes: Vec<
    Outcome,
>)
    requires
        old(posts).wf(),
    ensures
        final(posts).wf(),
        briefs(outcomes@) == outcomes_of(
            old(posts).post_skeleton(),
            catalog_of(catalog@),
            changes@,
        ).map_values(brief()),
        final(posts).index() == with_pages(
            old(posts).index(),
            outcomes_of(old(posts).post_skeleton(), catalog_of(catalog@), changes@),
        ),
        final(posts).list_skeleton() == old(posts).list_skeleton(),
        final(posts).item_skeleton() == old(posts).item_skeleton(),
        final(posts).post_skeleton() == old(posts).post_skeleton(),
{
    let every_post = affected(changes).every_post;
    let template = posts.post_template().to_owned();
    let ghost cat = catalog_of(catalog@);
    let ghost wanted = is_target(changes@, every_post);
    let ghost make = outcome_with(template@);
    let mut outcomes: Vec<Outcome> = Vec::new();
    let mut i: usize = 0;
    while i < catalog.len()
        invariant
            i <= catalog@.len(),
            cat == catalog_of(catalog@),
            wanted == is_target(changes@, every_post),
            make == outcome_with(template@),
            template@ == old(posts).post_skeleton(),
            posts.wf(),
            briefs(outcomes@) == cat.take(i as int).filter(wanted).map_values(make).map_values(
                brief(),
            ),
            posts.index() == with_pages(
                old(posts).index(),
                cat.take(i as int).filter(wanted).map_values(make),
            ),
            posts.list_skeleton() == old(posts).list_skeleton(),
            posts.item_skeleton() == old(posts).item_skeleton(),
            posts.post_skeleton() == old(posts).post_skeleton(),
        decreases catalog.len() - i,
    {
        proof {
            lemma_filter_map_step(cat, i as int, wanted, make);
            assert(cat[i as int] == catalog@[i as int]@);
        }
        let source = &catalog[i];
        let ghost done = cat.take(i as int).filter(wanted).map_values(make);
        if classify(source.path.as_str()) == Some(Role::ContentItem) {
            match &source.bytes {
                Some(bytes) => {
                    if every_post || changes.touches(source.path.as_str()) {
                        let ghost before = briefs(outcomes@);
                        let made = generate(
                            template.as_str(),
                            source.path.as_str(),
                            bytes.as_slice(),
                        );
                        let ghost outcome = make(cat[i as int]);
                        match made {
                            Ok(post) => {
                                let page = Page {
                                    build_path: post.build_path.clone(),
                                    html: post.html.clone(),
                                };
                                posts.insert(source.path.clone(), post);
                                outcomes.push(
                                    Outcome { path: source.path.clone(), result: Ok(page) },
                                );
                            },
                            Err(e) => {
                                outcomes.push(Outcome { path: source.path.clone(), result: Err(e) });
                            },
                        }
                        proof {
                            assert(briefs(outcomes@) == before.push(brief()(outcome)));
                            assert(done.push(outcome).map_values(brief()) == done.map_values(
                                brief(),
                            ).push(brief()(outcome)));
                            assert(done.push(outcome).drop_last() == done);
                        }
                    }
                },
                None => {},
            }
        }
        i += 1;
    }
    assert(cat.take(i as int) == cat);
    outcomes
}

/// The rebuild scheduler: the records of the sources and the store of the
/// pages, which nothing else changes.
pub struct Scheduler {
    watcher: Watcher,
    posts: Posts,
}

impl Scheduler {
    /// The records of the sources from the last tick.
    pub closed spec fn records(&self) -> Seq<(Seq<char>, Seq<char>)> {
        self.watcher.records()
    }

    /// The pages of the store in the order of the listing.
    pub closed spec fn listing(&self) -> Seq<(Seq<char>, PostView)> {
        self.posts.listing()
    }

    /// The pages of the store by the paths of their posts.
    pub open spec fn index(&self) -> Map<Seq<char>, PostView> {
        index_of(self.listing())
    }

    /// The three skeletons of the site as they are now.
    pub closed spec fn skeletons(&self) -> Skeletons {
        self.posts.skeletons()
    }

    /// The records and the store are in order, and the store holds pages
    /// of recorded posts only.
    pub closed spec fn wf(&self) -> bool {
        self.watcher.wf() && self.posts.wf() && covered(
            index_of(self.posts.listing()),
            self.watcher.records(),
        )
    }

    /// What `wf` says of the store and the records.
    pub proof fn lemma_wf(&self)
        requires
            self.wf(),
        ensures
            paths_differ(self.records()),
            paths_differ(self.listing()),
            crate::posts::sorted(self.listing()),
            covered(self.index(), self.records()),
    {
        self.posts.lemma_wf();
    }

    /// A scheduler that knows no source and has no page, with the three
    /// skeletons, if the listing skeleton holds the marker where the
    /// entries go.
    pub fn new(list_template: String, list_item_template: String, post_template: String) -> (made:
        Option<Scheduler>)
        ensures
            made is Some <==> first_match(list_template@, posts_marker(), 0).is_some(),
            made matches Some(scheduler) ==> scheduler.wf() && scheduler.records().len() == 0
                && scheduler.listing().len() == 0 && scheduler.skeletons() == (Skeletons {
                post: post_template@,
                list: list_template@,
                item: list_item_template@,
            }),
    {
        match Posts::new(list_template, list_item_template, post_template) {
            Some(posts) => Some(Scheduler { watcher: Watcher::new(), posts }),
            None => None,
        }
    }

    /// The store of the pages.
    pub fn posts(&self) -> (posts: &Posts)
        ensures
            posts.listing() == self.listing(),
            self.wf() ==> posts.wf(),
    {
        &self.posts
    }

    /// The records of the sources.
    pub fn watcher(&self) -> (watcher: &Watcher)
        ensures
            watcher.records() == self.records(),
            self.wf() ==> watcher.wf(),
    {
        &self.watcher
    }

    /// Marks the record of the source at `path` as stale, so that the next
    /// tick finds the source modified and makes anew what it reaches: the
    /// way to try again after a page could not be written. The store stays
    /// as it is.
    pub fn retry(&mut self, path: &str) -> (known: bool)
        requires
            old(self).wf(),
        ensures
            final(self).wf(),
            known == has_path(old(self).records(), path@),
            final(self).records() == old(self).records().map_values(crate::watcher::staled(path@)),
            final(self).listing() == old(self).listing(),
            final(self).skeletons() == old(self).skeletons(),
    {
        proof {
            lemma_map_paths(self.watcher.records(), crate::watcher::staled(path@));
        }
        self.watcher.invalidate(path)
    }

    /// One tick. Looks at the sources of `catalog`, brings the records up
    /// to date, and where anything changed: takes the pages of removed
    /// posts out of the store, takes the templates that changed, makes the
    /// content pages anew that the changes reach, and makes the listing
    /// anew. Where nothing changed, nothing is made and the store stays
    /// as it is.
    pub fn tick(&mut self, catalog: &Vec<Source>) -> (report: Report)
        requires
            old(self).wf(),
            paths_differ(catalog_of(catalog@)),
        ensures
            final(self).wf(),
            report.phases@ == phases_of(!report.changes@.is_empty()),
            report.changes@ == changes_of_tick(old(self).records(), catalog_of(catalog@)),
            final(self).records() == crate::watcher::records_after(
                observed_of(catalog_of(catalog@)),
                old(self).records(),
            ),
            final(self).skeletons() == skeletons_after(
                old(self).skeletons(),
                catalog_of(catalog@),
                report.changes@,
            ),
            texts(report.deleted@) == deleted_of(report.changes@),
            rejections(report.rejected@) == rejected_of(catalog_of(catalog@), report.changes@),
            briefs(report.outcomes@) == outcomes_of(
                final(self).skeletons().post,
                catalog_of(catalog@),
                report.changes@,
            ).map_values(brief()),
            final(self).index() == with_pages(
                without(old(self).index(), removed_posts(report.changes@)),
                outcomes_of(final(self).skeletons().post, catalog_of(catalog@), report.changes@),
            ),
            report.changes@.is_empty() ==> final(self).listing() == old(self).listing(),
            crate::posts::sorted(final(self).listing()),
            paths_differ(final(self).listing()),
            forall|path: Seq<char>| #[trigger]
                final(self).index().dom().contains(path) ==> has_path(catalog_of(catalog@), path),
            match report.listing {
                Some(page) => !report.changes@.is_empty() && list_page_of(
                    final(self).skeletons().list,
                    final(self).skeletons().item,
                    metadata_of_listing(final(self).listing()),
                ) == Some(page@),
                None => report.changes@.is_empty(),
            },
    {
        let ghost cat = catalog_of(catalog@);
        let mut phases: Vec<Phase> = Vec::new();
        let mut phase = advance(Phase::Idle, Event::Poll);
        phases.push(phase);
        let observed = observe(catalog);
        proof {
            lemma_observed(cat);
        }
        phase = advance(phase, Event::Scanned);
        phases.push(phase);
        let changes = self.watcher.update(&observed);
        if changes.is_empty() {
            proof {
                lemma_quiet(cat, changes@, self.posts.post_skeleton());
                lemma_store_covered(
                    old(self).watcher.records(),
                    cat,
                    index_of(old(self).posts.listing()),
                    self.posts.post_skeleton(),
                );
            }
            phase = advance(phase, Event::Unchanged);
            phases.push(phase);
            assert(phases@ == phases_of(false));
            proof {
                self.posts.lemma_wf();
            }
            return Report {
                phases,
                changes,
                deleted: Vec::new(),
                rejected: Vec::new(),
                outcomes: Vec::new(),
                listing: None,
            };
        }
        phase = advance(phase, Event::Changed);
        phases.push(phase);
        let deleted = drop_removed(&mut self.posts, &changes);
        let rejected = take_templates(&mut self.posts, catalog, &changes);
        let outcomes = regenerate(&mut self.posts, catalog, &changes);
        proof {
            lemma_store_covered(
                old(self).watcher.records(),
                cat,
                index_of(old(self).posts.listing()),
                self.posts.post_skeleton(),
            );
        }
        phase = advance(phase, Event::Regenerated);
        phases.push(phase);
        let listing = self.posts.build();
        phase = advance(phase, Event::Listed);
        phases.push(phase);
        assert(phases@ == phases_of(true));
        proof {
            self.posts.lemma_wf();
        }
        Report { phases, changes, deleted, rejected, outcomes, listing: Some(listing) }
    }
}

/// The pages `index` are pages of posts that `records` hold.
pub open spec fn covered(index: Map<Seq<char>, PostView>, records: Seq<(Seq<char>, Seq<char>)>) -> bool {
    forall|path: Seq<char>| #[trigger]
        index.dom().contains(path) ==> role_of(path) == Some(Role::ContentItem) && has_path(
            records,
            path,
        )
}

/// The pages without those of the posts at `paths` hold none for any of
/// them, and none that the pages did not hold.
pub proof fn lemma_without(index: Map<Seq<char>, PostView>, paths: Seq<Seq<char>>)
    ensures
        forall|path: Seq<char>| #[trigger]
            without(index, paths).dom().contains(path) <==> index.dom().contains(path)
                && !paths.contains(path),
        forall|path: Seq<char>| #[trigger]
            without(index, paths).dom().contains(path) ==> without(index, paths)[path]
                == index[path],
    decreases paths.len(),
{
    if paths.len() > 0 {
        let front = paths.drop_last();
        let last = paths.last();
        lemma_without(index, front);
        assert(without(index, paths) == without(index, front).remove(last));
        assert forall|path: Seq<char>|
            paths.contains(path) <==> front.contains(path) || path == last by {
            if paths.contains(path) {
                let i = choose|i: int| 0 <= i < paths.len() && paths[i] == path;
                if i < paths.len() - 1 {
                    assert(front[i] == path);
                }
            }
            if front.contains(path) {
                let i = choose|i: int| 0 <= i < front.len() && front[i] == path;
                assert(paths[i] == path);
            }
            if path == last {
                assert(paths[paths.len() - 1] == path);
            }
        }
        assert forall|path: Seq<char>| #[trigger]
            without(index, paths).dom().contains(path) <==> index.dom().contains(path)
                && !paths.contains(path) by {
            assert(without(index, front).dom().contains(path) <==> index.dom().contains(path)
                && !front.contains(path));
        }
        assert forall|path: Seq<char>| #[trigger]
            without(index, paths).dom().contains(path) implies without(index, paths)[path]
            == index[path] by {
            assert(without(index, front).dom().contains(path));
        }
    }
}

/// The pages `index` hold the page that `outcome` made, if it made one.
pub open spec fn holds_page(
    index: Map<Seq<char>, PostView>,
    outcome: (Seq<char>, Result<PostView, Failure>),
) -> bool {
    match outcome.1 {
        Ok(post) => index.dom().contains(outcome.0) && index[outcome.0] == post,
        Err(_) => true,
    }
}

/// The pages with those that outcomes made hold a page for a path exactly
/// if they held one or an outcome made one. Where the outcomes have
/// different paths, the page that an outcome made is the page held.
pub proof fn lemma_with_pages(
    index: Map<Seq<char>, PostView>,
    outcomes: Seq<(Seq<char>, Result<PostView, Failure>)>,
)
    ensures
        forall|path: Seq<char>| #[trigger]
            with_pages(index, outcomes).dom().contains(path) ==> index.dom().contains(path)
                || has_path(outcomes, path),
        forall|path: Seq<char>| #[trigger]
            index.dom().contains(path) ==> with_pages(index, outcomes).dom().contains(path),
        forall|path: Seq<char>| #[trigger]
            with_pages(index, outcomes).dom().contains(path) && !has_path(outcomes, path)
                ==> with_pages(index, outcomes)[path] == index[path],
        paths_differ(outcomes) ==> forall|i: int|
            0 <= i < outcomes.len() ==> holds_page(
                with_pages(index, outcomes),
                #[trigger] outcomes[i],
            ),
    decreases outcomes.len(),
{
    if outcomes.len() > 0 {
        let front = outcomes.drop_last();
        let last = outcomes.last();
        lemma_with_pages(index, front);
        assert forall|path: Seq<char>| has_path(front, path) implies has_path(outcomes, path) by {
            let i = choose|i: int| 0 <= i < front.len() && (#[trigger] front[i]).0 == path;
            assert(outcomes[i] == front[i]);
        }
        assert(has_path(outcomes, last.0)) by {
            assert(outcomes[outcomes.len() - 1] == last);
        }
        let before = with_pages(index, front);
        assert(with_pages(index, outcomes) == match last.1 {
            Ok(post) => before.insert(last.0, post),
            Err(_) => before,
        });
        assert forall|path: Seq<char>| #[trigger]
            with_pages(index, outcomes).dom().contains(path) implies index.dom().contains(path)
            || has_path(outcomes, path) by {
            if path != last.0 {
                assert(before.dom().contains(path));
            }
        }
        assert forall|path: Seq<char>| #[trigger]
            with_pages(index, outcomes).dom().contains(path) && !has_path(
                outcomes,
                path,
            ) implies with_pages(index, outcomes)[path] == index[path] by {
            assert(before.dom().contains(path));
            assert(!has_path(front, path));
        }
        if paths_differ(outcomes) {
            assert(paths_differ(front)) by {
                assert forall|i: int, j: int|
                    0 <= i < front.len() && 0 <= j < front.len() && i != j implies (
                #[trigger] front[i]).0 != (#[trigger] front[j]).0 by {
                    assert(front[i] == outcomes[i]);
                    assert(front[j] == outcomes[j]);
                }
            }
            assert forall|i: int| 0 <= i < outcomes.len() implies holds_page(
                with_pages(index, outcomes),
                #[trigger] outcomes[i],
            ) by {
                if i < outcomes.len() - 1 {
                    assert(front[i] == outcomes[i]);
                    assert(outcomes[outcomes.len() - 1] == last);
                    assert(outcomes[i].0 != last.0);
                }
            }
        }
    }
}

/// The store after a tick holds pages of posts of the catalog only, and
/// the records hold each of them: a page whose post is gone does not stay.
pub proof fn lemma_store_covered(
    records: Seq<(Seq<char>, Seq<char>)>,
    catalog: Seq<(Seq<char>, Option<Seq<u8>>)>,
    index: Map<Seq<char>, PostView>,
    template: Seq<char>,
)
    requires
        paths_differ(records),
        paths_differ(catalog),
        covered(index, records),
    ensures
        ({
            let changes = changes_of_tick(records, catalog);
            let after = with_pages(
                without(index, removed_posts(changes)),
                outcomes_of(template, catalog, changes),
            );
            &&& covered(after, crate::watcher::records_after(observed_of(catalog), records))
            &&& forall|path: Seq<char>| #[trigger]
                after.dom().contains(path) ==> has_path(catalog, path)
        }),
{
    let observed = observed_of(catalog);
    let changes = changes_of_tick(records, catalog);
    let gone = removed_posts(changes);
    let outcomes = outcomes_of(template, catalog, changes);
    let after = with_pages(without(index, gone), outcomes);
    let wanted = is_target(changes, affected_of(changes).every_post);
    lemma_observed(catalog);
    crate::watcher::lemma_records_after(observed, records);
    lemma_without(index, gone);
    lemma_with_pages(without(index, gone), outcomes);
    lemma_filter_paths(catalog, wanted);
    lemma_map_paths(catalog.filter(wanted), outcome_with(template));
    lemma_filter_paths(records, crate::watcher::is_gone(observed));
    assert forall|path: Seq<char>| #[trigger] after.dom().contains(path) implies role_of(path)
        == Some(Role::ContentItem) && has_path(
        crate::watcher::records_after(observed, records),
        path,
    ) && has_path(catalog, path) by {
        if has_path(outcomes, path) {
            assert(has_path(catalog.filter(wanted), path));
            assert(has_path(catalog, path));
            assert(has_path(observed, path));
        } else {
            assert(index.dom().contains(path));
            assert(!gone.contains(path));
            if !has_path(observed, path) {
                let lost = records.filter(crate::watcher::is_gone(observed));
                assert(has_path(lost, path));
                let k = choose|k: int| 0 <= k < lost.len() && (#[trigger] lost[k]).0 == path;
                assert(changes.removed[k] == path);
                changes.removed.lemma_filter_contains(is_post_path(), k);
                assert(false);
            }
        }
    }
}

/// What a tick finds to have changed.
pub open spec fn changes_of_tick(
    records: Seq<(Seq<char>, Seq<char>)>,
    catalog: Seq<(Seq<char>, Option<Seq<u8>>)>,
) -> Changes {
    crate::watcher::changes_of(observed_of(catalog), records)
}

/// Where nothing changed, a tick has nothing to delete, takes no template
/// and makes no page.
pub proof fn lemma_quiet(
    catalog: Seq<(Seq<char>, Option<Seq<u8>>)>,
    changes: Changes,
    template: Seq<char>,
)
    requires
        changes.is_empty(),
    ensures
        deleted_of(changes) == Seq::<Seq<char>>::empty(),
        removed_posts(changes) == Seq::<Seq<char>>::empty(),
        rejected_of(catalog, changes) == Seq::<(Seq<char>, Failure)>::empty(),
        outcomes_of(template, catalog, changes) == Seq::<
            (Seq<char>, Result<PostView, Failure>),
        >::empty(),
        forall|old: Skeletons| #[trigger] skeletons_after(old, catalog, changes) == old,
        !affected_of(changes).every_post,
{
    assert(changes.removed == Seq::<Seq<char>>::empty());
    lemma_filter_none(changes.removed, is_post_path());
    assert(deleted_of(changes) == Seq::<Seq<char>>::empty());
    assert(!affected_of(changes).every_post);
    assert forall|path: Seq<char>| !changes.touches(path) by {}
    lemma_filter_none(catalog, is_target(changes, false));
    assert(outcomes_of(template, catalog, changes) == Seq::<
        (Seq<char>, Result<PostView, Failure>),
    >::empty());
    assert(rejected_of(catalog, changes) == Seq::<(Seq<char>, Failure)>::empty());
}

} // verus!
