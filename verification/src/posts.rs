//! The store of generated pages, keyed by the path of the post that each
//! was made from, together with the three skeletons of the site.
//!
//! The store keeps its pages in the order in which the listing shows them:
//! the latest date first, posts without a date last, and posts that the
//! date does not tell apart in the order of their paths.

use crate::date::Date;
use crate::keyed::{
    has_path, index_of, lemma_index_entry, lemma_index_insert, lemma_index_remove,
    lemma_index_without, paths_differ,
};
use crate::metadata::{Metadata, MetadataView};
use crate::post::{Post, PostView};
use crate::post_list::{all_wf, has_marker, list_page_of, page, posts_marker, views_of};
use crate::text::{chars_of, first_match};
use vstd::prelude::*;

verus! {

/// `a` comes before `b` in the order of the dictionary, from position `i`
/// on, where the characters are ordered by their code points.
pub open spec fn lex_less_from(a: Seq<char>, b: Seq<char>, i: int) -> bool
    decreases b.len() - i,
{
    if i < 0 || i >= b.len() {
        false
    } else if i >= a.len() {
        true
    } else if a[i] == b[i] {
        lex_less_from(a, b, i + 1)
    } else {
        (a[i] as u32) < (b[i] as u32)
    }
}

/// `a` comes before `b` in the order of the dictionary.
pub open spec fn lex_less(a: Seq<char>, b: Seq<char>) -> bool {
    lex_less_from(a, b, 0)
}

/// The post kept at `a_path` with date `a_date` is listed before the one
/// kept at `b_path` with date `b_date`.
pub open spec fn listed_before(
    a_date: Option<Date>,
    a_path: Seq<char>,
    b_date: Option<Date>,
    b_path: Seq<char>,
) -> bool {
    match (a_date, b_date) {
        (Some(a), Some(b)) => a.is_after(b) || (a == b && lex_less(a_path, b_path)),
        (Some(_), None) => true,
        (None, Some(_)) => false,
        (None, None) => lex_less(a_path, b_path),
    }
}

/// The first entry of the pair is listed before the second.
pub open spec fn entry_before(a: (Seq<char>, PostView), b: (Seq<char>, PostView)) -> bool {
    listed_before(a.1.metadata.date, a.0, b.1.metadata.date, b.0)
}

/// Each entry of `listing` is listed before all that follow it.
pub open spec fn sorted(listing: Seq<(Seq<char>, PostView)>) -> bool {
    forall|i: int, j: int|
        0 <= i < j < listing.len() ==> entry_before(#[trigger] listing[i], #[trigger] listing[j])
}

/// The metadata of the entries of `listing`, in their order.
pub open spec fn metadata_of_listing(listing: Seq<(Seq<char>, PostView)>) -> Seq<MetadataView> {
    listing.map_values(|e: (Seq<char>, PostView)| e.1.metadata)
}

/// The order of the dictionary is transitive.
pub proof fn lemma_lex_less_transitive(a: Seq<char>, b: Seq<char>, c: Seq<char>, i: int)
    requires
        0 <= i,
        lex_less_from(a, b, i),
        lex_less_from(b, c, i),
    ensures
        lex_less_from(a, c, i),
    decreases b.len() - i,
{
    if i < a.len() && a[i] == b[i] && b[i] == c[i] {
        lemma_lex_less_transitive(a, b, c, i + 1);
    }
}

/// Of two different texts that agree up to position `i`, one comes
/// before the other in the order of the dictionary.
pub proof fn lemma_lex_less_total(a: Seq<char>, b: Seq<char>, i: int)
    requires
        0 <= i <= a.len(),
        i <= b.len(),
        a.take(i) == b.take(i),
        a != b,
    ensures
        lex_less_from(a, b, i) || lex_less_from(b, a, i),
    decreases a.len() - i,
{
    if i >= a.len() && i >= b.len() {
        assert(a.take(i) == a);
        assert(b.take(i) == b);
    } else if i < a.len() && i < b.len() && a[i] == b[i] {
        assert(a.take(i + 1) == a.take(i).push(a[i]));
        assert(b.take(i + 1) == b.take(i).push(b[i]));
        lemma_lex_less_total(a, b, i + 1);
    } else if i < a.len() && i < b.len() {
        vstd::utf8::char_u32_cast(a[i], a[i] as u32);
        vstd::utf8::char_u32_cast(b[i], b[i] as u32);
    }
}

/// Of two posts at different paths, one is listed before the other.
pub proof fn lemma_listed_before_total(
    a_date: Option<Date>,
    a_path: Seq<char>,
    b_date: Option<Date>,
    b_path: Seq<char>,
)
    requires
        a_path != b_path,
    ensures
        listed_before(a_date, a_path, b_date, b_path) || listed_before(
            b_date,
            b_path,
            a_date,
            a_path,
        ),
{
    assert(a_path.take(0) == b_path.take(0));
    lemma_lex_less_total(a_path, b_path, 0);
}

/// Being listed before is transitive.
pub proof fn lemma_listed_before_transitive(
    a_date: Option<Date>,
    a_path: Seq<char>,
    b_date: Option<Date>,
    b_path: Seq<char>,
    c_date: Option<Date>,
    c_path: Seq<char>,
)
    requires
        listed_before(a_date, a_path, b_date, b_path),
        listed_before(b_date, b_path, c_date, c_path),
    ensures
        listed_before(a_date, a_path, c_date, c_path),
{
    if lex_less(a_path, b_path) && lex_less(b_path, c_path) {
        lemma_lex_less_transitive(a_path, b_path, c_path, 0);
    }
}

/// Whether `a` comes before `b` in the order of the dictionary.
pub fn lex_before(a: &Vec<char>, b: &Vec<char>) -> (less: bool)
    ensures
        less == lex_less(a@, b@),
{
    let mut i: usize = 0;
    loop
        invariant
            i <= a.len(),
            i <= b.len(),
            lex_less(a@, b@) == lex_less_from(a@, b@, i as int),
        decreases b.len() - i,
    {
        if i >= b.len() {
            return false;
        }
        if i >= a.len() {
            return true;
        }
        if a[i] != b[i] {
            return (a[i] as u32) < (b[i] as u32);
        }
        i += 1;
    }
}

/// The three skeletons of the site.
pub struct Skeletons {
    pub post: Seq<char>,
    pub list: Seq<char>,
    pub item: Seq<char>,
}

/// A page with the path of the post it was made from.
struct Entry {
    path: String,
    post: Post,
}

impl Entry {
    /// The value of the entry.
    spec fn listed(&self) -> (Seq<char>, PostView) {
        (self.path@, self.post@)
    }
}

/// The store of generated pages and the skeletons of the site.
pub struct Posts {
    posts: Vec<Entry>,
    list_template: String,
    list_item_template: String,
    post_template: String,
}

impl Posts {
    /// The entries of the store in the order of the listing: each page with
    /// the path of the post it was made from.
    pub closed spec fn listing(&self) -> Seq<(Seq<char>, PostView)> {
        self.posts@.map_values(|e: Entry| e.listed())
    }

    /// The pages of the store by the paths of their posts.
    pub open spec fn index(&self) -> Map<Seq<char>, PostView> {
        index_of(self.listing())
    }

    /// The skeleton of the listing page.
    pub closed spec fn list_skeleton(&self) -> Seq<char> {
        self.list_template@
    }

    /// The skeleton of one entry of the listing page.
    pub closed spec fn item_skeleton(&self) -> Seq<char> {
        self.list_item_template@
    }

    /// The skeleton of the content pages.
    pub closed spec fn post_skeleton(&self) -> Seq<char> {
        self.post_template@
    }

    /// The three skeletons as they are now.
    pub open spec fn skeletons(&self) -> Skeletons {
        Skeletons {
            post: self.post_skeleton(),
            list: self.list_skeleton(),
            item: self.item_skeleton(),
        }
    }

    /// Every page has metadata that make sense.
    spec fn posts_wf(&self) -> bool {
        forall|i: int| 0 <= i < self.posts@.len() ==> (#[trigger] self.posts@[i]).post.wf()
    }

    /// The store is in order: no path occurs twice, the entries stand as
    /// the listing shows them, every page has metadata that make sense, and
    /// the listing skeleton holds the marker where the entries go.
    pub closed spec fn wf(&self) -> bool {
        &&& paths_differ(self.listing())
        &&& sorted(self.listing())
        &&& self.posts_wf()
        &&& first_match(self.list_template@, posts_marker(), 0).is_some()
    }

    /// What `wf` says of the listing and of the listing skeleton.
    pub proof fn lemma_wf(&self)
        requires
            self.wf(),
        ensures
            paths_differ(self.listing()),
            sorted(self.listing()),
            first_match(self.list_skeleton(), posts_marker(), 0).is_some(),
            forall|i: int|
                0 <= i < self.listing().len() ==> (#[trigger] self.listing()[i]).1.metadata.wf(),
    {
        assert forall|i: int| 0 <= i < self.listing().len() implies (
        #[trigger] self.listing()[i]).1.metadata.wf() by {
            assert(self.posts@[i].post.wf());
        }
    }

    /// An empty store with the three skeletons, if the listing skeleton
    /// holds the marker where the entries go.
    pub fn new(list_template: String, list_item_template: String, post_template: String) -> (made:
        Option<Posts>)
        ensures
            made is Some <==> first_match(list_template@, posts_marker(), 0).is_some(),
            made matches Some(posts) ==> posts.wf() && posts.listing().len() == 0
                && posts.list_skeleton() == list_template@ && posts.item_skeleton()
                == list_item_template@ && posts.post_skeleton() == post_template@,
    {
        if has_marker(list_template.as_str()) {
            Some(Posts { posts: Vec::new(), list_template, list_item_template, post_template })
        } else {
            None
        }
    }

    /// Takes the three skeletons anew, if the new listing skeleton holds
    /// the marker where the entries go; else nothing changes. The pages
    /// stay as they are.
    pub fn update_templates(
        &mut self,
        list_template: String,
        list_item_template: String,
        post_template: String,
    ) -> (taken: bool)
        requires
            old(self).wf(),
        ensures
            final(self).wf(),
            final(self).listing() == old(self).listing(),
            taken == first_match(list_template@, posts_marker(), 0).is_some(),
            taken ==> final(self).list_skeleton() == list_template@ && final(self).item_skeleton()
                == list_item_template@ && final(self).post_skeleton() == post_template@,
            !taken ==> final(self).skeletons() == old(self).skeletons(),
    {
        if has_marker(list_template.as_str()) {
            self.list_template = list_template;
            self.list_item_template = list_item_template;
            self.post_template = post_template;
            true
        } else {
            false
        }
    }

    /// Takes a new skeleton for the content pages.
    pub fn set_post_template(&mut self, post_template: String)
        requires
            old(self).wf(),
        ensures
            final(self).wf(),
            final(self).listing() == old(self).listing(),
            final(self).post_skeleton() == post_template@,
            final(self).list_skeleton() == old(self).list_skeleton(),
            final(self).item_skeleton() == old(self).item_skeleton(),
    {
        self.post_template = post_template;
    }

    /// Takes a new skeleton for the entries of the listing.
    pub fn set_list_item_template(&mut self, list_item_template: String)
        requires
            old(self).wf(),
        ensures
            final(self).wf(),
            final(self).listing() == old(self).listing(),
            final(self).item_skeleton() == list_item_template@,
            final(self).list_skeleton() == old(self).list_skeleton(),
            final(self).post_skeleton() == old(self).post_skeleton(),
    {
        self.list_item_template = list_item_template;
    }

    /// Takes a new skeleton for the listing page, if it holds the marker
    /// where the entries go; else the old one stays.
    pub fn set_list_template(&mut self, list_template: String) -> (taken: bool)
        requires
            old(self).wf(),
        ensures
            final(self).wf(),
            final(self).listing() == old(self).listing(),
            taken == first_match(list_template@, posts_marker(), 0).is_some(),
            final(self).list_skeleton() == if taken {
                list_template@
            } else {
                old(self).list_skeleton()
            },
            final(self).item_skeleton() == old(self).item_skeleton(),
            final(self).post_skeleton() == old(self).post_skeleton(),
    {
        if has_marker(list_template.as_str()) {
            self.list_template = list_template;
            true
        } else {
            false
        }
    }

    /// The skeleton of the content pages.
    pub fn post_template(&self) -> (text: &str)
        ensures
            text@ == self.post_skeleton(),
    {
        self.post_template.as_str()
    }

    /// The skeleton of the listing page.
    pub fn list_template(&self) -> (text: &str)
        ensures
            text@ == self.list_skeleton(),
    {
        self.list_template.as_str()
    }

    /// The skeleton of one entry of the listing page.
    pub fn list_item_template(&self) -> (text: &str)
        ensures
            text@ == self.item_skeleton(),
    {
        self.list_item_template.as_str()
    }

    /// The position of the page made from the post at `path`.
    fn position(&self, path: &str) -> (at: Option<usize>)
        ensures
            match at {
                Some(i) => i < self.posts@.len() && self.posts@[i as int].path@ == path@,
                None => !has_path(self.listing(), path@),
            },
    {
        let wanted = path.to_owned();
        let mut i: usize = 0;
        while i < self.posts.len()
            invariant
                i <= self.posts@.len(),
                wanted@ == path@,
                forall|j: int| 0 <= j < i ==> self.posts@[j].path@ != path@,
            decreases self.posts.len() - i,
        {
            if self.posts[i].path == wanted {
                return Some(i);
            }
            i += 1;
        }
        assert forall|j: int| 0 <= j < self.listing().len() implies (
        #[trigger] self.listing()[j]).0 != path@ by {
            assert(self.listing()[j] == self.posts@[j].listed());
        }
        None
    }

    /// The number of pages in the store.
    pub fn len(&self) -> (count: usize)
        ensures
            count == self.listing().len(),
    {
        self.posts.len()
    }

    /// The page made from the post at `path`, if the store has one.
    pub fn get(&self, path: &str) -> (found: Option<&Post>)
        requires
            self.wf(),
        ensures
            match found {
                Some(post) => self.index().dom().contains(path@) && self.index()[path@] == post@
                    && post.wf(),
                None => !self.index().dom().contains(path@),
            },
    {
        match self.position(path) {
            Some(i) => {
                proof {
                    assert(self.listing()[i as int] == self.posts@[i as int].listed());
                    lemma_index_entry(self.listing(), i as int);
                }
                Some(&self.posts[i].post)
            },
            None => None,
        }
    }

    /// Takes the page made from the post at `path` out of the store, and
    /// says whether the store had one.
    pub fn remove(&mut self, path: &str) -> (had: bool)
        requires
            old(self).wf(),
        ensures
            final(self).wf(),
            had == old(self).index().dom().contains(path@),
            final(self).index() == old(self).index().remove(path@),
            !has_path(final(self).listing(), path@),
            final(self).list_skeleton() == old(self).list_skeleton(),
            final(self).item_skeleton() == old(self).item_skeleton(),
            final(self).post_skeleton() == old(self).post_skeleton(),
    {
        match self.position(path) {
            Some(i) => {
                let ghost before = self.listing();
                proof {
                    assert(before[i as int] == self.posts@[i as int].listed());
                    lemma_index_remove(before, i as int);
                }
                self.posts.remove(i);
                proof {
                    assert(self.listing() =~= before.remove(i as int));
                    assert forall|k: int| 0 <= k < self.posts@.len() implies (
                    #[trigger] self.posts@[k]).post.wf() by {
                        if k < i {
                            assert(self.posts@[k] == old(self).posts@[k]);
                        } else {
                            assert(self.posts@[k] == old(self).posts@[k + 1]);
                        }
                    }
                    assert forall|a: int, b: int| 0 <= a < b < self.listing().len() implies
                        entry_before(#[trigger] self.listing()[a], #[trigger] self.listing()[b]) by {
                        let oa = if a < i {
                            a
                        } else {
                            a + 1
                        };
                        let ob = if b < i {
                            b
                        } else {
                            b + 1
                        };
                        assert(self.listing()[a] == before[oa]);
                        assert(self.listing()[b] == before[ob]);
                    }
                }
                true
            },
            None => {
                proof {
                    lemma_index_without(self.listing(), path@);
                }
                false
            },
        }
    }

    /// Puts the page `post`, made from the post at `path`, into the store,
    /// in place of the page that the store has for that path, if any.
    pub fn insert(&mut self, path: String, post: Post)
        requires
            old(self).wf(),
            post.wf(),
        ensures
            final(self).wf(),
            final(self).index() == old(self).index().insert(path@, post@),
            final(self).list_skeleton() == old(self).list_skeleton(),
            final(self).item_skeleton() == old(self).item_skeleton(),
            final(self).post_skeleton() == old(self).post_skeleton(),
    {
        self.remove(path.as_str());
        let ghost before = self.listing();
        let ghost entry = (path@, post@);
        let key = chars_of(path.as_str());
        let mut at: usize = 0;
        while at < self.posts.len() && !Self::goes_before(&post.metadata.date, &key, &self.posts[at])
            invariant
                at <= self.posts@.len(),
                key@ == path@,
                before == self.listing(),
                entry == (path@, post@),
                forall|i: int| 0 <= i < at ==> !entry_before(entry, #[trigger] before[i]),
            decreases self.posts.len() - at,
        {
            assert(before[at as int] == self.posts@[at as int].listed());
            at += 1;
        }
        proof {
            if at < self.posts@.len() {
                assert(before[at as int] == self.posts@[at as int].listed());
            }
            lemma_index_insert(before, at as int, entry);
            let after = before.insert(at as int, entry);
            assert forall|a: int, b: int| 0 <= a < b < after.len() implies entry_before(
                #[trigger] after[a],
                #[trigger] after[b],
            ) by {
                if b == at {
                    assert(after[a] == before[a]);
                    lemma_listed_before_total(
                        entry.1.metadata.date,
                        entry.0,
                        before[a].1.metadata.date,
                        before[a].0,
                    );
                } else if a == at {
                    assert(after[b] == before[b - 1]);
                    if b - 1 > at {
                        lemma_listed_before_transitive(
                            entry.1.metadata.date,
                            entry.0,
                            before[at as int].1.metadata.date,
                            before[at as int].0,
                            before[b - 1].1.metadata.date,
                            before[b - 1].0,
                        );
                    }
                } else {
                    let oa = if a < at {
                        a
                    } else {
                        a - 1
                    };
                    let ob = if b < at {
                        b
                    } else {
                        b - 1
                    };
                    assert(after[a] == before[oa]);
                    assert(after[b] == before[ob]);
                }
            }
        }
        let ghost posts_before = self.posts@;
        self.posts.insert(at, Entry { path, post });
        proof {
            assert(self.listing() =~= before.insert(at as int, entry));
            assert forall|k: int| 0 <= k < self.posts@.len() implies (
            #[trigger] self.posts@[k]).post.wf() by {
                if k < at {
                    assert(self.posts@[k] == posts_before[k]);
                } else if k > at {
                    assert(self.posts@[k] == posts_before[k - 1]);
                }
            }
        }
    }

    /// Whether the post at `path` with date `date` is listed before `other`.
    fn goes_before(date: &Option<Date>, path: &Vec<char>, other: &Entry) -> (before: bool)
        ensures
            before == listed_before(*date, path@, other.post.metadata.date, other.path@),
    {
        match (date, &other.post.metadata.date) {
            (Some(a), Some(b)) => a.after(b) || (a.day == b.day && a.month == b.month && a.year
                == b.year && lex_before(path, &chars_of(other.path.as_str()))),
            (Some(_), None) => true,
            (None, Some(_)) => false,
            (None, None) => lex_before(path, &chars_of(other.path.as_str())),
        }
    }

    /// The pages of the store in the order of the listing.
    pub fn all(&self) -> (pages: Vec<&Post>)
        ensures
            pages@.len() == self.listing().len(),
            forall|i: int| 0 <= i < pages@.len() ==> (#[trigger] pages@[i])@ == self.listing()[i].1,
    {
        let mut pages: Vec<&Post> = Vec::new();
        let mut i: usize = 0;
        while i < self.posts.len()
            invariant
                i <= self.posts@.len(),
                pages@.len() == i,
                forall|j: int| 0 <= j < i ==> (#[trigger] pages@[j])@ == self.listing()[j].1,
            decreases self.posts.len() - i,
        {
            pages.push(&self.posts[i].post);
            i += 1;
        }
        pages
    }

    /// Makes the listing page from the pages of the store.
    pub fn build(&self) -> (made: String)
        requires
            self.wf(),
        ensures
            list_page_of(
                self.list_skeleton(),
                self.item_skeleton(),
                metadata_of_listing(self.listing()),
            ) == Some(made@),
    {
        let mut listed: Vec<&Metadata> = Vec::new();
        let mut i: usize = 0;
        while i < self.posts.len()
            invariant
                i <= self.posts@.len(),
                listed@.len() == i,
                self.posts_wf(),
                forall|j: int| 0 <= j < i ==> *(#[trigger] listed@[j]) == self.posts@[j].post.metadata,
            decreases self.posts.len() - i,
        {
            listed.push(&self.posts[i].post.metadata);
            i += 1;
        }
        proof {
            assert forall|j: int| 0 <= j < listed@.len() implies (#[trigger] listed@[j]).wf() by {
                assert(self.posts@[j].post.wf());
            }
            assert(views_of(listed@) =~= metadata_of_listing(self.listing()));
        }
        match page(self.list_template.as_str(), self.list_item_template.as_str(), &listed) {
            Some(made) => made,
            None => String::new(),
        }
    }
}

} // verus!
