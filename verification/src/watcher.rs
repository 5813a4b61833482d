//! The change detector: what is known of the sources from the last look,
//! and what a new look at them shows to be added, modified or removed.
//!
//! Sources are told apart by their fingerprints alone. A source that is
//! there and cannot be read counts as unchanged.

use crate::keyed::{
    has_path, index_of, lemma_concat_paths, lemma_filter_map_step, lemma_filter_paths,
    lemma_index_entry, lemma_map_paths, paths_differ, paths_of,
};
use crate::path::{classify, role_of, Role};
use vstd::prelude::*;

verus! {

/// What a look at one source shows: its path, and the fingerprint of its
/// bytes unless it could not be read.
#[derive(Debug)]
pub struct Observation {
    pub path: String,
    pub fingerprint: Option<String>,
}

impl View for Observation {
    type V = (Seq<char>, Option<Seq<char>>);

    open spec fn view(&self) -> (Seq<char>, Option<Seq<char>>) {
        (
            self.path@,
            match self.fingerprint {
                Some(print) => Some(print@),
                None => None,
            },
        )
    }
}

/// The values of the observations `observed`, in their order.
pub open spec fn seen(observed: Seq<Observation>) -> Seq<(Seq<char>, Option<Seq<char>>)> {
    observed.map_values(|o: Observation| o@)
}

/// The texts of the strings `strings`, in their order.
pub open spec fn texts(strings: Seq<String>) -> Seq<Seq<char>> {
    strings.map_values(|s: String| s@)
}

/// The paths of the sources that a look shows to differ from what was
/// known.
#[derive(Debug)]
pub struct ChangeSet {
    /// Readable now, and not known before.
    pub added: Vec<String>,
    /// Readable now, and known before with another fingerprint.
    pub modified: Vec<String>,
    /// Known before, and not there now.
    pub removed: Vec<String>,
}

/// The mathematical value of a `ChangeSet`.
pub struct Changes {
    pub added: Seq<Seq<char>>,
    pub modified: Seq<Seq<char>>,
    pub removed: Seq<Seq<char>>,
}

impl View for ChangeSet {
    type V = Changes;

    open spec fn view(&self) -> Changes {
        Changes {
            added: texts(self.added@),
            modified: texts(self.modified@),
            removed: texts(self.removed@),
        }
    }
}

impl Changes {
    /// Nothing was added, modified or removed.
    pub open spec fn is_empty(self) -> bool {
        self.added.len() == 0 && self.modified.len() == 0 && self.removed.len() == 0
    }

    /// The source at `path` was added or modified.
    pub open spec fn touches(self, path: Seq<char>) -> bool {
        self.added.contains(path) || self.modified.contains(path)
    }
}

/// An observation of a source that can be read and was not known.
pub open spec fn is_added(records: Seq<(Seq<char>, Seq<char>)>) -> spec_fn(
    (Seq<char>, Option<Seq<char>>),
) -> bool {
    |o: (Seq<char>, Option<Seq<char>>)| o.1 is Some && !has_path(records, o.0)
}

/// An observation of a source that can be read and was known with another
/// fingerprint.
pub open spec fn is_modified(records: Seq<(Seq<char>, Seq<char>)>) -> spec_fn(
    (Seq<char>, Option<Seq<char>>),
) -> bool {
    |o: (Seq<char>, Option<Seq<char>>)|
        o.1 is Some && has_path(records, o.0) && index_of(records)[o.0] != o.1->0
}

/// A record of a source that is there now.
pub open spec fn is_kept(observed: Seq<(Seq<char>, Option<Seq<char>>)>) -> spec_fn(
    (Seq<char>, Seq<char>),
) -> bool {
    |r: (Seq<char>, Seq<char>)| has_path(observed, r.0)
}

/// A record of a source that is not there now.
pub open spec fn is_gone(observed: Seq<(Seq<char>, Option<Seq<char>>)>) -> spec_fn(
    (Seq<char>, Seq<char>),
) -> bool {
    |r: (Seq<char>, Seq<char>)| !has_path(observed, r.0)
}

/// A record with the fingerprint that is observed now, or with its own
/// where the source cannot be read now.
pub open spec fn refreshed(observed: Seq<(Seq<char>, Option<Seq<char>>)>) -> spec_fn(
    (Seq<char>, Seq<char>),
) -> (Seq<char>, Seq<char>) {
    |r: (Seq<char>, Seq<char>)|
        (
            r.0,
            match index_of(observed)[r.0] {
                Some(print) => print,
                None => r.1,
            },
        )
}

/// The fingerprint of a record that is stale: a text that is the
/// fingerprint of no bytes.
pub open spec fn stale() -> Seq<char> {
    "!"@
}

/// A record as it is, or stale if it is the record of the source at `path`.
pub open spec fn staled(path: Seq<char>) -> spec_fn((Seq<char>, Seq<char>)) -> (
    Seq<char>,
    Seq<char>,
) {
    |r: (Seq<char>, Seq<char>)|
        if r.0 == path {
            (r.0, stale())
        } else {
            r
        }
}

/// The record that a first readable observation makes.
pub open spec fn first_record() -> spec_fn((Seq<char>, Option<Seq<char>>)) -> (
    Seq<char>,
    Seq<char>,
) {
    |o: (Seq<char>, Option<Seq<char>>)| (o.0, o.1->0)
}

/// What the observations `observed` show to have changed since `records`
/// were taken: the added and the modified in the order of the
/// observations, the removed in the order of the records.
pub open spec fn changes_of(
    observed: Seq<(Seq<char>, Option<Seq<char>>)>,
    records: Seq<(Seq<char>, Seq<char>)>,
) -> Changes {
    Changes {
        added: paths_of(observed.filter(is_added(records))),
        modified: paths_of(observed.filter(is_modified(records))),
        removed: paths_of(records.filter(is_gone(observed))),
    }
}

/// The records after the observations `observed`: those of the sources
/// that are still there, each with the fingerprint observed now, and then
/// one for each added source.
pub open spec fn records_after(
    observed: Seq<(Seq<char>, Option<Seq<char>>)>,
    records: Seq<(Seq<char>, Seq<char>)>,
) -> Seq<(Seq<char>, Seq<char>)> {
    records.filter(is_kept(observed)).map_values(refreshed(observed)) + observed.filter(
        is_added(records),
    ).map_values(first_record())
}

/// The records after a look are in order again: no path occurs twice.
/// They hold a path exactly if the source is there now and was known or
/// can be read, and with the fingerprint observed now where it can be read.
pub proof fn lemma_records_after(
    observed: Seq<(Seq<char>, Option<Seq<char>>)>,
    records: Seq<(Seq<char>, Seq<char>)>,
)
    requires
        paths_differ(observed),
        paths_differ(records),
    ensures
        paths_differ(records_after(observed, records)),
        forall|path: Seq<char>| #[trigger]
            has_path(records_after(observed, records), path) <==> has_path(observed, path) && (
            has_path(records, path) || index_of(observed)[path] is Some),
        forall|path: Seq<char>| #[trigger]
            has_path(records_after(observed, records), path) ==> index_of(
                records_after(observed, records),
            )[path] == match index_of(observed)[path] {
                Some(print) => print,
                None => index_of(records)[path],
            },
{
    let kept = records.filter(is_kept(observed));
    let fresh = kept.map_values(refreshed(observed));
    let added = observed.filter(is_added(records));
    let first = added.map_values(first_record());
    lemma_filter_paths(records, is_kept(observed));
    lemma_map_paths(kept, refreshed(observed));
    lemma_filter_paths(observed, is_added(records));
    lemma_map_paths(added, first_record());
    assert forall|path: Seq<char>| !(has_path(fresh, path) && has_path(first, path)) by {
        if has_path(fresh, path) && has_path(first, path) {
            assert(has_path(kept, path));
            assert(has_path(added, path));
        }
    }
    lemma_concat_paths(fresh, first);
    let after = fresh + first;
    assert forall|path: Seq<char>| #[trigger]
        has_path(after, path) <==> has_path(observed, path) && (has_path(records, path)
            || index_of(observed)[path] is Some) by {
        assert(has_path(fresh, path) <==> has_path(kept, path));
        assert(has_path(first, path) <==> has_path(added, path));
    }
    assert forall|path: Seq<char>| #[trigger] has_path(after, path) implies index_of(after)[path]
        == match index_of(observed)[path] {
        Some(print) => print,
        None => index_of(records)[path],
    } by {
        if has_path(fresh, path) {
            assert(has_path(kept, path));
        } else {
            assert(has_path(first, path));
            assert(has_path(added, path));
        }
    }
}

/// What is known of one source.
struct Record {
    path: String,
    fingerprint: String,
}

impl Record {
    /// The value of the record.
    spec fn pair(&self) -> (Seq<char>, Seq<char>) {
        (self.path@, self.fingerprint@)
    }
}

/// What is known of the sources from the last look at them.
pub struct Watcher {
    files: Vec<Record>,
}

/// Finds the observation of the source at `path`.
fn find_observation(observed: &Vec<Observation>, path: &String) -> (at: Option<usize>)
    ensures
        match at {
            Some(i) => i < observed@.len() && observed@[i as int].path@ == path@,
            None => !has_path(seen(observed@), path@),
        },
{
    let mut i: usize = 0;
    while i < observed.len()
        invariant
            i <= observed@.len(),
            forall|j: int| 0 <= j < i ==> observed@[j].path@ != path@,
        decreases observed.len() - i,
    {
        if observed[i].path == *path {
            return Some(i);
        }
        i += 1;
    }
    assert forall|j: int| 0 <= j < seen(observed@).len() implies (#[trigger] seen(observed@)[j]).0
        != path@ by {
        assert(seen(observed@)[j] == observed@[j]@);
    }
    None
}

/// Whether one of `paths` is `path`.
pub fn holds(paths: &Vec<String>, path: &str) -> (found: bool)
    ensures
        found == texts(paths@).contains(path@),
{
    let wanted = path.to_owned();
    let mut i: usize = 0;
    while i < paths.len()
        invariant
            i <= paths@.len(),
            wanted@ == path@,
            forall|j: int| 0 <= j < i ==> paths@[j]@ != path@,
        decreases paths.len() - i,
    {
        if paths[i] == wanted {
            assert(texts(paths@)[i as int] == path@);
            return true;
        }
        i += 1;
    }
    assert forall|j: int| 0 <= j < texts(paths@).len() implies texts(paths@)[j] != path@ by {
        assert(texts(paths@)[j] == paths@[j]@);
    }
    false
}

impl ChangeSet {
    /// Whether nothing was added, modified or removed.
    pub fn is_empty(&self) -> (empty: bool)
        ensures
            empty == self@.is_empty(),
    {
        self.added.len() == 0 && self.modified.len() == 0 && self.removed.len() == 0
    }

    /// Whether the source at `path` was added or modified.
    pub fn touches(&self, path: &str) -> (touched: bool)
        ensures
            touched == self@.touches(path@),
    {
        holds(&self.added, path) || holds(&self.modified, path)
    }
}

impl Watcher {
    /// The records: each known source's path with its fingerprint, in the
    /// order in which the sources became known.
    pub closed spec fn records(&self) -> Seq<(Seq<char>, Seq<char>)> {
        self.files@.map_values(|r: Record| r.pair())
    }

    /// No path is recorded twice.
    pub open spec fn wf(&self) -> bool {
        paths_differ(self.records())
    }

    /// Nothing is known yet.
    pub fn new() -> (watcher: Watcher)
        ensures
            watcher.wf(),
            watcher.records().len() == 0,
    {
        Watcher { files: Vec::new() }
    }

    /// The position of the record of the source at `path`.
    fn position(&self, path: &String) -> (at: Option<usize>)
        ensures
            match at {
                Some(i) => i < self.files@.len() && self.files@[i as int].path@ == path@,
                None => !has_path(self.records(), path@),
            },
    {
        let mut i: usize = 0;
        while i < self.files.len()
            invariant
                i <= self.files@.len(),
                forall|j: int| 0 <= j < i ==> self.files@[j].path@ != path@,
            decreases self.files.len() - i,
        {
            if self.files[i].path == *path {
                return Some(i);
            }
            i += 1;
        }
        assert forall|j: int| 0 <= j < self.records().len() implies (
        #[trigger] self.records()[j]).0 != path@ by {
            assert(self.records()[j] == self.files@[j].pair());
        }
        None
    }

    /// The number of sources that are known.
    pub fn len(&self) -> (count: usize)
        ensures
            count == self.records().len(),
    {
        self.files.len()
    }

    /// The fingerprint recorded for the source at `path`, if it is known.
    pub fn fingerprint(&self, path: &str) -> (print: Option<&str>)
        requires
            self.wf(),
        ensures
            match print {
                Some(p) => has_path(self.records(), path@) && index_of(self.records())[path@]
                    == p@,
                None => !has_path(self.records(), path@),
            },
    {
        match self.position(&path.to_owned()) {
            Some(i) => {
                proof {
                    assert(self.records()[i as int] == self.files@[i as int].pair());
                    lemma_index_entry(self.records(), i as int);
                }
                Some(self.files[i].fingerprint.as_str())
            },
            None => None,
        }
    }

    /// Marks the record of the source at `path` as stale, so that the next
    /// look finds the source modified if it is still there and can be
    /// read. Says whether the source was known.
    pub fn invalidate(&mut self, path: &str) -> (known: bool)
        requires
            old(self).wf(),
        ensures
            final(self).wf(),
            known == has_path(old(self).records(), path@),
            final(self).records() == old(self).records().map_values(staled(path@)),
    {
        let ghost before = self.records();
        proof {
            lemma_map_paths(before, staled(path@));
        }
        match self.position(&path.to_owned()) {
            Some(i) => {
                assert(before[i as int] == self.files@[i as int].pair());
                let record = Record { path: path.to_owned(), fingerprint: "!".to_owned() };
                self.files.set(i, record);
                proof {
                    assert forall|k: int| 0 <= k < before.len() implies #[trigger] self.records()[k]
                        == staled(path@)(before[k]) by {
                        assert(self.records()[k] == self.files@[k].pair());
                        if k != i {
                            assert(self.files@[k] == old(self).files@[k]);
                            assert(before[k] == old(self).files@[k].pair());
                        }
                    }
                    assert(self.records() =~= before.map_values(staled(path@)));
                }
                true
            },
            None => {
                proof {
                    assert forall|k: int| 0 <= k < before.len() implies staled(path@)(before[k])
                        == #[trigger] before[k] by {
                        assert(has_path(before, before[k].0));
                    }
                    assert(before.map_values(staled(path@)) =~= before);
                }
                false
            },
        }
    }

    /// The paths of the known sources that are content, in the order of
    /// the records.
    pub fn md(&self) -> (paths: Vec<String>)
        ensures
            texts(paths@) == paths_of(
                self.records().filter(
                    |r: (Seq<char>, Seq<char>)| role_of(r.0) == Some(Role::ContentItem),
                ),
            ),
    {
        let ghost keep = |r: (Seq<char>, Seq<char>)| role_of(r.0) == Some(Role::ContentItem);
        let ghost path = |r: (Seq<char>, Seq<char>)| r.0;
        let mut paths: Vec<String> = Vec::new();
        let mut i: usize = 0;
        while i < self.files.len()
            invariant
                i <= self.files@.len(),
                keep == |r: (Seq<char>, Seq<char>)| role_of(r.0) == Some(Role::ContentItem),
                path == |r: (Seq<char>, Seq<char>)| r.0,
                texts(paths@) == self.records().take(i as int).filter(keep).map_values(path),
            decreases self.files.len() - i,
        {
            proof {
                lemma_filter_map_step(self.records(), i as int, keep, path);
                assert(self.records()[i as int] == self.files@[i as int].pair());
            }
            let role = classify(self.files[i].path.as_str());
            if role == Some(Role::ContentItem) {
                let ghost before = texts(paths@);
                paths.push(self.files[i].path.clone());
                assert(texts(paths@) == before.push(self.files@[i as int].path@));
            }
            i += 1;
        }
        assert(self.records().take(i as int) == self.records());
        paths
    }

    /// Compares the observations `observed` with the records, as `diff`
    /// does, and then brings the records up to date with them.
    pub fn update(&mut self, observed: &Vec<Observation>) -> (changes: ChangeSet)
        requires
            old(self).wf(),
            paths_differ(seen(observed@)),
        ensures
            final(self).wf(),
            changes@ == changes_of(seen(observed@), old(self).records()),
            final(self).records() == records_after(seen(observed@), old(self).records()),
    {
        let changes = diff(observed, self);
        let ghost now = seen(observed@);
        let ghost known = self.records();
        let mut files: Vec<Record> = Vec::new();
        let mut i: usize = 0;
        while i < self.files.len()
            invariant
                i <= self.files@.len(),
                now == seen(observed@),
                known == self.records(),
                paths_differ(now),
                files@.map_values(|r: Record| r.pair()) == known.take(i as int).filter(
                    is_kept(now),
                ).map_values(refreshed(now)),
            decreases self.files.len() - i,
        {
            proof {
                lemma_filter_map_step(known, i as int, is_kept(now), refreshed(now));
                assert(known[i as int] == self.files@[i as int].pair());
            }
            let record = &self.files[i];
            match find_observation(observed, &record.path) {
                Some(j) => {
                    proof {
                        assert(now[j as int] == observed@[j as int]@);
                        lemma_index_entry(now, j as int);
                    }
                    let fingerprint = match &observed[j].fingerprint {
                        Some(print) => print.clone(),
                        None => record.fingerprint.clone(),
                    };
                    let ghost before = files@.map_values(|r: Record| r.pair());
                    files.push(Record { path: record.path.clone(), fingerprint });
                    assert(files@.map_values(|r: Record| r.pair()) == before.push(
                        refreshed(now)(known[i as int]),
                    ));
                },
                None => {},
            }
            i += 1;
        }
        assert(known.take(i as int) == known);
        let ghost fresh = files@.map_values(|r: Record| r.pair());
        let mut k: usize = 0;
        while k < observed.len()
            invariant
                k <= observed@.len(),
                now == seen(observed@),
                known == self.records(),
                files@.map_values(|r: Record| r.pair()) == fresh + now.take(k as int).filter(
                    is_added(known),
                ).map_values(first_record()),
            decreases observed.len() - k,
        {
            proof {
                lemma_filter_map_step(now, k as int, is_added(known), first_record());
                assert(now[k as int] == observed@[k as int]@);
            }
            let observation = &observed[k];
            match &observation.fingerprint {
                Some(print) => {
                    match self.position(&observation.path) {
                        Some(j) => {
                            assert(known[j as int] == self.files@[j as int].pair());
                        },
                        None => {
                            let ghost before = files@.map_values(|r: Record| r.pair());
                            let ghost sofar = now.take(k as int).filter(
                                is_added(known),
                            ).map_values(first_record());
                            files.push(
                                Record {
                                    path: observation.path.clone(),
                                    fingerprint: print.clone(),
                                },
                            );
                            assert(files@.map_values(|r: Record| r.pair()) == before.push(
                                first_record()(now[k as int]),
                            ));
                            assert((fresh + sofar).push(first_record()(now[k as int])) == fresh
                                + sofar.push(first_record()(now[k as int])));
                        },
                    }
                },
                None => {},
            }
            k += 1;
        }
        assert(now.take(k as int) == now);
        proof {
            lemma_records_after(now, known);
        }
        self.files = files;
        changes
    }
}

/// Compares the observations `observed` with the records of `watcher`: a
/// readable source that is not recorded is added, a readable source that is
/// recorded with another fingerprint is modified, and a recorded source
/// that is not observed is removed.
pub fn diff(observed: &Vec<Observation>, watcher: &Watcher) -> (changes: ChangeSet)
    requires
        watcher.wf(),
    ensures
        changes@ == changes_of(seen(observed@), watcher.records()),
{
    let ghost now = seen(observed@);
    let ghost known = watcher.records();
    let ghost path_of_record = |e: (Seq<char>, Seq<char>)| e.0;
    let ghost path_of_seen = |e: (Seq<char>, Option<Seq<char>>)| e.0;
    let mut removed: Vec<String> = Vec::new();
    let mut i: usize = 0;
    while i < watcher.files.len()
        invariant
            i <= watcher.files@.len(),
            now == seen(observed@),
            known == watcher.records(),
            path_of_record == |e: (Seq<char>, Seq<char>)| e.0,
            texts(removed@) == known.take(i as int).filter(is_gone(now)).map_values(path_of_record),
        decreases watcher.files.len() - i,
    {
        proof {
            lemma_filter_map_step(known, i as int, is_gone(now), path_of_record);
            assert(known[i as int] == watcher.files@[i as int].pair());
        }
        match find_observation(observed, &watcher.files[i].path) {
            Some(j) => {
                assert(now[j as int] == observed@[j as int]@);
            },
            None => {
                let ghost before = texts(removed@);
                removed.push(watcher.files[i].path.clone());
                assert(texts(removed@) == before.push(known[i as int].0));
            },
        }
        i += 1;
    }
    assert(known.take(i as int) == known);
    let mut added: Vec<String> = Vec::new();
    let mut modified: Vec<String> = Vec::new();
    let mut k: usize = 0;
    while k < observed.len()
        invariant
            k <= observed@.len(),
            now == seen(observed@),
            known == watcher.records(),
            watcher.wf(),
            path_of_seen == |e: (Seq<char>, Option<Seq<char>>)| e.0,
            texts(added@) == now.take(k as int).filter(is_added(known)).map_values(path_of_seen),
            texts(modified@) == now.take(k as int).filter(is_modified(known)).map_values(
                path_of_seen,
            ),
        decreases observed.len() - k,
    {
        proof {
            lemma_filter_map_step(now, k as int, is_added(known), path_of_seen);
            lemma_filter_map_step(now, k as int, is_modified(known), path_of_seen);
            assert(now[k as int] == observed@[k as int]@);
        }
        let observation = &observed[k];
        match &observation.fingerprint {
            Some(print) => {
                match watcher.position(&observation.path) {
                    Some(j) => {
                        proof {
                            assert(known[j as int] == watcher.files@[j as int].pair());
                            lemma_index_entry(known, j as int);
                        }
                        if watcher.files[j].fingerprint != *print {
                            let ghost before = texts(modified@);
                            modified.push(observation.path.clone());
                            assert(texts(modified@) == before.push(now[k as int].0));
                        }
                    },
                    None => {
                        let ghost before = texts(added@);
                        added.push(observation.path.clone());
                        assert(texts(added@) == before.push(now[k as int].0));
                    },
                }
            },
            None => {},
        }
        k += 1;
    }
    assert(now.take(k as int) == now);
    ChangeSet { added, modified, removed }
}

} // verus!
