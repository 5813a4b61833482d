//! Finding the files of the output directory that no source stands for.

use crate::path::{build_path, build_path_of, classify, list_build_path, role_of, Role};
use crate::watcher::{holds, texts};
use vstd::prelude::*;

verus! {

/// The files that the sources `sources` are written to: the page of each
/// post, in the order of the sources, and then the listing.
pub open spec fn expected_of(sources: Seq<Seq<char>>) -> Seq<Seq<char>> {
    sources.filter(|path: Seq<char>| role_of(path) == Some(Role::ContentItem)).map_values(
        |path: Seq<char>| build_path_of(path),
    ).push(list_build_path())
}

/// The files among `built` that the sources `sources` are not written to,
/// in the order of `built`.
pub open spec fn orphans_of(sources: Seq<Seq<char>>, built: Seq<Seq<char>>) -> Seq<Seq<char>> {
    built.filter(|file: Seq<char>| !expected_of(sources).contains(file))
}

/// The files that the sources at `sources` are written to.
pub fn expected(sources: &Vec<String>) -> (files: Vec<String>)
    ensures
        texts(files@) == expected_of(texts(sources@)),
{
    let ghost paths = texts(sources@);
    let ghost is_post = |path: Seq<char>| role_of(path) == Some(Role::ContentItem);
    let ghost page = |path: Seq<char>| build_path_of(path);
    let mut files: Vec<String> = Vec::new();
    let mut i: usize = 0;
    while i < sources.len()
        invariant
            i <= sources@.len(),
            paths == texts(sources@),
            is_post == |path: Seq<char>| role_of(path) == Some(Role::ContentItem),
            page == |path: Seq<char>| build_path_of(path),
            texts(files@) == paths.take(i as int).filter(is_post).map_values(page),
        decreases sources.len() - i,
    {
        proof {
            crate::keyed::lemma_filter_map_step(paths, i as int, is_post, page);
            assert(paths[i as int] == sources@[i as int]@);
        }
        let path = sources[i].as_str();
        if classify(path) == Some(Role::ContentItem) {
            let ghost before = texts(files@);
            files.push(build_path(path));
            assert(texts(files@) == before.push(build_path_of(path@)));
        }
        i += 1;
    }
    assert(paths.take(i as int) == paths);
    let ghost before = texts(files@);
    files.push("build/post_list.html".to_owned());
    assert(texts(files@) == before.push(list_build_path()));
    files
}

/// The files among `built` that no source of `sources` is written to: the
/// files to remove from the output directory.
pub fn orphans(sources: &Vec<String>, built: &Vec<String>) -> (files: Vec<String>)
    ensures
        texts(files@) == orphans_of(texts(sources@), texts(built@)),
{
    let wanted = expected(sources);
    let ghost all = texts(built@);
    let ghost stray = |file: Seq<char>| !expected_of(texts(sources@)).contains(file);
    let mut files: Vec<String> = Vec::new();
    let mut i: usize = 0;
    while i < built.len()
        invariant
            i <= built@.len(),
            all == texts(built@),
            texts(wanted@) == expected_of(texts(sources@)),
            stray == |file: Seq<char>| !expected_of(texts(sources@)).contains(file),
            texts(files@) == all.take(i as int).filter(stray),
        decreases built.len() - i,
    {
        proof {
            crate::keyed::lemma_filter_map_step(all, i as int, stray, |file: Seq<char>| file);
            assert(all[i as int] == built@[i as int]@);
        }
        if !holds(&wanted, built[i].as_str()) {
            let ghost before = texts(files@);
            files.push(built[i].clone());
            assert(texts(files@) == before.push(built@[i as int]@));
        }
        i += 1;
    }
    assert(all.take(i as int) == all);
    files
}

} // verus!
