//! What holds of the engine as a whole, proved from the contracts of its
//! parts.

use crate::depgraph::{affected_of, any_reaches_every_post, reaches_every_post};
use crate::keyed::{
    has_path, index_of, lemma_filter_all, lemma_filter_none, lemma_filter_paths,
    lemma_index_entry, lemma_map_paths, paths_differ, paths_of,
};
use crate::path::{
    ascii_lowered, extension_of, file_name_of, last_index_of, list_item_template_path,
    list_template_path, post_template_path, role_of, template_kind_of, Role, TemplateKind,
};
use crate::fingerprint::{blake3_digest, fingerprint_of};
use crate::hex::{hex_chars, hex_digit};
use crate::keyed::lemma_index_remove;
use crate::post::PostView;
use crate::posts::{entry_before, lex_less_from, listed_before, sorted, Posts, Skeletons};
use crate::scheduler::{
    changes_of_tick, deleted_of, generated, is_post_path, is_target, lemma_observed, lemma_quiet,
    lemma_with_pages, lemma_without, observed_of, outcome_with, outcomes_of, rejected_of,
    removed_posts, skeletons_after, with_pages, without, Failure,
};
use crate::watcher::{
    changes_of, first_record, is_added, is_gone, is_kept, is_modified, lemma_records_after,
    records_after, refreshed, Changes,
};
use vstd::prelude::*;

verus! {

/// The three templates that the site names are templates by their
/// extension, and of the three only the page skeleton reaches every
/// content page.
pub proof fn lemma_template_paths()
    ensures
        role_of(post_template_path()) == Some(Role::Template),
        role_of(list_template_path()) == Some(Role::Template),
        role_of(list_item_template_path()) == Some(Role::Template),
        reaches_every_post(post_template_path()),
        !reaches_every_post(list_template_path()),
        !reaches_every_post(list_item_template_path()),
{
    reveal_strlit("templates/post.html");
    reveal_strlit("templates/post_list.html");
    reveal_strlit("templates/post_list_item.html");
    reveal_strlit("html");
    reveal_strlit("md");
    lemma_html_path("templates/post.html"@, 9, 14);
    lemma_html_path("templates/post_list.html"@, 9, 19);
    lemma_html_path("templates/post_list_item.html"@, 9, 24);
}

/// A path whose last `/` stands at `slash` and whose last `.` stands at
/// `dot`, after the `/` and not right after it, and which ends in `html`
/// after that `.`, names a template.
pub proof fn lemma_html_path(path: Seq<char>, slash: int, dot: int)
    requires
        0 <= slash,
        slash + 1 < dot,
        dot + 5 == path.len(),
        path[slash] == '/',
        path[dot] == '.',
        forall|i: int| slash < i < path.len() ==> path[i] != '/',
        path[dot + 1] == 'h',
        path[dot + 2] == 't',
        path[dot + 3] == 'm',
        path[dot + 4] == 'l',
    ensures
        role_of(path) == Some(Role::Template),
{
    reveal_strlit("html");
    reveal_strlit("md");
    lemma_last_index(path, '/', path.len() as int, slash);
    let name = file_name_of(path);
    assert(name == path.skip(slash + 1));
    assert(name.len() == path.len() - slash - 1);
    assert forall|i: int| dot - slash - 1 < i < name.len() implies name[i] != '.' by {
        assert(name[i] == path[i + slash + 1]);
    }
    assert(name[dot - slash - 1] == path[dot]);
    lemma_last_index(name, '.', name.len() as int, dot - slash - 1);
    let extension = name.skip(dot - slash);
    assert(extension_of(path) == Some(extension));
    assert(extension.len() == 4);
    assert(extension[0] == path[dot + 1]);
    assert(extension[1] == path[dot + 2]);
    assert(extension[2] == path[dot + 3]);
    assert(extension[3] == path[dot + 4]);
    assert(ascii_lowered(extension) =~= "html"@);
    assert(ascii_lowered(extension).len() != "md"@.len());
}

/// The last `c` before `to` stands at `at` if `c` stands there and nowhere
/// after it before `to`.
pub proof fn lemma_last_index(s: Seq<char>, c: char, to: int, at: int)
    requires
        0 <= at < to <= s.len(),
        s[at] == c,
        forall|i: int| at < i < to ==> s[i] != c,
    ensures
        last_index_of(s, c, to) == at,
    decreases to,
{
    if s[to - 1] != c {
        lemma_last_index(s, c, to - 1, at);
    }
}

/// Change completeness. Let the records hold the fingerprints of the
/// sources as they were, and let the sources be observed again, the same
/// ones, all readable where they differ, with the same fingerprints but
/// for the one at `changed`, whose fingerprint is another now. Then the
/// change detector reports exactly that source as modified, and nothing
/// as added or removed.
pub proof fn law_change_completeness(
    records: Seq<(Seq<char>, Seq<char>)>,
    observed: Seq<(Seq<char>, Option<Seq<char>>)>,
    changed: Seq<char>,
)
    requires
        paths_differ(records),
        paths_differ(observed),
        forall|path: Seq<char>| has_path(observed, path) <==> has_path(records, path),
        has_path(observed, changed),
        forall|path: Seq<char>|
            has_path(records, path) && path != changed ==> index_of(observed)[path] == Some(
                index_of(records)[path],
            ),
        index_of(observed)[changed] is Some,
        index_of(observed)[changed] != Some(index_of(records)[changed]),
    ensures
        changes_of(observed, records).modified == seq![changed],
        changes_of(observed, records).added.len() == 0,
        changes_of(observed, records).removed.len() == 0,
{
    assert forall|i: int| 0 <= i < observed.len() implies !is_added(records)(
        #[trigger] observed[i],
    ) by {
        assert(has_path(observed, observed[i].0));
    }
    lemma_filter_none(observed, is_added(records));
    assert forall|i: int| 0 <= i < records.len() implies !is_gone(observed)(
        #[trigger] records[i],
    ) by {
        assert(has_path(records, records[i].0));
    }
    lemma_filter_none(records, is_gone(observed));
    let kept = observed.filter(is_modified(records));
    lemma_filter_paths(observed, is_modified(records));
    assert(has_path(kept, changed));
    assert forall|i: int| 0 <= i < kept.len() implies (#[trigger] kept[i]).0 == changed by {
        assert(has_path(kept, kept[i].0));
    }
    if kept.len() > 1 {
        assert(kept[0].0 == kept[1].0);
    }
    assert(paths_of(kept) =~= seq![changed]);
}

/// Idempotence. After a tick on a catalog, a second tick on the same
/// catalog finds nothing changed: it deletes nothing, takes no template,
/// makes no page, and leaves the records and the skeletons as they are.
pub proof fn law_idempotence(
    records: Seq<(Seq<char>, Seq<char>)>,
    catalog: Seq<(Seq<char>, Option<Seq<u8>>)>,
    skeletons: Skeletons,
)
    requires
        paths_differ(records),
        paths_differ(catalog),
    ensures
        ({
            let after = records_after(observed_of(catalog), records);
            let second = changes_of_tick(after, catalog);
            &&& second.is_empty()
            &&& records_after(observed_of(catalog), after) == after
            &&& deleted_of(second).len() == 0
            &&& rejected_of(catalog, second).len() == 0
            &&& outcomes_of(skeletons.post, catalog, second).len() == 0
            &&& skeletons_after(skeletons, catalog, second) == skeletons
        }),
{
    let observed = observed_of(catalog);
    let after = records_after(observed, records);
    lemma_observed(catalog);
    lemma_records_after(observed, records);
    assert forall|i: int| 0 <= i < observed.len() implies !is_added(after)(
        #[trigger] observed[i],
    ) && !is_modified(after)(observed[i]) by {
        lemma_index_entry(observed, i);
        assert(has_path(observed, observed[i].0));
    }
    lemma_filter_none(observed, is_added(after));
    lemma_filter_none(observed, is_modified(after));
    assert forall|i: int| 0 <= i < after.len() implies is_kept(observed)(#[trigger] after[i]) by {
        assert(has_path(after, after[i].0));
    }
    lemma_filter_none(after, is_gone(observed));
    lemma_filter_all(after, is_kept(observed));
    let second = changes_of_tick(after, catalog);
    assert(second.is_empty());
    lemma_quiet(catalog, second, skeletons.post);
    assert(after.map_values(refreshed(observed)) =~= after) by {
        assert forall|i: int| 0 <= i < after.len() implies refreshed(observed)(after[i])
            == after[i] by {
            lemma_index_entry(after, i);
            assert(has_path(after, after[i].0));
        }
    }
    assert(observed.filter(is_added(after)).map_values(first_record()) =~= Seq::<
        (Seq<char>, Seq<char>),
    >::empty());
    assert(records_after(observed, after) =~= after);
}

/// Dependency propagation, first half. Where the page skeleton was added
/// or modified, the content page of every post of the catalog that can be
/// read is made anew, one outcome for each, and the listing is made anew
/// as something changed.
pub proof fn law_page_skeleton_reaches_every_post(
    template: Seq<char>,
    catalog: Seq<(Seq<char>, Option<Seq<u8>>)>,
    changes: Changes,
)
    requires
        changes.touches(post_template_path()),
    ensures
        outcomes_of(template, catalog, changes) == catalog.filter(
            |s: (Seq<char>, Option<Seq<u8>>)|
                role_of(s.0) == Some(Role::ContentItem) && s.1 is Some,
        ).map_values(outcome_with(template)),
        affected_of(changes).listing,
        !changes.is_empty(),
{
    lemma_template_paths();
    if changes.added.contains(post_template_path()) {
        let i = choose|i: int|
            0 <= i < changes.added.len() && changes.added[i] == post_template_path();
        assert(reaches_every_post(changes.added[i]));
    } else {
        let i = choose|i: int|
            0 <= i < changes.modified.len() && changes.modified[i] == post_template_path();
        assert(reaches_every_post(changes.modified[i]));
    }
    assert(affected_of(changes).every_post);
    let readable = |s: (Seq<char>, Option<Seq<u8>>)|
        role_of(s.0) == Some(Role::ContentItem) && s.1 is Some;
    assert(is_target(changes, true) =~= readable);
}

/// Dependency propagation, second half. Where only a skeleton of the
/// listing was modified, the listing skeleton or the entry skeleton, no
/// content page is made anew, and the listing is made anew as something
/// changed.
pub proof fn law_listing_skeleton_reaches_listing_only(
    template: Seq<char>,
    catalog: Seq<(Seq<char>, Option<Seq<u8>>)>,
    changes: Changes,
    skeleton: Seq<char>,
)
    requires
        skeleton == list_template_path() || skeleton == list_item_template_path(),
        changes.added.len() == 0,
        changes.removed.len() == 0,
        changes.modified == seq![skeleton],
    ensures
        outcomes_of(template, catalog, changes).len() == 0,
        affected_of(changes) == (crate::depgraph::Affected { every_post: false, listing: true }),
{
    lemma_template_paths();
    assert(!any_reaches_every_post(changes.modified)) by {
        if any_reaches_every_post(changes.modified) {
            let i = choose|i: int|
                0 <= i < changes.modified.len() && reaches_every_post(
                    #[trigger] changes.modified[i],
                );
            assert(changes.modified[i] == skeleton);
        }
    }
    assert(!affected_of(changes).every_post);
    assert forall|i: int| 0 <= i < catalog.len() implies !is_target(changes, false)(
        #[trigger] catalog[i],
    ) by {
        if changes.touches(catalog[i].0) {
            let k = choose|k: int|
                0 <= k < changes.modified.len() && changes.modified[k] == catalog[i].0;
            assert(catalog[i].0 == skeleton);
        }
    }
    lemma_filter_none(catalog, is_target(changes, false));
}

/// Deletion correctness. Where a post that the records hold is gone from
/// the catalog, the tick reports it as removed and its page as a file to
/// delete, something has changed, so that the listing is made anew, and
/// the store has no page for it afterwards, whatever else the tick makes.
pub proof fn law_deletion(
    records: Seq<(Seq<char>, Seq<char>)>,
    catalog: Seq<(Seq<char>, Option<Seq<u8>>)>,
    index: Map<Seq<char>, PostView>,
    template: Seq<char>,
    path: Seq<char>,
)
    requires
        paths_differ(records),
        paths_differ(catalog),
        has_path(records, path),
        !has_path(catalog, path),
        role_of(path) == Some(Role::ContentItem),
    ensures
        ({
            let changes = changes_of_tick(records, catalog);
            &&& changes.removed.contains(path)
            &&& !changes.is_empty()
            &&& deleted_of(changes).contains(crate::path::build_path_of(path))
            &&& !with_pages(
                without(index, removed_posts(changes)),
                outcomes_of(template, catalog, changes),
            ).dom().contains(path)
        }),
{
    let observed = observed_of(catalog);
    let changes = changes_of_tick(records, catalog);
    lemma_observed(catalog);
    let gone = records.filter(is_gone(observed));
    lemma_filter_paths(records, is_gone(observed));
    assert(has_path(gone, path)) by {
        let i = choose|i: int| 0 <= i < records.len() && (#[trigger] records[i]).0 == path;
        lemma_index_entry(records, i);
    }
    let at = choose|i: int| 0 <= i < gone.len() && (#[trigger] gone[i]).0 == path;
    assert(changes.removed[at] == path);
    assert(changes.removed.contains(path));
    let posts = removed_posts(changes);
    changes.removed.lemma_filter_contains(is_post_path(), at);
    assert(posts.contains(path));
    let k = choose|k: int| 0 <= k < posts.len() && posts[k] == path;
    assert(deleted_of(changes)[k] == crate::path::build_path_of(path));
    lemma_without(index, posts);
    let outcomes = outcomes_of(template, catalog, changes);
    let wanted = is_target(changes, affected_of(changes).every_post);
    lemma_filter_paths(catalog, wanted);
    lemma_map_paths(catalog.filter(wanted), outcome_with(template));
    assert(!has_path(outcomes, path));
    lemma_with_pages(without(index, posts), outcomes);
}

/// Partial failure isolation. Where the content page of a post of the
/// catalog is to be made anew and can be made, its outcome is that page
/// and the store holds that page afterwards, whatever becomes of the other
/// posts.
pub proof fn law_failure_isolation(
    catalog: Seq<(Seq<char>, Option<Seq<u8>>)>,
    changes: Changes,
    index: Map<Seq<char>, PostView>,
    template: Seq<char>,
    at: int,
    post: PostView,
)
    requires
        paths_differ(catalog),
        0 <= at < catalog.len(),
        is_target(changes, affected_of(changes).every_post)(catalog[at]),
        generated(template, catalog[at].0, catalog[at].1->0) == Ok::<PostView, Failure>(post),
    ensures
        outcomes_of(template, catalog, changes).contains((catalog[at].0, Ok(post))),
        with_pages(index, outcomes_of(template, catalog, changes)).dom().contains(catalog[at].0),
        with_pages(index, outcomes_of(template, catalog, changes))[catalog[at].0] == post,
{
    let wanted = is_target(changes, affected_of(changes).every_post);
    let targets = catalog.filter(wanted);
    let outcomes = outcomes_of(template, catalog, changes);
    lemma_filter_paths(catalog, wanted);
    lemma_map_paths(targets, outcome_with(template));
    catalog.lemma_filter_contains(wanted, at);
    let k = choose|k: int| 0 <= k < targets.len() && targets[k] == catalog[at];
    assert(outcomes[k] == (catalog[at].0, Ok::<PostView, Failure>(post)));
    lemma_with_pages(index, outcomes);
}

/// Two digits are the same only for the same number below sixteen.
pub proof fn lemma_hex_digit_injective(a: int, b: int)
    requires
        0 <= a < 16,
        0 <= b < 16,
        hex_digit(a) == hex_digit(b),
    ensures
        a == b,
{
    let x = if a < 10 {
        0x30 + a
    } else {
        0x61 + a - 10
    };
    let y = if b < 10 {
        0x30 + b
    } else {
        0x61 + b - 10
    };
    assert(hex_digit(a) as u32 == x);
    assert(hex_digit(b) as u32 == y);
}

/// Byte strings with the same hexadecimal text are the same.
pub proof fn lemma_hex_chars_injective(a: Seq<u8>, b: Seq<u8>)
    requires
        hex_chars(a) == hex_chars(b),
    ensures
        a == b,
{
    assert(hex_chars(a).len() == 2 * a.len());
    assert(hex_chars(b).len() == 2 * b.len());
    assert forall|i: int| 0 <= i < a.len() implies a[i] == b[i] by {
        assert(hex_chars(a)[2 * i] == hex_digit(a[i] as int / 16));
        assert(hex_chars(b)[2 * i] == hex_digit(b[i] as int / 16));
        assert(hex_chars(a)[2 * i + 1] == hex_digit(a[i] as int % 16));
        assert(hex_chars(b)[2 * i + 1] == hex_digit(b[i] as int % 16));
        lemma_hex_digit_injective(a[i] as int / 16, b[i] as int / 16);
        lemma_hex_digit_injective(a[i] as int % 16, b[i] as int % 16);
    }
    assert(a =~= b);
}

/// Fingerprint stability. The fingerprint is a function of the bytes
/// alone, and it tells two byte strings apart exactly where their digests
/// do.
pub proof fn law_fingerprint(a: Seq<u8>, b: Seq<u8>)
    ensures
        a == b ==> fingerprint_of(a) == fingerprint_of(b),
        fingerprint_of(a) == fingerprint_of(b) <==> blake3_digest(a) == blake3_digest(b),
{
    if fingerprint_of(a) == fingerprint_of(b) {
        lemma_hex_chars_injective(blake3_digest(a), blake3_digest(b));
    }
}

/// Of two texts, one comes before the other in the order of the
/// dictionary only one way round.
pub proof fn lemma_lex_less_asymmetric(a: Seq<char>, b: Seq<char>, i: int)
    requires
        0 <= i,
        lex_less_from(a, b, i),
    ensures
        !lex_less_from(b, a, i),
    decreases b.len() - i,
{
    if i < a.len() && i < b.len() && a[i] == b[i] {
        lemma_lex_less_asymmetric(a, b, i + 1);
    }
}

/// The order of the listing leaves no choice: two listings in order that
/// hold the same pages for the same paths are the same listing.
pub proof fn law_listing_determined(a: Seq<(Seq<char>, PostView)>, b: Seq<(Seq<char>, PostView)>)
    requires
        sorted(a),
        sorted(b),
        paths_differ(a),
        paths_differ(b),
        index_of(a) == index_of(b),
    ensures
        a == b,
    decreases a.len(),
{
    if a.len() == 0 {
        if b.len() > 0 {
            lemma_index_entry(b, 0);
        }
        assert(a =~= b);
    } else {
        lemma_index_entry(a, 0);
        let j = choose|j: int| 0 <= j < b.len() && (#[trigger] b[j]).0 == a[0].0;
        lemma_index_entry(b, j);
        assert(b[j] == a[0]);
        if j > 0 {
            lemma_index_entry(b, 0);
            let k = choose|k: int| 0 <= k < a.len() && (#[trigger] a[k]).0 == b[0].0;
            lemma_index_entry(a, k);
            assert(a[k] == b[0]);
            assert(k > 0);
            assert(entry_before(b[0], b[j]));
            assert(entry_before(a[0], a[k]));
            if crate::posts::lex_less(a[0].0, b[0].0) {
                lemma_lex_less_asymmetric(a[0].0, b[0].0, 0);
            }
            assert(false);
        }
        lemma_index_remove(a, 0);
        lemma_index_remove(b, 0);
        assert(a.remove(0) =~= a.drop_first());
        assert(b.remove(0) =~= b.drop_first());
        assert(sorted(a.drop_first())) by {
            assert forall|x: int, y: int| 0 <= x < y < a.drop_first().len() implies entry_before(
                #[trigger] a.drop_first()[x],
                #[trigger] a.drop_first()[y],
            ) by {
                assert(a.drop_first()[x] == a[x + 1]);
                assert(a.drop_first()[y] == a[y + 1]);
            }
        }
        assert(sorted(b.drop_first())) by {
            assert forall|x: int, y: int| 0 <= x < y < b.drop_first().len() implies entry_before(
                #[trigger] b.drop_first()[x],
                #[trigger] b.drop_first()[y],
            ) by {
                assert(b.drop_first()[x] == b[x + 1]);
                assert(b.drop_first()[y] == b[y + 1]);
            }
        }
        law_listing_determined(a.drop_first(), b.drop_first());
        assert(a =~= seq![a[0]] + a.drop_first());
        assert(b =~= seq![b[0]] + b.drop_first());
    }
}

/// Two stores in order that hold the same pages for the same paths list
/// them in the same order.
pub proof fn law_store_order(a: &Posts, b: &Posts)
    requires
        a.wf(),
        b.wf(),
        a.index() == b.index(),
    ensures
        a.listing() == b.listing(),
{
    a.lemma_wf();
    b.lemma_wf();
    law_listing_determined(a.listing(), b.listing());
}

/// No bytes have the fingerprint of a stale record.
pub proof fn lemma_stale(bytes: Seq<u8>)
    ensures
        fingerprint_of(bytes) != crate::watcher::stale(),
{
    reveal_strlit("!");
    assert(fingerprint_of(bytes).len() == 2 * blake3_digest(bytes).len());
}

/// Trying again. After the record of a source that the catalog holds as a
/// readable post was marked as stale, the next tick finds the source
/// modified and makes its content page anew.
pub proof fn law_retry(
    records: Seq<(Seq<char>, Seq<char>)>,
    catalog: Seq<(Seq<char>, Option<Seq<u8>>)>,
    at: int,
)
    requires
        paths_differ(records),
        paths_differ(catalog),
        0 <= at < catalog.len(),
        role_of(catalog[at].0) == Some(Role::ContentItem),
        catalog[at].1 is Some,
        has_path(records, catalog[at].0),
    ensures
        ({
            let marked = records.map_values(crate::watcher::staled(catalog[at].0));
            let changes = changes_of_tick(marked, catalog);
            &&& changes.modified.contains(catalog[at].0)
            &&& is_target(changes, affected_of(changes).every_post)(catalog[at])
        }),
{
    let path = catalog[at].0;
    let marked = records.map_values(crate::watcher::staled(path));
    let observed = observed_of(catalog);
    lemma_map_paths(records, crate::watcher::staled(path));
    lemma_observed(catalog);
    lemma_index_entry(catalog, at);
    lemma_stale(catalog[at].1->0);
    assert(has_path(catalog, path));
    assert(has_path(observed, path));
    assert(has_path(marked, path));
    let modified = observed.filter(is_modified(marked));
    lemma_filter_paths(observed, is_modified(marked));
    assert(has_path(modified, path));
    let k = choose|k: int| 0 <= k < modified.len() && (#[trigger] modified[k]).0 == path;
    assert(paths_of(modified)[k] == path);
}

/// Change completeness, from tick to tick. Let a tick have seen the
/// catalog `before`, all of whose sources could be read, and let the next
/// tick see the same catalog but for the bytes of the one source at
/// position `at`, which have another fingerprint now. Then that tick
/// reports exactly this source as modified, and nothing as added or
/// removed.
pub proof fn law_one_file_modified(
    records: Seq<(Seq<char>, Seq<char>)>,
    before: Seq<(Seq<char>, Option<Seq<u8>>)>,
    at: int,
    bytes: Seq<u8>,
)
    requires
        paths_differ(records),
        paths_differ(before),
        forall|i: int| 0 <= i < before.len() ==> (#[trigger] before[i]).1 is Some,
        0 <= at < before.len(),
        role_of(before[at].0) is Some,
        fingerprint_of(bytes) != fingerprint_of(before[at].1->0),
    ensures
        ({
            let seen = records_after(observed_of(before), records);
            let now = before.update(at, (before[at].0, Some(bytes)));
            let changes = changes_of_tick(seen, now);
            &&& changes.modified == seq![before[at].0]
            &&& changes.added.len() == 0
            &&& changes.removed.len() == 0
        }),
{
    let path = before[at].0;
    let now = before.update(at, (path, Some(bytes)));
    let first = observed_of(before);
    let second = observed_of(now);
    let seen = records_after(first, records);
    assert(paths_differ(now)) by {
        assert forall|i: int, j: int|
            0 <= i < now.len() && 0 <= j < now.len() && i != j implies (#[trigger] now[i]).0 != (
        #[trigger] now[j]).0 by {
            assert(now[i].0 == before[i].0);
            assert(now[j].0 == before[j].0);
        }
    }
    assert forall|p: Seq<char>| has_path(now, p) <==> has_path(before, p) by {
        if has_path(now, p) {
            let i = choose|i: int| 0 <= i < now.len() && (#[trigger] now[i]).0 == p;
            assert(before[i].0 == p);
        }
        if has_path(before, p) {
            let i = choose|i: int| 0 <= i < before.len() && (#[trigger] before[i]).0 == p;
            assert(now[i].0 == p);
        }
    }
    assert forall|p: Seq<char>| has_path(before, p) implies index_of(before)[p] is Some
        && index_of(now)[p] == (if p == path {
        Some(bytes)
    } else {
        index_of(before)[p]
    }) by {
        let i = choose|i: int| 0 <= i < before.len() && (#[trigger] before[i]).0 == p;
        lemma_index_entry(before, i);
        lemma_index_entry(now, i);
        if i != at {
            assert(now[i] == before[i]);
        }
    }
    lemma_observed(before);
    lemma_observed(now);
    lemma_records_after(first, records);
    lemma_index_entry(before, at);
    assert(has_path(before, path));
    assert(has_path(second, path));
    assert forall|p: Seq<char>| has_path(second, p) <==> has_path(seen, p) by {
        if has_path(second, p) {
            assert(has_path(first, p));
        }
    }
    assert forall|p: Seq<char>| has_path(seen, p) && p != path implies index_of(second)[p]
        == Some(index_of(seen)[p]) by {
        assert(has_path(first, p));
        assert(has_path(second, p));
    }
    law_change_completeness(seen, second, path);
}

} // verus!
