//! Sequences of entries that are found by their paths: each entry is a
//! pair of a path and what is kept for it.

use vstd::prelude::*;

verus! {

/// No two entries of `listing` have the same path.
pub open spec fn paths_differ<V>(listing: Seq<(Seq<char>, V)>) -> bool {
    forall|i: int, j: int|
        0 <= i < listing.len() && 0 <= j < listing.len() && i != j ==> (#[trigger] listing[i]).0
            != (#[trigger] listing[j]).0
}

/// Some entry of `listing` has the path `path`.
pub open spec fn has_path<V>(listing: Seq<(Seq<char>, V)>, path: Seq<char>) -> bool {
    exists|i: int| 0 <= i < listing.len() && (#[trigger] listing[i]).0 == path
}

/// The pages of `listing` by their paths.
pub open spec fn index_of<V>(listing: Seq<(Seq<char>, V)>) -> Map<Seq<char>, V> {
    Map::new(
        |path: Seq<char>| has_path(listing, path),
        |path: Seq<char>|
            listing[choose|i: int| 0 <= i < listing.len() && (#[trigger] listing[i]).0 == path].1,
    )
}

/// The index holds each entry of a listing under its path.
pub proof fn lemma_index_entry<V>(listing: Seq<(Seq<char>, V)>, i: int)
    requires
        paths_differ(listing),
        0 <= i < listing.len(),
    ensures
        index_of(listing).dom().contains(listing[i].0),
        index_of(listing)[listing[i].0] == listing[i].1,
{
    let path = listing[i].0;
    let j = choose|j: int| 0 <= j < listing.len() && (#[trigger] listing[j]).0 == path;
    assert(j == i);
}

/// An entry with a new path, put anywhere into a listing, is one more
/// entry of its index.
pub proof fn lemma_index_insert<V>(
    listing: Seq<(Seq<char>, V)>,
    at: int,
    entry: (Seq<char>, V),
)
    requires
        paths_differ(listing),
        !has_path(listing, entry.0),
        0 <= at <= listing.len(),
    ensures
        paths_differ(listing.insert(at, entry)),
        index_of(listing.insert(at, entry)) == index_of(listing).insert(entry.0, entry.1),
{
    let longer = listing.insert(at, entry);
    assert forall|i: int, j: int|
        0 <= i < longer.len() && 0 <= j < longer.len() && i != j implies (#[trigger] longer[i]).0
        != (#[trigger] longer[j]).0 by {
        let oi = if i < at {
            i
        } else {
            i - 1
        };
        let oj = if j < at {
            j
        } else {
            j - 1
        };
        if i != at && j != at {
            assert(longer[i] == listing[oi]);
            assert(longer[j] == listing[oj]);
        } else if i == at {
            assert(longer[j] == listing[oj]);
        } else {
            assert(longer[i] == listing[oi]);
        }
    }
    let wanted = index_of(listing).insert(entry.0, entry.1);
    assert forall|path: Seq<char>| #[trigger]
        index_of(longer).dom().contains(path) == wanted.dom().contains(path) by {
        if has_path(longer, path) {
            let i = choose|i: int| 0 <= i < longer.len() && (#[trigger] longer[i]).0 == path;
            if i < at {
                assert(listing[i].0 == path);
            } else if i > at {
                assert(listing[i - 1].0 == path);
            }
        }
        if has_path(listing, path) {
            let i = choose|i: int| 0 <= i < listing.len() && (#[trigger] listing[i]).0 == path;
            if i < at {
                assert(longer[i].0 == path);
            } else {
                assert(longer[i + 1].0 == path);
            }
        }
        if path == entry.0 {
            assert(longer[at].0 == path);
        }
    }
    assert forall|path: Seq<char>| #[trigger] wanted.dom().contains(path) implies index_of(
        longer,
    )[path] == wanted[path] by {
        if path == entry.0 {
            lemma_index_entry(longer, at);
        } else {
            let i = choose|i: int| 0 <= i < listing.len() && (#[trigger] listing[i]).0 == path;
            lemma_index_entry(listing, i);
            if i < at {
                lemma_index_entry(longer, i);
            } else {
                lemma_index_entry(longer, i + 1);
            }
        }
    }
    assert(index_of(longer) =~= wanted);
}

/// An entry taken out of a listing is gone from its index.
pub proof fn lemma_index_remove<V>(listing: Seq<(Seq<char>, V)>, at: int)
    requires
        paths_differ(listing),
        0 <= at < listing.len(),
    ensures
        paths_differ(listing.remove(at)),
        !has_path(listing.remove(at), listing[at].0),
        index_of(listing.remove(at)) == index_of(listing).remove(listing[at].0),
{
    let shorter = listing.remove(at);
    let gone = listing[at].0;
    assert forall|i: int| 0 <= i < shorter.len() implies #[trigger] shorter[i] == listing[if i
        < at {
        i
    } else {
        i + 1
    }] by {}
    assert(paths_differ(shorter));
    let wanted = index_of(listing).remove(gone);
    assert forall|path: Seq<char>| #[trigger]
        index_of(shorter).dom().contains(path) == wanted.dom().contains(path) by {
        if has_path(shorter, path) {
            let i = choose|i: int| 0 <= i < shorter.len() && (#[trigger] shorter[i]).0 == path;
            let o = if i < at {
                i
            } else {
                i + 1
            };
            assert(listing[o].0 == path);
        }
        if has_path(listing, path) && path != gone {
            let i = choose|i: int| 0 <= i < listing.len() && (#[trigger] listing[i]).0 == path;
            if i < at {
                assert(shorter[i].0 == path);
            } else {
                assert(shorter[i - 1].0 == path);
            }
        }
    }
    assert forall|path: Seq<char>| #[trigger] wanted.dom().contains(path) implies index_of(
        shorter,
    )[path] == wanted[path] by {
        let i = choose|i: int| 0 <= i < listing.len() && (#[trigger] listing[i]).0 == path;
        lemma_index_entry(listing, i);
        if i < at {
            lemma_index_entry(shorter, i);
        } else {
            lemma_index_entry(shorter, i - 1);
        }
    }
    assert(index_of(shorter) =~= wanted);
}

/// A listing without the path `path` has no page for it in its index.
pub proof fn lemma_index_without<V>(listing: Seq<(Seq<char>, V)>, path: Seq<char>)
    requires
        !has_path(listing, path),
    ensures
        index_of(listing).remove(path) == index_of(listing),
{
    assert(index_of(listing).remove(path) =~= index_of(listing));
}

/// The paths of the entries of `listing`, in their order.
pub open spec fn paths_of<V>(listing: Seq<(Seq<char>, V)>) -> Seq<Seq<char>> {
    listing.map_values(|e: (Seq<char>, V)| e.0)
}

/// One more element at the end of a sequence is one more at the end of
/// what a filter keeps of it and a function makes of that, or is left out.
pub proof fn lemma_filter_map_step<A, B>(
    s: Seq<A>,
    i: int,
    keep: spec_fn(A) -> bool,
    f: spec_fn(A) -> B,
)
    requires
        0 <= i < s.len(),
    ensures
        s.take(i + 1).filter(keep).map_values(f) == if keep(s[i]) {
            s.take(i).filter(keep).map_values(f).push(f(s[i]))
        } else {
            s.take(i).filter(keep).map_values(f)
        },
        s.take(i + 1).filter(keep) == if keep(s[i]) {
            s.take(i).filter(keep).push(s[i])
        } else {
            s.take(i).filter(keep)
        },
{
    assert(s.take(i + 1) == s.take(i).push(s[i]));
    s.take(i).lemma_filter_push(s[i], keep);
    if keep(s[i]) {
        assert(s.take(i).filter(keep).push(s[i]).map_values(f) == s.take(i).filter(
            keep,
        ).map_values(f).push(f(s[i])));
    }
}

/// What a filter keeps of entries with different paths: entries with
/// different paths, namely those that the filter accepts, each with what
/// was kept for it.
pub proof fn lemma_filter_paths<V>(listing: Seq<(Seq<char>, V)>, keep: spec_fn((Seq<char>, V)) -> bool)
    requires
        paths_differ(listing),
    ensures
        paths_differ(listing.filter(keep)),
        forall|path: Seq<char>| #[trigger]
            has_path(listing.filter(keep), path) <==> has_path(listing, path) && keep(
                (path, index_of(listing)[path]),
            ),
        forall|path: Seq<char>| #[trigger]
            has_path(listing.filter(keep), path) ==> index_of(listing.filter(keep))[path]
                == index_of(listing)[path],
    decreases listing.len(),
{
    reveal(Seq::filter);
    let kept = listing.filter(keep);
    if listing.len() == 0 {
    } else {
        let front = listing.drop_last();
        let last = listing.last();
        let sub = front.filter(keep);
        assert(paths_differ(front)) by {
            assert forall|i: int, j: int|
                0 <= i < front.len() && 0 <= j < front.len() && i != j implies (
            #[trigger] front[i]).0 != (#[trigger] front[j]).0 by {
                assert(front[i] == listing[i]);
                assert(front[j] == listing[j]);
            }
        }
        lemma_filter_paths(front, keep);
        assert(!has_path(front, last.0)) by {
            if has_path(front, last.0) {
                let i = choose|i: int| 0 <= i < front.len() && (#[trigger] front[i]).0 == last.0;
                assert(listing[i] == front[i]);
                assert(listing[listing.len() - 1] == last);
            }
        }
        lemma_index_entry(listing, listing.len() - 1);
        assert forall|path: Seq<char>| has_path(front, path) implies has_path(listing, path)
            && index_of(listing)[path] == index_of(front)[path] by {
            let i = choose|i: int| 0 <= i < front.len() && (#[trigger] front[i]).0 == path;
            assert(listing[i] == front[i]);
            lemma_index_entry(front, i);
            lemma_index_entry(listing, i);
        }
        assert forall|path: Seq<char>| has_path(listing, path) implies has_path(front, path)
            || path == last.0 by {
            let i = choose|i: int| 0 <= i < listing.len() && (#[trigger] listing[i]).0 == path;
            if i < listing.len() - 1 {
                assert(front[i] == listing[i]);
            }
        }
        if keep(last) {
            assert(kept == sub.push(last));
            assert(sub.push(last) == sub.insert(sub.len() as int, last));
            lemma_index_insert(sub, sub.len() as int, last);
            assert forall|path: Seq<char>| #[trigger]
                has_path(kept, path) <==> has_path(listing, path) && keep(
                    (path, index_of(listing)[path]),
                ) by {
                if has_path(kept, path) {
                    let i = choose|i: int| 0 <= i < kept.len() && (#[trigger] kept[i]).0 == path;
                    if i < sub.len() {
                        assert(sub[i] == kept[i]);
                        assert(has_path(sub, path));
                    }
                }
                if has_path(sub, path) {
                    let i = choose|i: int| 0 <= i < sub.len() && (#[trigger] sub[i]).0 == path;
                    assert(kept[i] == sub[i]);
                }
                if path == last.0 {
                    assert(kept[kept.len() - 1] == last);
                    assert((path, index_of(listing)[path]) == last);
                }
            }
            assert forall|path: Seq<char>| #[trigger] has_path(kept, path) implies index_of(
                kept,
            )[path] == index_of(listing)[path] by {
                assert(index_of(kept) == index_of(sub).insert(last.0, last.1));
            }
        } else {
            assert(kept == sub);
            assert forall|path: Seq<char>| #[trigger]
                has_path(kept, path) <==> has_path(listing, path) && keep(
                    (path, index_of(listing)[path]),
                ) by {
                if path == last.0 {
                    assert((path, index_of(listing)[path]) == last);
                }
            }
        }
    }
}

/// What a function that keeps the paths makes of entries with different
/// paths: entries with different paths again, with the same paths.
pub proof fn lemma_map_paths<V, W>(listing: Seq<(Seq<char>, V)>, f: spec_fn((Seq<char>, V)) -> (
    Seq<char>,
    W,
))
    requires
        paths_differ(listing),
        forall|e: (Seq<char>, V)| (#[trigger] f(e)).0 == e.0,
    ensures
        paths_differ(listing.map_values(f)),
        forall|path: Seq<char>| #[trigger]
            has_path(listing.map_values(f), path) <==> has_path(listing, path),
        forall|path: Seq<char>| #[trigger]
            has_path(listing, path) ==> index_of(listing.map_values(f))[path] == f(
                (path, index_of(listing)[path]),
            ).1,
{
    let made = listing.map_values(f);
    assert forall|i: int, j: int|
        0 <= i < made.len() && 0 <= j < made.len() && i != j implies (#[trigger] made[i]).0 != (
    #[trigger] made[j]).0 by {
        assert(made[i] == f(listing[i]));
        assert(made[j] == f(listing[j]));
    }
    assert forall|path: Seq<char>| #[trigger]
        has_path(made, path) <==> has_path(listing, path) by {
        if has_path(made, path) {
            let i = choose|i: int| 0 <= i < made.len() && (#[trigger] made[i]).0 == path;
            assert(made[i] == f(listing[i]));
            assert(listing[i].0 == path);
        }
        if has_path(listing, path) {
            let i = choose|i: int| 0 <= i < listing.len() && (#[trigger] listing[i]).0 == path;
            assert(made[i] == f(listing[i]));
        }
    }
    assert forall|path: Seq<char>| #[trigger] has_path(listing, path) implies index_of(made)[path]
        == f((path, index_of(listing)[path])).1 by {
        let i = choose|i: int| 0 <= i < listing.len() && (#[trigger] listing[i]).0 == path;
        assert(made[i] == f(listing[i]));
        lemma_index_entry(listing, i);
        lemma_index_entry(made, i);
        assert((path, index_of(listing)[path]) == listing[i]);
    }
}

/// Two sequences of entries that share no path, one after the other: the
/// paths differ, and each path has what it had.
pub proof fn lemma_concat_paths<V>(a: Seq<(Seq<char>, V)>, b: Seq<(Seq<char>, V)>)
    requires
        paths_differ(a),
        paths_differ(b),
        forall|path: Seq<char>| !(has_path(a, path) && has_path(b, path)),
    ensures
        paths_differ(a + b),
        forall|path: Seq<char>| #[trigger]
            has_path(a + b, path) <==> has_path(a, path) || has_path(b, path),
        forall|path: Seq<char>| #[trigger]
            has_path(a, path) ==> index_of(a + b)[path] == index_of(a)[path],
        forall|path: Seq<char>| #[trigger]
            has_path(b, path) ==> index_of(a + b)[path] == index_of(b)[path],
{
    let both = a + b;
    assert forall|i: int, j: int|
        0 <= i < both.len() && 0 <= j < both.len() && i != j implies (#[trigger] both[i]).0 != (
    #[trigger] both[j]).0 by {
        if i < a.len() && j < a.len() {
            assert(both[i] == a[i] && both[j] == a[j]);
        } else if i >= a.len() && j >= a.len() {
            assert(both[i] == b[i - a.len()] && both[j] == b[j - a.len()]);
        } else if i < a.len() {
            assert(both[i] == a[i] && both[j] == b[j - a.len()]);
            assert(has_path(a, a[i].0));
            assert(has_path(b, b[j - a.len()].0));
        } else {
            assert(both[j] == a[j] && both[i] == b[i - a.len()]);
            assert(has_path(a, a[j].0));
            assert(has_path(b, b[i - a.len()].0));
        }
    }
    assert forall|path: Seq<char>| #[trigger]
        has_path(both, path) <==> has_path(a, path) || has_path(b, path) by {
        if has_path(both, path) {
            let i = choose|i: int| 0 <= i < both.len() && (#[trigger] both[i]).0 == path;
            if i < a.len() {
                assert(a[i] == both[i]);
            } else {
                assert(b[i - a.len()] == both[i]);
            }
        }
        if has_path(a, path) {
            let i = choose|i: int| 0 <= i < a.len() && (#[trigger] a[i]).0 == path;
            assert(both[i] == a[i]);
        }
        if has_path(b, path) {
            let i = choose|i: int| 0 <= i < b.len() && (#[trigger] b[i]).0 == path;
            assert(both[i + a.len()] == b[i]);
        }
    }
    assert forall|path: Seq<char>| #[trigger] has_path(a, path) implies index_of(both)[path]
        == index_of(a)[path] by {
        let i = choose|i: int| 0 <= i < a.len() && (#[trigger] a[i]).0 == path;
        assert(both[i] == a[i]);
        lemma_index_entry(a, i);
        lemma_index_entry(both, i);
    }
    assert forall|path: Seq<char>| #[trigger] has_path(b, path) implies index_of(both)[path]
        == index_of(b)[path] by {
        let i = choose|i: int| 0 <= i < b.len() && (#[trigger] b[i]).0 == path;
        assert(both[i + a.len()] == b[i]);
        lemma_index_entry(b, i);
        lemma_index_entry(both, i + a.len());
    }
}

/// What a filter keeps of a sequence of which it accepts no element is
/// nothing.
pub proof fn lemma_filter_none<A>(s: Seq<A>, keep: spec_fn(A) -> bool)
    requires
        forall|i: int| 0 <= i < s.len() ==> !keep(#[trigger] s[i]),
    ensures
        s.filter(keep) == Seq::<A>::empty(),
    decreases s.len(),
{
    reveal(Seq::filter);
    if s.len() > 0 {
        assert forall|i: int| 0 <= i < s.drop_last().len() implies !keep(
            #[trigger] s.drop_last()[i],
        ) by {
            assert(s.drop_last()[i] == s[i]);
        }
        lemma_filter_none(s.drop_last(), keep);
    }
}

/// What a filter keeps of a sequence of which it accepts every element is
/// the sequence.
pub proof fn lemma_filter_all<A>(s: Seq<A>, keep: spec_fn(A) -> bool)
    requires
        forall|i: int| 0 <= i < s.len() ==> keep(#[trigger] s[i]),
    ensures
        s.filter(keep) == s,
    decreases s.len(),
{
    reveal(Seq::filter);
    if s.len() > 0 {
        assert forall|i: int| 0 <= i < s.drop_last().len() implies keep(
            #[trigger] s.drop_last()[i],
        ) by {
            assert(s.drop_last()[i] == s[i]);
        }
        lemma_filter_all(s.drop_last(), keep);
        assert(s.drop_last().push(s.last()) == s);
    }
}

} // verus!
