//! Lists of entries kept in path order, each path once.

use crate::path::ascending;
use crate::path::compare_paths;
use crate::path::lemma_lt_irreflexive;
use crate::path::lemma_lt_transitive;
use crate::path::path_lt;
use crate::path::PathOrder;
use vstd::prelude::*;

verus! {

/// One path of a listing.
#[derive(Debug, PartialEq, Eq)]
pub struct Entry {
    /// The path, relative to the root of the listing.
    pub path: String,
    /// Whether the path was a directory when the listing was taken.
    pub is_dir: bool,
}

/// The entries of a list, each as its path and whether it is a directory.
pub open spec fn listing_of(entries: Seq<Entry>) -> Seq<(Seq<char>, bool)> {
    Seq::new(entries.len(), |i: int| (entries[i].path@, entries[i].is_dir))
}

/// The paths of a listing, in its order.
pub open spec fn paths_of(listing: Seq<(Seq<char>, bool)>) -> Seq<Seq<char>> {
    Seq::new(listing.len(), |i: int| listing[i].0)
}

/// Putting a path into an ascending list, between what sorts before it and
/// what sorts after it, leaves the list ascending.
proof fn lemma_insert_ascending(paths: Seq<Seq<char>>, at: int, path: Seq<char>)
    requires
        ascending(paths),
        0 <= at <= paths.len(),
        forall|j: int| 0 <= j < at ==> path_lt(#[trigger] paths[j], path),
        forall|j: int| at <= j < paths.len() ==> path_lt(path, #[trigger] paths[j]),
    ensures
        ascending(paths.insert(at, path)),
{
    let grown = paths.insert(at, path);
    assert forall|i: int, j: int| 0 <= i < j < grown.len() implies path_lt(grown[i], grown[j]) by {
        if i < at && j > at {
            assert(grown[i] == paths[i] && grown[j] == paths[j - 1]);
        } else if i < at && j < at {
            assert(grown[i] == paths[i] && grown[j] == paths[j]);
        } else if i > at {
            assert(grown[i] == paths[i - 1] && grown[j] == paths[j - 1]);
        } else if i == at {
            assert(grown[j] == paths[j - 1]);
        } else {
            assert(grown[i] == paths[i]);
        }
    }
}

/// Where `path` stands in an ascending list of entries: the index of the
/// first entry that does not sort before it, and whether that entry is it.
fn locate(entries: &Vec<Entry>, path: &str) -> (place: (usize, bool))
    requires
        ascending(paths_of(listing_of(entries@))),
    ensures
        place.0 <= entries.len(),
        forall|j: int| 0 <= j < place.0 ==> path_lt(#[trigger] entries[j].path@, path@),
        place.1 ==> place.0 < entries.len() && entries[place.0 as int].path@ == path@,
        !place.1 ==> forall|j: int|
            place.0 <= j < entries.len() ==> path_lt(path@, #[trigger] entries[j].path@),
{
    let ghost paths = paths_of(listing_of(entries@));
    let mut low: usize = 0;
    let mut high: usize = entries.len();
    while low < high
        invariant
            low <= high <= entries.len(),
            paths == paths_of(listing_of(entries@)),
            ascending(paths),
            forall|j: int| 0 <= j < low ==> path_lt(#[trigger] entries[j].path@, path@),
            forall|j: int| high <= j < entries.len() ==> path_lt(path@, #[trigger] entries[j].path@),
        decreases high - low,
    {
        let middle = low + (high - low) / 2;
        assert(paths[middle as int] == entries[middle as int].path@);
        match compare_paths(entries[middle].path.as_str(), path) {
            PathOrder::Before => {
                proof {
                    assert forall|j: int| 0 <= j < middle + 1 implies path_lt(
                        #[trigger] entries[j].path@,
                        path@,
                    ) by {
                        if j < middle {
                            assert(path_lt(paths[j], paths[middle as int]));
                            lemma_lt_transitive(entries[j].path@, entries[middle as int].path@, path@);
                        }
                    }
                }
                low = middle + 1;
            },
            PathOrder::Same => {
                proof {
                    assert forall|j: int| 0 <= j < middle implies path_lt(
                        #[trigger] entries[j].path@,
                        path@,
                    ) by {
                        assert(path_lt(paths[j], paths[middle as int]));
                    }
                }
                return (middle, true);
            },
            PathOrder::After => {
                proof {
                    assert forall|j: int| middle <= j < entries.len() implies path_lt(
                        path@,
                        #[trigger] entries[j].path@,
                    ) by {
                        if j > middle {
                            assert(path_lt(paths[middle as int], paths[j]));
                            lemma_lt_transitive(path@, entries[middle as int].path@, entries[j].path@);
                        }
                    }
                }
                high = middle;
            },
        }
    }
    (low, false)
}

/// Some entry of the list has this path.
pub open spec fn holds_path(entries: Seq<Entry>, path: Seq<char>) -> bool {
    exists|k: int| 0 <= k < entries.len() && #[trigger] entries[k].path@ == path
}

/// `next` is `entries` with one entry more, at `at`.
pub open spec fn grown_at(
    entries: Seq<Entry>,
    next: Seq<Entry>,
    at: int,
    path: Seq<char>,
    is_dir: bool,
) -> bool {
    &&& 0 <= at <= entries.len()
    &&& next.len() == entries.len() + 1
    &&& next[at].path@ == path
    &&& next[at].is_dir == is_dir
    &&& forall|k: int| 0 <= k < at ==> next[k] == entries[k]
    &&& forall|k: int| at <= k < entries.len() ==> next[k + 1] == entries[k]
}

/// Puts a path into an ascending list of entries unless it is there
/// already, and says where it went.
pub(crate) fn put(entries: &mut Vec<Entry>, path: &str, is_dir: bool) -> (at: Option<usize>)
    requires
        ascending(paths_of(listing_of(old(entries)@))),
    ensures
        ascending(paths_of(listing_of(final(entries)@))),
        match at {
            None => holds_path(old(entries)@, path@) && final(entries)@ == old(entries)@,
            Some(at) => !holds_path(old(entries)@, path@) && grown_at(
                old(entries)@,
                final(entries)@,
                at as int,
                path@,
                is_dir,
            ),
        },
{
    let ghost before = entries@;
    let (place, present) = locate(entries, path);
    if present {
        assert(before[place as int].path@ == path@);
        return None;
    }
    proof {
        let paths = paths_of(listing_of(before));
        assert forall|k: int| 0 <= k < before.len() implies (#[trigger] before[k]).path@
            != path@ by {
            lemma_lt_irreflexive(path@);
        }
        assert forall|j: int| 0 <= j < place implies path_lt(#[trigger] paths[j], path@) by {
            assert(paths[j] == before[j].path@);
        }
        assert forall|j: int| place <= j < paths.len() implies path_lt(
            path@,
            #[trigger] paths[j],
        ) by {
            assert(paths[j] == before[j].path@);
        }
        lemma_insert_ascending(paths, place as int, path@);
    }
    entries.insert(place, Entry { path: path.to_owned(), is_dir });
    proof {
        assert(paths_of(listing_of(entries@)) =~= paths_of(listing_of(before)).insert(
            place as int,
            path@,
        ));
    }
    Some(place)
}

} // verus!
