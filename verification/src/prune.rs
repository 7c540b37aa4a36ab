//! Pruning: folding nested matches into their topmost directory.
//!
//! A rule may select a directory and, through another pattern, what lies
//! inside it. Only the directory is kept, so that nothing is counted or
//! removed twice.

use crate::path::ascending;
use crate::path::is_within;
use crate::path::lemma_lt_asymmetric;
use crate::path::lemma_lt_irreflexive;
use crate::path::lemma_parent_first;
use crate::path::lemma_within_transitive;
use crate::path::path_lt;
use crate::path::views;
use crate::path::within;
use vstd::prelude::*;

verus! {

/// What a fresh look at a path finds.
#[derive(Clone, Copy, Debug, PartialEq, Eq, Structural)]
pub enum PathKind {
    /// Nothing is there any more, or it cannot be examined.
    Missing,
    /// A directory.
    Directory,
    /// Anything else: a file, or a link that is not followed.
    File,
}

/// The kind reported for the candidate at `i`; none reported counts as missing.
pub open spec fn kind_at(kinds: Seq<PathKind>, i: int) -> PathKind {
    if 0 <= i < kinds.len() {
        kinds[i]
    } else {
        PathKind::Missing
    }
}

/// The candidate at `i` lies within an earlier candidate that is a directory.
pub open spec fn shadowed(candidates: Seq<Seq<char>>, kinds: Seq<PathKind>, i: int) -> bool {
    exists|j: int|
        0 <= j < i && kind_at(kinds, j) == PathKind::Directory && within(
            candidates[i],
            #[trigger] candidates[j],
        )
}

/// The candidate at `i` is kept: it is still there, and no earlier candidate
/// that is a directory holds it.
pub open spec fn kept_at(candidates: Seq<Seq<char>>, kinds: Seq<PathKind>, i: int) -> bool {
    kind_at(kinds, i) != PathKind::Missing && !shadowed(candidates, kinds, i)
}

/// The kept candidates among the first `n`, in their order.
pub open spec fn pruned_upto(candidates: Seq<Seq<char>>, kinds: Seq<PathKind>, n: int) -> Seq<
    Seq<char>,
>
    decreases n,
{
    if n <= 0 {
        Seq::empty()
    } else {
        let rest = pruned_upto(candidates, kinds, n - 1);
        if kept_at(candidates, kinds, n - 1) {
            rest.push(candidates[n - 1])
        } else {
            rest
        }
    }
}

/// The kept candidates, in their order.
pub open spec fn pruned(candidates: Seq<Seq<char>>, kinds: Seq<PathKind>) -> Seq<Seq<char>> {
    pruned_upto(candidates, kinds, candidates.len() as int)
}

/// The candidate at `i` lies within one of the candidates that `roots` names.
spec fn under_root(candidates: Seq<Seq<char>>, roots: Seq<usize>, i: int) -> bool {
    exists|q: int| 0 <= q < roots.len() && within(candidates[i], candidates[#[trigger] roots[q] as int])
}

/// `roots` names kept directories among the first `n` candidates, and every
/// directory among those lies within one of them.
spec fn covering(
    candidates: Seq<Seq<char>>,
    kinds: Seq<PathKind>,
    roots: Seq<usize>,
    n: int,
) -> bool {
    &&& forall|q: int|
        0 <= q < roots.len() ==> (#[trigger] roots[q]) < n && kind_at(kinds, roots[q] as int)
            == PathKind::Directory
    &&& forall|j: int|
        0 <= j < n && #[trigger] kind_at(kinds, j) == PathKind::Directory ==> under_root(
            candidates,
            roots,
            j,
        )
}

/// With a covering list of roots, a candidate is shadowed exactly when it
/// lies within a root.
proof fn lemma_shadowed_by_root(
    candidates: Seq<Seq<char>>,
    kinds: Seq<PathKind>,
    roots: Seq<usize>,
    i: int,
)
    requires
        0 <= i < candidates.len(),
        covering(candidates, kinds, roots, i),
    ensures
        shadowed(candidates, kinds, i) == under_root(candidates, roots, i),
{
    if under_root(candidates, roots, i) {
        let q = choose|q: int|
            0 <= q < roots.len() && within(candidates[i], candidates[#[trigger] roots[q] as int]);
        let j = roots[q] as int;
        assert(0 <= j < i && kind_at(kinds, j) == PathKind::Directory && within(
            candidates[i],
            candidates[j],
        ));
    }
    if shadowed(candidates, kinds, i) {
        let j = choose|j: int|
            0 <= j < i && kind_at(kinds, j) == PathKind::Directory && within(
                candidates[i],
                #[trigger] candidates[j],
            );
        assert(under_root(candidates, roots, j));
        let q = choose|q: int|
            0 <= q < roots.len() && within(candidates[j], candidates[#[trigger] roots[q] as int]);
        lemma_within_transitive(candidates[i], candidates[j], candidates[roots[q] as int]);
    }
}

/// The covering list stays one when the next candidate is taken in: pushed
/// if it is a kept directory, left alone otherwise.
proof fn lemma_covering_step(
    candidates: Seq<Seq<char>>,
    kinds: Seq<PathKind>,
    roots: Seq<usize>,
    i: int,
    next: Seq<usize>,
)
    requires
        0 <= i < candidates.len(),
        i <= usize::MAX,
        covering(candidates, kinds, roots, i),
        next == if kept_at(candidates, kinds, i) && kind_at(kinds, i) == PathKind::Directory {
            roots.push(i as usize)
        } else {
            roots
        },
    ensures
        covering(candidates, kinds, next, i + 1),
{
    lemma_shadowed_by_root(candidates, kinds, roots, i);
    assert forall|j: int|
        0 <= j < i + 1 && #[trigger] kind_at(kinds, j) == PathKind::Directory implies under_root(
        candidates,
        next,
        j,
    ) by {
        if j < i || !kept_at(candidates, kinds, i) {
            assert(under_root(candidates, roots, j));
            let q = choose|q: int|
                0 <= q < roots.len() && within(
                    candidates[j],
                    candidates[#[trigger] roots[q] as int],
                );
            assert(next[q] == roots[q]);
        } else {
            assert(next[roots.len() as int] == i);
        }
    }
}

/// Whether the candidate at `i` lies within one of the candidates that
/// `roots` names.
fn lies_under(candidates: &Vec<String>, roots: &Vec<usize>, i: usize) -> (r: bool)
    requires
        i < candidates.len(),
        forall|q: int| 0 <= q < roots.len() ==> (#[trigger] roots[q]) < candidates.len(),
    ensures
        r == under_root(views(candidates@), roots@, i as int),
{
    let ghost c = views(candidates@);
    let mut q: usize = 0;
    while q < roots.len()
        invariant
            q <= roots.len(),
            i < candidates.len(),
            c == views(candidates@),
            forall|p: int| 0 <= p < roots.len() ==> (#[trigger] roots[p]) < candidates.len(),
            forall|p: int| 0 <= p < q ==> !within(c[i as int], c[#[trigger] roots[p] as int]),
        decreases roots.len() - q,
    {
        if is_within(candidates[i].as_str(), candidates[roots[q]].as_str()) {
            return true;
        }
        q += 1;
    }
    false
}

/// Folds nested matches into their topmost directory.
///
/// `candidates` are matched paths and `kinds[i]` is what a fresh look at
/// `candidates[i]` found; a candidate without a reported kind counts as
/// missing. A candidate is kept when it is still there and lies within no
/// earlier candidate that is a directory.
pub fn prune(candidates: &Vec<String>, kinds: &Vec<PathKind>) -> (kept: Vec<String>)
    ensures
        views(kept@) == pruned(views(candidates@), kinds@),
{
    let ghost c = views(candidates@);
    let mut kept: Vec<String> = Vec::new();
    let mut roots: Vec<usize> = Vec::new();
    let mut i: usize = 0;
    while i < candidates.len()
        invariant
            i <= candidates.len(),
            c == views(candidates@),
            views(kept@) == pruned_upto(c, kinds@, i as int),
            covering(c, kinds@, roots@, i as int),
        decreases candidates.len() - i,
    {
        let kind = if i < kinds.len() {
            kinds[i]
        } else {
            PathKind::Missing
        };
        let covered = lies_under(candidates, &roots, i);
        proof {
            lemma_shadowed_by_root(c, kinds@, roots@, i as int);
            lemma_covering_step(
                c,
                kinds@,
                roots@,
                i as int,
                if kept_at(c, kinds@, i as int) && kind == PathKind::Directory {
                    roots@.push(i)
                } else {
                    roots@
                },
            );
        }
        if kind != PathKind::Missing && !covered {
            let ghost before = kept@;
            kept.push(candidates[i].clone());
            proof {
                assert(views(kept@) =~= views(before).push(c[i as int]));
            }
            if kind == PathKind::Directory {
                roots.push(i);
            }
        }
        i += 1;
    }
    kept
}

/// Every path that pruning keeps is a candidate that `kept_at` admits, and
/// every such candidate is kept.
pub proof fn lemma_pruned_members(
    candidates: Seq<Seq<char>>,
    kinds: Seq<PathKind>,
    n: int,
    path: Seq<char>,
)
    requires
        0 <= n <= candidates.len(),
    ensures
        pruned_upto(candidates, kinds, n).contains(path) <==> exists|i: int|
            0 <= i < n && kept_at(candidates, kinds, i) && #[trigger] candidates[i] == path,
    decreases n,
{
    if n > 0 {
        lemma_pruned_members(candidates, kinds, n - 1, path);
        let rest = pruned_upto(candidates, kinds, n - 1);
        let all = pruned_upto(candidates, kinds, n);
        if all.contains(path) {
            let k = choose|k: int| 0 <= k < all.len() && all[k] == path;
            if k < rest.len() {
                assert(rest[k] == path);
            } else {
                assert(kept_at(candidates, kinds, n - 1) && candidates[n - 1] == path);
            }
        }
        if exists|i: int|
            0 <= i < n && kept_at(candidates, kinds, i) && #[trigger] candidates[i] == path {
            let i = choose|i: int|
                0 <= i < n && kept_at(candidates, kinds, i) && #[trigger] candidates[i] == path;
            if i < n - 1 {
                let k = choose|k: int| 0 <= k < rest.len() && rest[k] == path;
                assert(all[k] == path);
            } else {
                assert(all[rest.len() as int] == path);
            }
        }
    }
}

/// Pruning keeps the order of the candidates: what comes of an ascending
/// list is ascending, so no path is kept twice.
pub proof fn lemma_pruned_ascending(candidates: Seq<Seq<char>>, kinds: Seq<PathKind>, n: int)
    requires
        ascending(candidates),
        0 <= n <= candidates.len(),
    ensures
        ascending(pruned_upto(candidates, kinds, n)),
    decreases n,
{
    if n > 0 {
        lemma_pruned_ascending(candidates, kinds, n - 1);
        let rest = pruned_upto(candidates, kinds, n - 1);
        let all = pruned_upto(candidates, kinds, n);
        assert forall|i: int, j: int| 0 <= i < j < all.len() implies path_lt(
            all[i],
            all[j],
        ) by {
            if j < rest.len() {
                assert(all[i] == rest[i] && all[j] == rest[j]);
            } else {
                assert(rest.contains(rest[i]));
                lemma_pruned_members(candidates, kinds, n - 1, rest[i]);
                let k = choose|k: int|
                    0 <= k < n - 1 && kept_at(candidates, kinds, k) && #[trigger] candidates[k]
                        == rest[i];
                assert(path_lt(candidates[k], candidates[n - 1]));
            }
        }
    }
}

/// At most one task for each subtree: of two kept paths, none lies within
/// the other if that other is a directory.
pub proof fn lemma_kept_not_nested(
    candidates: Seq<Seq<char>>,
    kinds: Seq<PathKind>,
    i: int,
    j: int,
)
    requires
        ascending(candidates),
        0 <= i < candidates.len(),
        0 <= j < candidates.len(),
        i != j,
        kept_at(candidates, kinds, i),
        kept_at(candidates, kinds, j),
        kind_at(kinds, j) == PathKind::Directory,
    ensures
        !within(candidates[i], candidates[j]),
{
    if within(candidates[i], candidates[j]) {
        if j < i {
            assert(shadowed(candidates, kinds, i));
        } else {
            assert(path_lt(candidates[i], candidates[j]));
            lemma_lt_irreflexive(candidates[i]);
            lemma_parent_first(candidates[i], candidates[j]);
            lemma_lt_asymmetric(candidates[i], candidates[j]);
        }
    }
}

/// Nothing that is still there is lost: each such candidate is kept, or
/// lies within a kept directory.
pub proof fn lemma_kept_covers(candidates: Seq<Seq<char>>, kinds: Seq<PathKind>, i: int)
    requires
        0 <= i < candidates.len(),
        kind_at(kinds, i) != PathKind::Missing,
    ensures
        exists|j: int|
            0 <= j <= i && kept_at(candidates, kinds, j) && (j == i || kind_at(kinds, j)
                == PathKind::Directory) && within(candidates[i], #[trigger] candidates[j]),
    decreases i,
{
    if kept_at(candidates, kinds, i) {
        assert(within(candidates[i], candidates[i]));
    } else {
        let j = choose|j: int|
            0 <= j < i && kind_at(kinds, j) == PathKind::Directory && within(
                candidates[i],
                #[trigger] candidates[j],
            );
        lemma_kept_covers(candidates, kinds, j);
        let k = choose|k: int|
            0 <= k <= j && kept_at(candidates, kinds, k) && (k == j || kind_at(kinds, k)
                == PathKind::Directory) && within(candidates[j], #[trigger] candidates[k]);
        lemma_within_transitive(candidates[i], candidates[j], candidates[k]);
        assert(within(candidates[i], candidates[k]));
    }
}

/// A directory absorbs its subtree: when every candidate is one directory or
/// lies beneath it, and the directory is still there, pruning keeps that
/// directory and nothing else.
pub proof fn lemma_directory_absorbs_subtree(
    candidates: Seq<Seq<char>>,
    kinds: Seq<PathKind>,
    d: int,
)
    requires
        ascending(candidates),
        0 <= d < candidates.len(),
        kind_at(kinds, d) == PathKind::Directory,
        forall|i: int| 0 <= i < candidates.len() ==> within(#[trigger] candidates[i], candidates[d]),
    ensures
        pruned(candidates, kinds) == seq![candidates[d]],
{
    if d > 0 {
        assert(path_lt(candidates[0], candidates[d]));
        lemma_lt_irreflexive(candidates[0]);
        lemma_parent_first(candidates[0], candidates[d]);
        lemma_lt_asymmetric(candidates[0], candidates[d]);
    }
    lemma_only_first_kept(candidates, kinds, candidates.len() as int);
}

/// When the first candidate is a directory that holds all the others, it
/// alone is kept among the first `n`.
proof fn lemma_only_first_kept(candidates: Seq<Seq<char>>, kinds: Seq<PathKind>, n: int)
    requires
        1 <= n <= candidates.len(),
        kind_at(kinds, 0) == PathKind::Directory,
        forall|i: int| 0 <= i < candidates.len() ==> within(#[trigger] candidates[i], candidates[0]),
    ensures
        pruned_upto(candidates, kinds, n) == seq![candidates[0]],
    decreases n,
{
    if n == 1 {
        assert(pruned_upto(candidates, kinds, 0) =~= Seq::empty());
        assert(!shadowed(candidates, kinds, 0));
        assert(pruned_upto(candidates, kinds, 1) =~= seq![candidates[0]]);
    } else {
        lemma_only_first_kept(candidates, kinds, n - 1);
        assert(within(candidates[n - 1], candidates[0]));
        assert(shadowed(candidates, kinds, n - 1));
    }
}

} // verus!
