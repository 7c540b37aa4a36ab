//! Path metrics: how many bytes a path takes, and which directories lie
//! directly in a root.

use crate::listing::Entry;
use crate::listing::holds_path;
use crate::listing::listing_of;
use crate::listing::paths_of;
use crate::listing::put;
use crate::path::ascending;
use crate::path::views;
use vstd::prelude::*;

verus! {

/// What kind of thing a path is.
#[derive(Clone, Copy, Debug, PartialEq, Eq, Structural)]
pub enum FileKind {
    File,
    Directory,
    Symlink,
    Other,
}

/// What the file system says of one path: its kind and its length.
#[derive(Clone, Copy, Debug, PartialEq, Eq, Structural)]
pub struct Metadata {
    pub kind: FileKind,
    pub len: u64,
}

/// One step of a walk for sizes: an entry with what the file system says
/// of it, or what went wrong.
#[derive(Debug)]
pub enum Sized {
    Entry(Metadata),
    Failed(String),
}

/// How the size of a path is to be had.
#[derive(Clone, Copy, Debug, PartialEq, Eq, Structural)]
pub enum SizePlan {
    /// It is known: so many bytes.
    Known(u64),
    /// The path is a directory; what it holds has to be walked and summed.
    Walk,
}

/// Why a size could not be had.
#[derive(Debug, PartialEq, Eq)]
pub enum SizeError {
    /// An entry could not be read; holds what the walk said.
    Unreadable(String),
    /// The sum does not fit in 64 bits.
    TooLarge,
}

/// The bytes that one entry adds to the size of the directory that holds
/// it: the length of a file, and of a link where links are not followed.
pub open spec fn counted_len(entry: Metadata, follow_symlinks: bool) -> nat {
    match entry.kind {
        FileKind::File => entry.len as nat,
        FileKind::Symlink => if follow_symlinks {
            0
        } else {
            entry.len as nat
        },
        _ => 0,
    }
}

/// The first failure among the steps, if there is one.
pub open spec fn first_failure(steps: Seq<Sized>) -> Option<Seq<char>>
    decreases steps.len(),
{
    if steps.len() == 0 {
        None
    } else {
        match first_failure(steps.drop_last()) {
            Some(said) => Some(said),
            None => match steps.last() {
                Sized::Failed(said) => Some(said@),
                Sized::Entry(_) => None,
            },
        }
    }
}

/// The bytes that the entries among the steps add up to.
pub open spec fn summed(steps: Seq<Sized>, follow_symlinks: bool) -> nat
    decreases steps.len(),
{
    if steps.len() == 0 {
        0
    } else {
        summed(steps.drop_last(), follow_symlinks) + match steps.last() {
            Sized::Entry(entry) => counted_len(entry, follow_symlinks),
            Sized::Failed(_) => 0,
        }
    }
}

/// The sum over the first steps is no more than the sum over all.
pub proof fn lemma_summed_grows(steps: Seq<Sized>, follow_symlinks: bool, n: int)
    requires
        0 <= n <= steps.len(),
    ensures
        summed(steps.take(n), follow_symlinks) <= summed(steps, follow_symlinks),
    decreases steps.len() - n,
{
    if n == steps.len() {
        assert(steps.take(n) =~= steps);
    } else {
        lemma_summed_grows(steps, follow_symlinks, n + 1);
        assert(steps.take(n + 1).drop_last() =~= steps.take(n));
    }
}

/// A failure among the first steps is the first failure among all.
proof fn lemma_failure_stays(steps: Seq<Sized>, n: int)
    requires
        0 <= n <= steps.len(),
        first_failure(steps.take(n)) is Some,
    ensures
        first_failure(steps) == first_failure(steps.take(n)),
    decreases steps.len() - n,
{
    if n < steps.len() {
        assert(steps.take(n + 1).drop_last() =~= steps.take(n));
        lemma_failure_stays(steps, n + 1);
    } else {
        assert(steps.take(n) =~= steps);
    }
}

/// Says how the size of a path is to be had from what the file system
/// says of the path itself.
///
/// A file has its length. A link that is not followed has the length of
/// the link. A directory has to be walked. Anything else takes no bytes.
pub fn size_plan(path: Metadata, follow_symlinks: bool) -> (plan: SizePlan)
    ensures
        plan == match path.kind {
            FileKind::File => SizePlan::Known(path.len),
            FileKind::Symlink => if follow_symlinks {
                SizePlan::Known(0)
            } else {
                SizePlan::Known(path.len)
            },
            FileKind::Directory => SizePlan::Walk,
            FileKind::Other => SizePlan::Known(0),
        },
{
    match path.kind {
        FileKind::File => SizePlan::Known(path.len),
        FileKind::Symlink => if follow_symlinks {
            SizePlan::Known(0)
        } else {
            SizePlan::Known(path.len)
        },
        FileKind::Directory => SizePlan::Walk,
        FileKind::Other => SizePlan::Known(0),
    }
}

/// The size of a directory from a walk of it: the lengths of its files,
/// and of its links where links are not followed, added up. The first
/// entry that could not be read fails the whole.
pub fn walked_size(steps: &Vec<Sized>, follow_symlinks: bool) -> (size: Result<u64, SizeError>)
    ensures
        match size {
            Ok(bytes) => first_failure(steps@) is None && bytes == summed(
                steps@,
                follow_symlinks,
            ),
            Err(SizeError::Unreadable(said)) => first_failure(steps@) == Some(said@),
            Err(SizeError::TooLarge) => first_failure(steps@) is None && summed(
                steps@,
                follow_symlinks,
            ) > u64::MAX,
        },
{
    let mut i: usize = 0;
    while i < steps.len()
        invariant
            i <= steps.len(),
            first_failure(steps@.take(i as int)) is None,
        decreases steps.len() - i,
    {
        proof {
            assert(steps@.take(i + 1).drop_last() =~= steps@.take(i as int));
        }
        if let Sized::Failed(said) = &steps[i] {
            proof {
                lemma_failure_stays(steps@, i + 1);
            }
            return Err(SizeError::Unreadable(said.clone()));
        }
        i += 1;
    }
    assert(steps@.take(i as int) =~= steps@);
    let mut total: u64 = 0;
    let mut k: usize = 0;
    while k < steps.len()
        invariant
            k <= steps.len(),
            first_failure(steps@) is None,
            total == summed(steps@.take(k as int), follow_symlinks),
        decreases steps.len() - k,
    {
        proof {
            assert(steps@.take(k + 1).drop_last() =~= steps@.take(k as int));
            lemma_summed_grows(steps@, follow_symlinks, k + 1);
        }
        if let Sized::Entry(entry) = &steps[k] {
            let counted = match entry.kind {
                FileKind::File => true,
                FileKind::Symlink => !follow_symlinks,
                _ => false,
            };
            if counted {
                match total.checked_add(entry.len) {
                    Some(more) => {
                        total = more;
                    },
                    None => {
                        return Err(SizeError::TooLarge);
                    },
                }
            }
        }
        k += 1;
    }
    assert(steps@.take(k as int) =~= steps@);
    Ok(total)
}

/// Some directory among the first `n` children has this path.
pub open spec fn is_subdirectory(children: Seq<Entry>, n: int, path: Seq<char>) -> bool {
    exists|k: int| 0 <= k < n && (#[trigger] children[k]).is_dir && children[k].path@ == path
}

/// The directories among the children of a root, each once, in path order.
pub fn subdirectories(children: &Vec<Entry>) -> (found: Vec<String>)
    ensures
        ascending(views(found@)),
        forall|path: Seq<char>|
            views(found@).contains(path) <==> is_subdirectory(
                children@,
                children@.len() as int,
                path,
            ),
{
    let mut sorted: Vec<Entry> = Vec::new();
    let mut i: usize = 0;
    while i < children.len()
        invariant
            i <= children.len(),
            ascending(paths_of(listing_of(sorted@))),
            forall|path: Seq<char>|
                holds_path(sorted@, path) <==> is_subdirectory(children@, i as int, path),
        decreases children.len() - i,
    {
        let ghost before = sorted@;
        if children[i].is_dir {
            let placed = put(&mut sorted, children[i].path.as_str(), true);
            proof {
                let added = children@[i as int].path@;
                assert forall|path: Seq<char>| holds_path(sorted@, path) <==> is_subdirectory(
                    children@,
                    i + 1,
                    path,
                ) by {
                    assert(holds_path(before, path) <==> is_subdirectory(
                        children@,
                        i as int,
                        path,
                    ));
                    lemma_put_holds(before, sorted@, placed, added, path);
                    if is_subdirectory(children@, i + 1, path) && !is_subdirectory(
                        children@,
                        i as int,
                        path,
                    ) {
                        assert(path == added);
                    }
                    if path == added {
                        assert(is_subdirectory(children@, i + 1, path));
                    }
                }
            }
        } else {
            proof {
                assert forall|path: Seq<char>| holds_path(sorted@, path) <==> is_subdirectory(
                    children@,
                    i + 1,
                    path,
                ) by {
                    assert(holds_path(before, path) <==> is_subdirectory(
                        children@,
                        i as int,
                        path,
                    ));
                }
            }
        }
        i += 1;
    }
    let mut found: Vec<String> = Vec::new();
    let mut k: usize = 0;
    while k < sorted.len()
        invariant
            k <= sorted.len(),
            ascending(paths_of(listing_of(sorted@))),
            forall|path: Seq<char>|
                holds_path(sorted@, path) <==> is_subdirectory(
                    children@,
                    children@.len() as int,
                    path,
                ),
            views(found@) == paths_of(listing_of(sorted@)).take(k as int),
        decreases sorted.len() - k,
    {
        let ghost before = found@;
        found.push(sorted[k].path.clone());
        proof {
            assert(views(found@) =~= views(before).push(sorted@[k as int].path@));
            assert(views(found@) =~= paths_of(listing_of(sorted@)).take(k + 1));
        }
        k += 1;
    }
    proof {
        let paths = paths_of(listing_of(sorted@));
        assert(paths.take(k as int) =~= paths);
        assert forall|path: Seq<char>| views(found@).contains(path) <==> is_subdirectory(
            children@,
            children@.len() as int,
            path,
        ) by {
            assert(holds_path(sorted@, path) <==> is_subdirectory(
                children@,
                children@.len() as int,
                path,
            ));
            if views(found@).contains(path) {
                let m = choose|m: int| 0 <= m < paths.len() && paths[m] == path;
                assert(sorted@[m].path@ == path);
            }
            if holds_path(sorted@, path) {
                let m = choose|m: int| 0 <= m < sorted@.len() && #[trigger] sorted@[m].path@ == path;
                assert(paths[m] == path);
            }
        }
    }
    found
}

/// After a path was put into a list, the list holds what it held before
/// and that path.
proof fn lemma_put_holds(
    before: Seq<Entry>,
    after: Seq<Entry>,
    placed: Option<usize>,
    added: Seq<char>,
    path: Seq<char>,
)
    requires
        match placed {
            None => holds_path(before, added) && after == before,
            Some(at) => crate::listing::grown_at(before, after, at as int, added, true),
        },
    ensures
        holds_path(after, path) <==> holds_path(before, path) || path == added,
{
    match placed {
        None => {},
        Some(at) => {
            if holds_path(after, path) {
                let k = choose|k: int| 0 <= k < after.len() && #[trigger] after[k].path@ == path;
                if k < at {
                    assert(before[k].path@ == path);
                } else if k > at {
                    assert(before[k - 1].path@ == path);
                }
            }
            if holds_path(before, path) {
                let k = choose|k: int| 0 <= k < before.len() && #[trigger] before[k].path@ == path;
                if k < at {
                    assert(after[k].path@ == path);
                } else {
                    assert(after[k + 1].path@ == path);
                }
            }
            if path == added {
                assert(after[at as int].path@ == path);
            }
        },
    }
}

} // verus!
