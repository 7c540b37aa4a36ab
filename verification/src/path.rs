//! Relative paths as `/`-separated strings: their order and the
//! ancestor relation between them.
//!
//! Paths are ordered component by component, each component by its UTF-8
//! bytes. On the flat byte string this is the plain lexicographic order in
//! which the separator ranks below every other byte, so a directory comes
//! immediately before everything beneath it.

use vstd::prelude::*;
use vstd::string::*;
use vstd::utf8::*;

verus! {

/// The separator between the components of a path.
pub const SEPARATOR: u8 = 0x2f;

/// How two paths stand to each other in the path order.
#[derive(Clone, Copy, Debug, PartialEq, Eq, Structural)]
pub enum PathOrder {
    Before,
    Same,
    After,
}

/// The UTF-8 bytes of a path.
pub open spec fn bytes_of(path: Seq<char>) -> Seq<u8> {
    encode_utf8(path)
}

/// The weight of one byte in the path order: the separator is lightest.
pub open spec fn rank(byte: u8) -> int {
    if byte == SEPARATOR {
        0
    } else {
        byte as int + 1
    }
}

/// `a` and `b` agree on their first `k` bytes.
pub open spec fn agree(a: Seq<u8>, b: Seq<u8>, k: int) -> bool {
    &&& 0 <= k <= a.len()
    &&& k <= b.len()
    &&& forall|j: int| 0 <= j < k ==> a[j] == b[j]
}

/// `a` sorts before `b` and they first differ at byte `k`.
pub open spec fn precedes_at(a: Seq<u8>, b: Seq<u8>, k: int) -> bool {
    &&& agree(a, b, k)
    &&& k < b.len()
    &&& (k < a.len() ==> rank(a[k]) < rank(b[k]))
}

/// The strict path order on byte strings.
pub open spec fn bytes_lt(a: Seq<u8>, b: Seq<u8>) -> bool {
    exists|k: int| precedes_at(a, b, k)
}

/// The strict path order.
pub open spec fn path_lt(a: Seq<char>, b: Seq<char>) -> bool {
    bytes_lt(bytes_of(a), bytes_of(b))
}

/// `path` lies strictly beneath the directory `dir`.
pub open spec fn bytes_beneath(path: Seq<u8>, dir: Seq<u8>) -> bool {
    &&& dir.len() < path.len()
    &&& agree(dir, path, dir.len() as int)
    &&& path[dir.len() as int] == SEPARATOR
}

/// `path` is `dir` itself or lies beneath it.
pub open spec fn within(path: Seq<char>, dir: Seq<char>) -> bool {
    path == dir || bytes_beneath(bytes_of(path), bytes_of(dir))
}

/// The strings of a list, as sequences of characters.
pub open spec fn views(strings: Seq<String>) -> Seq<Seq<char>> {
    Seq::new(strings.len(), |i: int| strings[i]@)
}

/// A sequence of paths in strictly ascending path order.
pub open spec fn ascending(paths: Seq<Seq<char>>) -> bool {
    forall|i: int, j: int| 0 <= i < j < paths.len() ==> path_lt(paths[i], paths[j])
}

/// Two strings with the same bytes are the same string.
pub proof fn lemma_bytes_determine_path(a: Seq<char>, b: Seq<char>)
    requires
        bytes_of(a) == bytes_of(b),
    ensures
        a == b,
{
    encode_utf8_decode_utf8(a);
    encode_utf8_decode_utf8(b);
}

/// Byte strings that agree over their whole common length are equal.
proof fn lemma_agree_all(a: Seq<u8>, b: Seq<u8>)
    requires
        a.len() == b.len(),
        agree(a, b, a.len() as int),
    ensures
        a == b,
{
    assert(a =~= b);
}

/// No path sorts before itself.
pub proof fn lemma_lt_irreflexive(a: Seq<char>)
    ensures
        !path_lt(a, a),
{
}

/// The path order is transitive.
pub proof fn lemma_lt_transitive(a: Seq<char>, b: Seq<char>, c: Seq<char>)
    requires
        path_lt(a, b),
        path_lt(b, c),
    ensures
        path_lt(a, c),
{
    let (x, y, z) = (bytes_of(a), bytes_of(b), bytes_of(c));
    let k1 = choose|k: int| precedes_at(x, y, k);
    let k2 = choose|k: int| precedes_at(y, z, k);
    let k = if k1 <= k2 { k1 } else { k2 };
    assert(precedes_at(x, z, k));
}

/// Of two paths at most one sorts before the other.
pub proof fn lemma_lt_asymmetric(a: Seq<char>, b: Seq<char>)
    requires
        path_lt(a, b),
    ensures
        !path_lt(b, a),
{
    if path_lt(b, a) {
        lemma_lt_transitive(a, b, a);
        lemma_lt_irreflexive(a);
    }
}

/// A directory sorts before everything beneath it.
pub proof fn lemma_parent_first(path: Seq<char>, dir: Seq<char>)
    requires
        within(path, dir),
        path != dir,
    ensures
        path_lt(dir, path),
{
    assert(precedes_at(bytes_of(dir), bytes_of(path), bytes_of(dir).len() as int));
}

/// What lies within a directory that lies within another lies within that other.
pub proof fn lemma_within_transitive(a: Seq<char>, b: Seq<char>, c: Seq<char>)
    requires
        within(a, b),
        within(b, c),
    ensures
        within(a, c),
{
}

/// Compares two paths in the path order.
pub fn compare_paths(a: &str, b: &str) -> (order: PathOrder)
    ensures
        order == PathOrder::Before <==> path_lt(a@, b@),
        order == PathOrder::Same <==> a@ == b@,
        order == PathOrder::After <==> path_lt(b@, a@),
{
    let x = a.as_bytes();
    let y = b.as_bytes();
    let mut i: usize = 0;
    while i < x.len() && i < y.len() && x[i] == y[i]
        invariant
            agree(x@, y@, i as int),
        decreases x.len() - i,
    {
        i += 1;
    }
    proof {
        lemma_lt_irreflexive(a@);
    }
    if i == x.len() {
        if i == y.len() {
            proof {
                lemma_agree_all(x@, y@);
                lemma_bytes_determine_path(a@, b@);
            }
            PathOrder::Same
        } else {
            proof {
                assert(precedes_at(x@, y@, i as int));
                lemma_lt_asymmetric(a@, b@);
            }
            PathOrder::Before
        }
    } else if i == y.len() {
        proof {
            assert(precedes_at(y@, x@, i as int));
            lemma_lt_asymmetric(b@, a@);
        }
        PathOrder::After
    } else if byte_rank(x[i]) < byte_rank(y[i]) {
        proof {
            assert(precedes_at(x@, y@, i as int));
            lemma_lt_asymmetric(a@, b@);
        }
        PathOrder::Before
    } else {
        proof {
            assert(precedes_at(y@, x@, i as int));
            lemma_lt_asymmetric(b@, a@);
        }
        PathOrder::After
    }
}

/// The weight of one byte in the path order.
fn byte_rank(byte: u8) -> (r: u16)
    ensures
        r == rank(byte),
{
    if byte == SEPARATOR {
        0
    } else {
        byte as u16 + 1
    }
}

/// Whether `path` is `dir` itself or lies beneath it.
pub fn is_within(path: &str, dir: &str) -> (r: bool)
    ensures
        r == within(path@, dir@),
{
    let p = path.as_bytes();
    let d = dir.as_bytes();
    if d.len() > p.len() {
        proof {
            if path@ == dir@ {
                assert(p@ == d@);
            }
        }
        return false;
    }
    let mut i: usize = 0;
    while i < d.len()
        invariant
            p@ == bytes_of(path@),
            d@ == bytes_of(dir@),
            d.len() <= p.len(),
            agree(d@, p@, i as int),
        decreases d.len() - i,
    {
        if d[i] != p[i] {
            proof {
                if path@ == dir@ {
                    assert(p@ == d@);
                }
            }
            return false;
        }
        i += 1;
    }
    if d.len() == p.len() {
        proof {
            lemma_agree_all(d@, p@);
            lemma_bytes_determine_path(path@, dir@);
        }
        true
    } else {
        proof {
            if path@ == dir@ {
                assert(p@ == d@);
            }
        }
        p[d.len()] == SEPARATOR
    }
}

} // verus!
