//! The order in which shards are concatenated.
//!
//! Shard paths are ordered as Rust orders strings: byte by byte over their
//! UTF-8 encoding, a proper prefix before any of its extensions. The order is
//! total, so a set of paths has exactly one sorted arrangement, whatever order
//! the directory listing produced them in.

use vstd::prelude::*;
use vstd::relations::{sorted_by, total_ordering};
use vstd::seq_lib::{lemma_sorted_unique, to_multiset_build, to_multiset_insert};
use vstd::utf8::{encode_utf8, encode_utf8_decode_utf8};

verus! {

/// Lexicographic "less than or equal" on byte strings.
pub open spec fn bytes_le(a: Seq<u8>, b: Seq<u8>) -> bool
    decreases a.len(),
{
    if a.len() == 0 {
        true
    } else if b.len() == 0 {
        false
    } else if a[0] != b[0] {
        a[0] < b[0]
    } else {
        bytes_le(a.drop_first(), b.drop_first())
    }
}

/// `a` sorts no later than `b`.
pub open spec fn path_le(a: Seq<char>, b: Seq<char>) -> bool {
    bytes_le(encode_utf8(a), encode_utf8(b))
}

/// [`path_le`] as a relation, in the form the sequence library expects.
pub open spec fn path_order() -> spec_fn(Seq<char>, Seq<char>) -> bool {
    |a: Seq<char>, b: Seq<char>| path_le(a, b)
}

/// Every path sorts no later than the paths behind it.
pub open spec fn is_sorted(paths: Seq<Seq<char>>) -> bool {
    forall|i: int, j: int| 0 <= i < j < paths.len() ==> path_le(#[trigger] paths[i], #[trigger] paths[j])
}

/// The paths of a listing in concatenation order.
pub open spec fn sorted_paths(paths: Seq<Seq<char>>) -> Seq<Seq<char>> {
    paths.sort_by(path_order())
}

proof fn lemma_bytes_le_reflexive(a: Seq<u8>)
    ensures
        bytes_le(a, a),
    decreases a.len(),
{
    if a.len() > 0 {
        lemma_bytes_le_reflexive(a.drop_first());
    }
}

proof fn lemma_bytes_le_connected(a: Seq<u8>, b: Seq<u8>)
    ensures
        bytes_le(a, b) || bytes_le(b, a),
    decreases a.len(),
{
    if a.len() > 0 && b.len() > 0 && a[0] == b[0] {
        lemma_bytes_le_connected(a.drop_first(), b.drop_first());
    }
}

proof fn lemma_bytes_le_antisymmetric(a: Seq<u8>, b: Seq<u8>)
    requires
        bytes_le(a, b),
        bytes_le(b, a),
    ensures
        a == b,
    decreases a.len(),
{
    if a.len() == 0 {
        assert(a =~= b);
    } else {
        lemma_bytes_le_antisymmetric(a.drop_first(), b.drop_first());
        assert(a =~= seq![a[0]] + a.drop_first());
        assert(b =~= seq![b[0]] + b.drop_first());
    }
}

proof fn lemma_bytes_le_transitive(a: Seq<u8>, b: Seq<u8>, c: Seq<u8>)
    requires
        bytes_le(a, b),
        bytes_le(b, c),
    ensures
        bytes_le(a, c),
    decreases a.len(),
{
    if a.len() > 0 && a[0] == b[0] && b[0] == c[0] {
        lemma_bytes_le_transitive(a.drop_first(), b.drop_first(), c.drop_first());
    }
}

/// Two paths that sort no later than each other are the same path.
pub proof fn lemma_path_le_antisymmetric(a: Seq<char>, b: Seq<char>)
    requires
        path_le(a, b),
        path_le(b, a),
    ensures
        a == b,
{
    lemma_bytes_le_antisymmetric(encode_utf8(a), encode_utf8(b));
    encode_utf8_decode_utf8(a);
    encode_utf8_decode_utf8(b);
}

/// The path order is a total order: reflexive, antisymmetric, transitive, and
/// any two paths are comparable.
pub proof fn lemma_path_order_is_total()
    ensures
        total_ordering(path_order()),
{
    let leq = path_order();
    assert forall|a: Seq<char>| #[trigger] leq(a, a) by {
        lemma_bytes_le_reflexive(encode_utf8(a));
    }
    assert forall|a: Seq<char>, b: Seq<char>| #[trigger] leq(a, b) && #[trigger] leq(b, a) implies a
        == b by {
        lemma_path_le_antisymmetric(a, b);
    }
    assert forall|a: Seq<char>, b: Seq<char>, c: Seq<char>| #[trigger]
        leq(a, b) && #[trigger] leq(b, c) implies leq(a, c) by {
        lemma_bytes_le_transitive(encode_utf8(a), encode_utf8(b), encode_utf8(c));
    }
    assert forall|a: Seq<char>, b: Seq<char>| #[trigger] leq(a, b) || #[trigger] leq(b, a) by {
        lemma_bytes_le_connected(encode_utf8(a), encode_utf8(b));
    }
}

/// What [`sorted_paths`] returns: the same paths, each as often as before, in
/// ascending order.
pub proof fn lemma_sorted_paths_is_sorted_permutation(paths: Seq<Seq<char>>)
    ensures
        sorted_paths(paths).to_multiset() == paths.to_multiset(),
        sorted_paths(paths).len() == paths.len(),
        is_sorted(sorted_paths(paths)),
{
    lemma_path_order_is_total();
    paths.lemma_sort_by_ensures(path_order());
    paths.to_multiset_ensures();
    sorted_paths(paths).to_multiset_ensures();
    let sorted = sorted_paths(paths);
    assert forall|i: int, j: int| 0 <= i < j < sorted.len() implies path_le(
        #[trigger] sorted[i],
        #[trigger] sorted[j],
    ) by {
        assert(path_order()(sorted[i], sorted[j]));
    }
}

/// A sorted arrangement of a listing is the arrangement [`sorted_paths`] gives.
pub proof fn lemma_sorted_arrangement_is_unique(paths: Seq<Seq<char>>, arranged: Seq<Seq<char>>)
    requires
        arranged.to_multiset() == paths.to_multiset(),
        is_sorted(arranged),
    ensures
        arranged == sorted_paths(paths),
{
    lemma_path_order_is_total();
    paths.lemma_sort_by_ensures(path_order());
    assert(sorted_by(arranged, path_order()));
    lemma_sorted_unique(arranged, sorted_paths(paths), path_order());
}

/// Two listings of the same files, in whatever order each came, are
/// concatenated in the same order.
pub proof fn lemma_listing_order_is_irrelevant(first: Seq<Seq<char>>, second: Seq<Seq<char>>)
    requires
        first.to_multiset() == second.to_multiset(),
    ensures
        sorted_paths(first) == sorted_paths(second),
{
    lemma_sorted_paths_is_sorted_permutation(first);
    lemma_sorted_arrangement_is_unique(second, sorted_paths(first));
}

/// Whether `a` sorts no later than `b`.
pub fn precedes(a: &str, b: &str) -> (r: bool)
    ensures
        r == path_le(a@, b@),
{
    let x = a.as_bytes();
    let y = b.as_bytes();
    let mut i: usize = 0;
    assert(x@.skip(0) =~= x@ && y@.skip(0) =~= y@);
    while i < x.len() && i < y.len()
        invariant
            i <= x@.len(),
            i <= y@.len(),
            x@ == encode_utf8(a@),
            y@ == encode_utf8(b@),
            bytes_le(x@, y@) == bytes_le(x@.skip(i as int), y@.skip(i as int)),
        decreases x@.len() - i,
    {
        if x[i] != y[i] {
            return x[i] < y[i];
        }
        assert(x@.skip(i as int).drop_first() =~= x@.skip(i + 1));
        assert(y@.skip(i as int).drop_first() =~= y@.skip(i + 1));
        i += 1;
    }
    i == x.len()
}

/// Sorts a directory listing into concatenation order.
pub fn order_shards(paths: Vec<String>) -> (ordered: Vec<String>)
    ensures
        ordered.deep_view() == sorted_paths(paths.deep_view()),
{
    broadcast use {vstd::multiset::group_multiset_axioms, vstd::seq_lib::group_to_multiset_ensures};

    let ghost listing = paths.deep_view();
    let mut rest = paths;
    let mut ordered: Vec<String> = Vec::new();
    assert(ordered.deep_view() =~= Seq::<Seq<char>>::empty());
    while rest.len() > 0
        invariant
            is_sorted(ordered.deep_view()),
            ordered.deep_view().to_multiset().add(rest.deep_view().to_multiset())
                == listing.to_multiset(),
        decreases rest.len(),
    {
        let ghost before = rest.deep_view();
        let ghost placed = ordered.deep_view();
        let path = rest.pop().unwrap();
        let mut at: usize = 0;
        while at < ordered.len() && precedes(ordered[at].as_str(), path.as_str())
            invariant
                at <= ordered.len(),
                ordered.deep_view() == placed,
                forall|k: int| 0 <= k < at ==> path_le(#[trigger] placed[k], path@),
            decreases ordered.len() - at,
        {
            at += 1;
        }
        ordered.insert(at, path);
        proof {
            assert(before =~= rest.deep_view().push(path@));
            to_multiset_build(rest.deep_view(), path@);
            assert(ordered.deep_view() =~= placed.insert(at as int, path@));
            to_multiset_insert(placed, at as int, path@);
            assert(ordered.deep_view().to_multiset().add(rest.deep_view().to_multiset())
                =~= listing.to_multiset());
            let grown = ordered.deep_view();
            assert forall|i: int, j: int| 0 <= i < j < grown.len() implies path_le(
                #[trigger] grown[i],
                #[trigger] grown[j],
            ) by {
                if i == at {
                    // `path` goes before what was at `at`, and so before all behind it
                    lemma_bytes_le_connected(encode_utf8(placed[at as int]), encode_utf8(path@));
                    if j - 1 > at {
                        assert(path_le(placed[at as int], placed[j - 1]));
                        lemma_bytes_le_transitive(
                            encode_utf8(path@),
                            encode_utf8(placed[at as int]),
                            encode_utf8(placed[j - 1]),
                        );
                    }
                } else if j == at {
                    assert(path_le(placed[i], path@));
                } else {
                    let i0 = if i < at { i } else { i - 1 };
                    let j0 = if j < at { j } else { j - 1 };
                    assert(path_le(placed[i0], placed[j0]));
                }
            }
        }
    }
    proof {
        assert(rest.deep_view() =~= Seq::<Seq<char>>::empty());
        assert(ordered.deep_view().to_multiset() =~= listing.to_multiset());
        lemma_sorted_arrangement_is_unique(listing, ordered.deep_view());
    }
    ordered
}

} // verus!
