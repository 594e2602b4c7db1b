//! The payload buffer: the contents of all shards, one after the other.

use crate::order::{lemma_listing_order_is_irrelevant, sorted_paths};
use vstd::prelude::*;

verus! {

/// The bytes of all shards in sequence order, with nothing between them.
pub open spec fn joined(shards: Seq<Seq<u8>>) -> Seq<u8> {
    shards.flatten()
}

/// No shards give the empty payload.
pub proof fn lemma_joined_none()
    ensures
        joined(Seq::<Seq<u8>>::empty()) == Seq::<u8>::empty(),
{
}

/// One more shard adds its bytes at the end of the payload.
pub proof fn lemma_joined_push(shards: Seq<Seq<u8>>, last: Seq<u8>)
    ensures
        joined(shards.push(last)) == joined(shards) + last,
{
    shards.lemma_flatten_push(last);
}

/// Three shards `a`, `b`, `c` give exactly `a ++ b ++ c`.
pub proof fn lemma_joined_three(a: Seq<u8>, b: Seq<u8>, c: Seq<u8>)
    ensures
        joined(seq![a, b, c]) == a + b + c,
{
    let none = Seq::<Seq<u8>>::empty();
    lemma_joined_push(none, a);
    lemma_joined_push(none.push(a), b);
    lemma_joined_push(none.push(a).push(b), c);
    assert(seq![a, b, c] =~= none.push(a).push(b).push(c));
    assert(Seq::<u8>::empty() + a =~= a);
}

/// The payload that a directory holds: the contents of the listed files,
/// joined in the order of their paths. `contents` gives the bytes of the file
/// at each path.
pub open spec fn assembled(listing: Seq<Seq<char>>, contents: Map<Seq<char>, Seq<u8>>) -> Seq<u8> {
    joined(sorted_paths(listing).map_values(|path: Seq<char>| contents[path]))
}

/// The payload does not depend on the order in which the directory was
/// listed: two listings of the same files give the same bytes.
pub proof fn lemma_assembled_ignores_listing_order(
    first: Seq<Seq<char>>,
    second: Seq<Seq<char>>,
    contents: Map<Seq<char>, Seq<u8>>,
)
    requires
        first.to_multiset() == second.to_multiset(),
    ensures
        assembled(first, contents) == assembled(second, contents),
{
    lemma_listing_order_is_irrelevant(first, second);
}

/// Concatenates the shards in the order given.
pub fn concatenate(shards: &Vec<Vec<u8>>) -> (payload: Vec<u8>)
    ensures
        payload@ == joined(shards.deep_view()),
{
    let mut payload: Vec<u8> = Vec::new();
    let mut i: usize = 0;
    assert(shards.deep_view().take(0) =~= Seq::<Seq<u8>>::empty());
    while i < shards.len()
        invariant
            i <= shards.len(),
            payload@ == joined(shards.deep_view().take(i as int)),
        decreases shards.len() - i,
    {
        let ghost before = payload@;
        payload.extend_from_slice(shards[i].as_slice());
        proof {
            let done = shards.deep_view().take(i as int);
            let shard = shards.deep_view()[i as int];
            assert(shard =~= shards[i as int]@);
            assert(payload@ =~= before + shard);
            assert(shards.deep_view().take(i + 1) =~= done.push(shard));
            lemma_joined_push(done, shard);
        }
        i += 1;
    }
    assert(shards.deep_view().take(i as int) =~= shards.deep_view());
    payload
}

} // verus!
