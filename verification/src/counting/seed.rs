//! The seed of a draw for which the rules name none.

use crate::digest::{sha256, sha256_digest};
use vstd::prelude::*;

verus! {

/// Every candidate id there can be, in ascending order.
pub open spec fn all_ids() -> Seq<u8> {
    Seq::new(256, |i: int| i as u8)
}

/// The candidates of a list in ascending order, each once.
pub open spec fn roll(candidates: Seq<u8>) -> Seq<u8> {
    all_ids().filter(|id: u8| candidates.contains(id))
}

/// The number that eight bytes stand for, the least significant first.
pub open spec fn little_endian(bytes: Seq<u8>) -> nat
    decreases bytes.len(),
{
    if bytes.len() == 0 {
        0
    } else {
        bytes[0] as nat + 256 * little_endian(bytes.drop_first())
    }
}

/// The ids of a list that are below a bound, in ascending order, are those
/// below the next lower bound and perhaps one more.
pub(crate) proof fn lemma_ids_below(pred: spec_fn(u8) -> bool, n: int)
    requires
        0 <= n < 256,
    ensures
        all_ids().take(n + 1).filter(pred) == if pred(n as u8) {
            all_ids().take(n).filter(pred).push(n as u8)
        } else {
            all_ids().take(n).filter(pred)
        },
{
    reveal(Seq::filter);
    assert(all_ids().take(n + 1).drop_last() =~= all_ids().take(n));
    assert(all_ids().take(n + 1).last() == n as u8);
}

/// Whether a list names a candidate.
pub fn names(candidates: &[u8], id: u8) -> (found: bool)
    ensures
        found == candidates@.contains(id),
{
    let mut i: usize = 0;
    while i < candidates.len()
        invariant
            i <= candidates.len(),
            forall|j: int| 0 <= j < i ==> candidates@[j] != id,
        decreases candidates.len() - i,
    {
        if candidates[i] == id {
            return true;
        }
        i += 1;
    }
    false
}

/// Puts the candidates of a list in ascending order, each once.
pub fn sorted_roll(candidates: &[u8]) -> (ids: Vec<u8>)
    ensures
        ids@ == roll(candidates@),
{
    let ghost pred = |id: u8| candidates@.contains(id);
    let mut ids: Vec<u8> = Vec::new();
    let mut n: u16 = 0;
    assert(all_ids().take(0).filter(pred) =~= Seq::<u8>::empty()) by {
        reveal(Seq::filter);
    }
    while n < 256
        invariant
            n <= 256,
            pred == (|id: u8| candidates@.contains(id)),
            ids@ == all_ids().take(n as int).filter(pred),
        decreases 256 - n,
    {
        let id: u8 = n as u8;
        proof {
            lemma_ids_below(pred, n as int);
        }
        if names(candidates, id) {
            ids.push(id);
        }
        n += 1;
    }
    assert(all_ids().take(256) =~= all_ids());
    ids
}

/// Reads a seed off the first eight bytes of a digest, the least significant
/// first.
pub fn seed_of_digest(digest: &[u8]) -> (seed: u64)
    requires
        digest@.len() >= 8,
    ensures
        seed == little_endian(digest@.take(8)),
{
    let ghost first = digest@.take(8);
    let mut seed: u64 = 0;
    let mut i: usize = 8;
    assert(first.skip(8) =~= Seq::<u8>::empty());
    while i > 0
        invariant
            i <= 8,
            digest@.len() >= 8,
            first == digest@.take(8),
            seed == little_endian(first.skip(i as int)),
            seed < unit_after(8 - i),
        decreases i,
    {
        i -= 1;
        assert(first.skip(i as int).drop_first() =~= first.skip(i + 1));
        assert(first.skip(i as int)[0] == digest@[i as int]);
        proof {
            reveal_with_fuel(unit_after, 9);
        }
        seed = digest[i] as u64 + 256 * seed;
    }
    assert(first.skip(0) =~= first);
    seed
}

/// The first value that a number of bytes cannot hold.
spec fn unit_after(bytes: int) -> nat
    decreases bytes,
{
    if bytes <= 0 {
        1
    } else {
        256 * unit_after(bytes - 1)
    }
}

/// The seed for a set of candidates: the first eight bytes, little-endian, of
/// the SHA-256 digest of their ids in ascending order.
pub open spec fn tie_seed(candidates: Seq<u8>) -> nat {
    little_endian(sha256_digest(roll(candidates)).take(8))
}

/// The seed of a draw among these candidates when the rules name none. It is
/// predictable on purpose: any auditor can work it out again.
pub fn default_tie_seed(candidates: &[u8]) -> (seed: u64)
    ensures
        seed == tie_seed(candidates@),
{
    let ids = sorted_roll(candidates);
    let digest = sha256(ids.as_slice());
    seed_of_digest(digest.as_slice())
}

/// The seed depends on which candidates there are, not on the order in which
/// they are listed nor on how often.
pub proof fn law_tie_seed_of_set(a: Seq<u8>, b: Seq<u8>)
    requires
        forall|id: u8| a.contains(id) <==> b.contains(id),
    ensures
        roll(a) == roll(b),
        tie_seed(a) == tie_seed(b),
{
    let in_a = |id: u8| a.contains(id);
    let in_b = |id: u8| b.contains(id);
    assert(in_a =~= in_b);
}

} // verus!
