//! Drawing winners by lot, from a seed that any auditor can use again.

use rand::rngs::StdRng;
use rand::{RngExt, SeedableRng};
use vstd::prelude::*;
use vstd::slice::slice_to_vec;

verus! {

/// The generator of the `rand` crate behind seeded draws.
#[verifier::external_type_specification]
#[verifier::external_body]
pub struct ExStdRng(rand::rngs::StdRng);

/// The seed that a generator was made from.
pub uninterp spec fn rng_seed(rng: StdRng) -> u64;

/// The ranges that a generator has drawn from so far, each as its lowest value
/// and the value just past its highest.
pub uninterp spec fn rng_spent(rng: StdRng) -> Seq<(int, int)>;

/// The value drawn from `low..high` by a generator that was made from `seed`
/// and has drawn from the ranges of `spent` before.
pub uninterp spec fn rng_pick(seed: u64, spent: Seq<(int, int)>, low: int, high: int) -> int;

/// `StdRng::seed_from_u64`: a fresh generator made from `seed`. What it draws is
/// settled by the release of `rand`; another release may draw otherwise.
#[verifier::external_body]
fn seeded(seed: u64) -> (rng: StdRng)
    ensures
        rng_seed(rng) == seed,
        rng_spent(rng) == Seq::<(int, int)>::empty(),
{
    StdRng::seed_from_u64(seed)
}

/// `RngExt::random_range` over `low..high`: the value lies in the range, and
/// depends on the seed, on the ranges drawn from before and on this range
/// alone. Which value it is stays unsaid.
#[verifier::external_body]
fn pick(rng: &mut StdRng, low: usize, high: usize) -> (value: usize)
    requires
        low < high,
    ensures
        low <= value < high,
        value == rng_pick(rng_seed(*old(rng)), rng_spent(*old(rng)), low as int, high as int),
        rng_seed(*final(rng)) == rng_seed(*old(rng)),
        rng_spent(*final(rng)) == rng_spent(*old(rng)).push((low as int, high as int)),
{
    rng.random_range(low..high)
}

/// The ranges of the first `k` draws over `len` positions: the draw for
/// position `i` takes a position from `i` on.
pub open spec fn draw_ranges(len: int, k: nat) -> Seq<(int, int)> {
    Seq::new(k, |i: int| (i, len))
}

/// The positions drawn from `seed` for the first `k` of `len` positions.
pub open spec fn draw_positions(seed: u64, len: int, k: nat) -> Seq<int> {
    Seq::new(k, |i: int| rng_pick(seed, draw_ranges(len, i as nat), i, len))
}

/// Draws, from `seed`, a position for each of the first `k` of `len`.
pub fn draws(seed: u64, len: usize, k: usize) -> (positions: Vec<usize>)
    requires
        k <= len,
    ensures
        positions@.map_values(|p: usize| p as int) == draw_positions(seed, len as int, k as nat),
        forall|i: int| 0 <= i < k ==> i <= #[trigger] positions@[i] < len,
{
    let mut rng = seeded(seed);
    let mut positions: Vec<usize> = Vec::new();
    let mut i: usize = 0;
    assert(rng_spent(rng) =~= draw_ranges(len as int, 0));
    while i < k
        invariant
            i <= k <= len,
            positions@.len() == i,
            rng_seed(rng) == seed,
            rng_spent(rng) == draw_ranges(len as int, i as nat),
            forall|j: int|
                0 <= j < i ==> #[trigger] positions@[j] == rng_pick(
                    seed,
                    draw_ranges(len as int, j as nat),
                    j,
                    len as int,
                ) && j <= positions@[j] < len,
        decreases k - i,
    {
        let position: usize = pick(&mut rng, i, len);
        positions.push(position);
        i += 1;
        assert(rng_spent(rng) =~= draw_ranges(len as int, i as nat));
    }
    assert(positions@.map_values(|p: usize| p as int) =~= draw_positions(
        seed,
        len as int,
        k as nat,
    ));
    positions
}

/// A group after the exchanges of a partial shuffle: for each `i` in turn, the
/// member at `i` changes places with the one at `positions[i]`.
pub open spec fn exchanged(group: Seq<u8>, positions: Seq<int>) -> Seq<u8>
    decreases positions.len(),
{
    if positions.len() == 0 {
        group
    } else {
        let before = exchanged(group, positions.drop_last());
        let i = positions.len() - 1;
        let p = positions.last();
        before.update(i, before[p]).update(p, before[i])
    }
}

/// The winners that drawn positions pick out of a group: its first members
/// after the exchanges, one for each position.
pub open spec fn picked(group: Seq<u8>, positions: Seq<int>) -> Seq<u8> {
    exchanged(group, positions).take(positions.len() as int)
}

/// Positions fit a group when each lies in it and none lies before its turn.
pub open spec fn fit(group: Seq<u8>, positions: Seq<int>) -> bool {
    &&& positions.len() <= group.len()
    &&& forall|i: int| 0 <= i < positions.len() ==> i <= #[trigger] positions[i] < group.len()
}

/// Picks the winners of a group by positions drawn for it.
pub fn pick_winners(group: &[u8], positions: &[usize]) -> (winners: Vec<u8>)
    requires
        fit(group@, positions@.map_values(|p: usize| p as int)),
    ensures
        winners@ == picked(group@, positions@.map_values(|p: usize| p as int)),
{
    let ghost drawn = positions@.map_values(|p: usize| p as int);
    let mut shuffled: Vec<u8> = slice_to_vec(group);
    let mut i: usize = 0;
    assert(drawn.take(0) =~= Seq::<int>::empty());
    while i < positions.len()
        invariant
            i <= positions.len(),
            drawn == positions@.map_values(|p: usize| p as int),
            fit(group@, drawn),
            shuffled@.len() == group@.len(),
            shuffled@ == exchanged(group@, drawn.take(i as int)),
        decreases positions.len() - i,
    {
        let p: usize = positions[i];
        assert(drawn[i as int] == p);
        let here: u8 = shuffled[i];
        let there: u8 = shuffled[p];
        shuffled.set(i, there);
        shuffled.set(p, here);
        i += 1;
        assert(drawn.take(i as int).drop_last() =~= drawn.take(i - 1));
    }
    assert(drawn.take(i as int) =~= drawn);
    shuffled.truncate(positions.len());
    shuffled
}

/// A draw has a winner for each position.
pub(crate) proof fn lemma_picked_len(group: Seq<u8>, positions: Seq<int>)
    requires
        fit(group, positions),
    ensures
        exchanged(group, positions).len() == group.len(),
        picked(group, positions).len() == positions.len(),
    decreases positions.len(),
{
    if positions.len() > 0 {
        let rest = positions.drop_last();
        assert forall|i: int| 0 <= i < rest.len() implies i <= #[trigger] rest[i]
            < group.len() by {
            assert(rest[i] == positions[i]);
        }
        lemma_picked_len(group, rest);
        assert(positions[positions.len() - 1] == positions.last());
    }
}

/// A partial shuffle keeps every member of the group, once each.
proof fn lemma_exchanged_keeps_members(group: Seq<u8>, positions: Seq<int>)
    requires
        fit(group, positions),
        group.no_duplicates(),
    ensures
        exchanged(group, positions).len() == group.len(),
        exchanged(group, positions).no_duplicates(),
        forall|id: u8| exchanged(group, positions).contains(id) ==> group.contains(id),
    decreases positions.len(),
{
    if positions.len() > 0 {
        let rest = positions.drop_last();
        assert forall|i: int| 0 <= i < rest.len() implies i <= #[trigger] rest[i]
            < group.len() by {
            assert(rest[i] == positions[i]);
        }
        lemma_exchanged_keeps_members(group, rest);
        let before = exchanged(group, rest);
        let after = exchanged(group, positions);
        let i = positions.len() - 1;
        let p = positions.last();
        assert(positions[i] == p);
        assert forall|id: u8| after.contains(id) implies group.contains(id) by {
            let n = choose|n: int| 0 <= n < after.len() && after[n] == id;
            if n == p {
                assert(before.contains(before[i]));
            } else if n == i {
                assert(before.contains(before[p]));
            } else {
                assert(before.contains(before[n]));
            }
        }
    }
}

/// The winners of a draw are members of the group, as many as were drawn, and
/// no member wins twice.
pub proof fn law_draw_is_fair(group: Seq<u8>, positions: Seq<int>)
    requires
        fit(group, positions),
        group.no_duplicates(),
    ensures
        picked(group, positions).len() == positions.len(),
        picked(group, positions).no_duplicates(),
        forall|id: u8| #[trigger]
            picked(group, positions).contains(id) ==> group.contains(id),
{
    lemma_exchanged_keeps_members(group, positions);
    let all = exchanged(group, positions);
    assert forall|id: u8| #[trigger] picked(group, positions).contains(id) implies group.contains(
        id,
    ) by {
        let n = choose|n: int|
            0 <= n < picked(group, positions).len() && picked(group, positions)[n] == id;
        assert(all[n] == id);
    }
}

} // verus!
