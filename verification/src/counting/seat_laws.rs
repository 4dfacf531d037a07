//! What a count comes to, by the ballots, the candidates and the rules.

use crate::counting::draw::{draw_positions, draw_ranges, exchanged, rng_pick};
use crate::counting::laws::{law_tally_is_complete, lemma_ids_ascend};
use crate::counting::plurality::{
    fairly_won, fillable, lemma_at_least, lemma_at_least_many, plurality_winners, rows_shown,
    statuses_shown,
};
use crate::counting::ranking::{
    counts_for, ids_of, ranking, ranks_before, row_of, votes_for, Row,
};
use crate::counting::seed::{all_ids, little_endian, roll, tie_seed};
use crate::counting::tie::tie_winners;
use crate::counting::{CandidateTally, CountError};
use crate::digest::sha256_digest;
use crate::rules::{BallotMethod, CountingRules, ElectionRules};
use crate::text::{decimal, law_decimal_reads_back, value_of};
use vstd::prelude::*;

verus! {

/// Before any ballot is counted, the tally shows the registered candidates,
/// each without votes, and nobody else.
pub proof fn law_tally_starts_from_the_candidates(candidates: Seq<u8>, id: u8, votes: nat)
    ensures
        ranking(Seq::empty(), candidates).contains((id, votes)) <==> candidates.contains(id)
            && votes == 0,
{
    reveal(Seq::filter);
    law_tally_is_complete(Seq::empty(), candidates);
    assert(votes_for(Seq::empty(), id) == 0);
}

/// One more ballot gives one vote to the candidate that it names first, as far
/// as votes are counted, and changes nothing for anybody else. A candidate who
/// was not on the tally comes onto it by being named first.
pub proof fn law_one_more_ballot(
    ballots: Seq<Seq<u8>>,
    ballot: Seq<u8>,
    candidates: Seq<u8>,
    id: u8,
    votes: nat,
)
    ensures
        ({
            let before = ranking(ballots, candidates);
            let after = ranking(ballots.push(ballot), candidates);
            let named = ballot.len() > 0 && ballot[0] == id;
            &&& before.contains((id, votes)) && !named ==> after.contains((id, votes))
            &&& before.contains((id, votes)) && named && votes < 9007199254740992
                ==> after.contains((id, votes + 1))
            &&& before.contains((id, votes)) && named && votes >= 9007199254740992
                ==> after.contains((id, votes))
            &&& (forall|v: nat| !before.contains((id, v))) && !named ==> !after.contains(
                (id, votes),
            )
            &&& (forall|v: nat| !before.contains((id, v))) && named ==> after.contains((id, 1))
        }),
{
    let all = ballots.push(ballot);
    law_tally_is_complete(ballots, candidates);
    law_tally_is_complete(all, candidates);
    assert(votes_for(all, id) == votes_for(ballots, id) + if counts_for(ballot, id) {
        1nat
    } else {
        0nat
    }) by {
        reveal(Seq::filter);
        assert(all.drop_last() =~= ballots);
    }
    let before = ranking(ballots, candidates);
    let row = row_of(ballots, id);
    if forall|v: nat| !before.contains((id, v)) {
        assert(!before.contains((id, row.1)));
    }
}

/// The tally runs from most to fewest votes, and among equal votes from the
/// lowest id to the highest.
pub proof fn law_tally_order(ballots: Seq<Seq<u8>>, candidates: Seq<u8>, i: int, j: int)
    requires
        0 <= i < j < ranking(ballots, candidates).len(),
    ensures
        ({
            let rows = ranking(ballots, candidates);
            rows[i].1 > rows[j].1 || (rows[i].1 == rows[j].1 && rows[i].0 < rows[j].0)
        }),
{
    let rows = ranking(ballots, candidates);
    let leq = |a: Row, b: Row| ranks_before(a, b);
    law_tally_is_complete(ballots, candidates);
    assert(leq(rows[i], rows[j]));
    assert(rows.contains(rows[i]) && rows.contains(rows[j]));
    assert(rows[i] != rows[j]);
}

/// Every line of a tally shows the candidate and the votes of its row: the votes
/// are the digits of their number, a point and a zero.
pub proof fn law_lines_show_the_votes(tally: Seq<CandidateTally>, rows: Seq<Row>, i: int)
    requires
        rows_shown(tally, rows),
        0 <= i < rows.len(),
    ensures
        tally.len() == rows.len(),
        tally[i].candidate_id == rows[i].0,
        tally[i].votes@.len() > 2,
        tally[i].votes@.skip(tally[i].votes@.len() - 2) == seq!['.', '0'],
        value_of(tally[i].votes@.take(tally[i].votes@.len() - 2)) == rows[i].1,
        tally[i].votes@.len() > 3 ==> tally[i].votes@[0] != '0',
{
    reveal_strlit(".0");
    let text = tally[i].votes@;
    law_decimal_reads_back(rows[i].1);
    assert(text == decimal(rows[i].1) + ".0"@);
    assert(text.take(text.len() - 2) =~= decimal(rows[i].1));
    assert(text.skip(text.len() - 2) =~= seq!['.', '0']);
}

/// A line of a tally says that its candidate is elected if it is among the
/// winners, and else that it is excluded; no candidate is left active.
pub proof fn law_statuses_tell_who_is_elected(
    tally: Seq<CandidateTally>,
    winners: Seq<u8>,
    i: int,
)
    requires
        statuses_shown(tally, winners),
        0 <= i < tally.len(),
    ensures
        tally[i].status is Elected <==> winners.contains(tally[i].candidate_id),
        tally[i].status is Excluded <==> !winners.contains(tally[i].candidate_id),
        !(tally[i].status is Active),
{
}

/// What is fairly won: no more seats than there are, by nobody twice, by
/// candidates of the tally with enough votes only, and with nobody passed over for
/// a candidate with fewer votes.
pub proof fn law_what_is_fairly_won(
    rows: Seq<Row>,
    winners: Seq<u8>,
    seats: nat,
    needed: nat,
    a: int,
    b: int,
)
    requires
        fairly_won(rows, winners, seats, needed),
    ensures
        winners.len() <= seats,
        0 <= a < b < winners.len() ==> winners[a] != winners[b],
        0 <= a < winners.len() ==> exists|i: int|
            0 <= i < rows.len() && (#[trigger] rows[i]).0 == winners[a] && rows[i].1 >= needed,
        0 <= a < rows.len() && 0 <= b < rows.len() && rows[a].1 > rows[b].1 && winners.contains(
            rows[b].0,
        ) ==> winners.contains(rows[a].0),
{
    if 0 <= a < winners.len() {
        assert(winners.contains(winners[a]));
    }
}

/// The seats that can be filled are the seats or the candidates with enough
/// votes, whichever are fewer.
pub proof fn law_seats_that_can_be_filled(rows: Seq<Row>, seats: nat, needed: nat)
    ensures
        fillable(rows, seats, needed) <= seats,
        fillable(rows, seats, needed) <= rows.filter(|row: Row| row.1 >= needed).len(),
        fillable(rows, seats, needed) == seats || fillable(rows, seats, needed) == rows.filter(
            |row: Row| row.1 >= needed,
        ).len(),
{
}

/// Whether the rules ask for so many seats: those that they name, and one where
/// they name none.
pub open spec fn seats_asked(rules: ElectionRules, seats: nat) -> bool {
    &&& rules.election.seats >= 1 ==> seats == rules.election.seats
    &&& rules.election.seats == 0 ==> seats == 1
}

/// Whether the rules ask for so many votes of a winner.
pub open spec fn votes_asked(rules: ElectionRules, needed: nat) -> bool {
    &&& rules.counting.min_winner_votes matches Some(votes) ==> needed == votes
    &&& rules.counting.min_winner_votes is None ==> needed == 0
}

/// Where no tie stands across the last seat, the first of the tally win: as many
/// as have enough votes, as far as there are seats, in the order of the tally.
pub proof fn law_the_first_win(
    ballots: Seq<Seq<u8>>,
    candidates: Seq<u8>,
    rules: ElectionRules,
    seats: nat,
    needed: nat,
    m: int,
)
    requires
        rules.ballot.method is Single,
        seats_asked(rules, seats),
        votes_asked(rules, needed),
        ({
            let rows = ranking(ballots, candidates);
            &&& 0 <= m <= seats
            &&& m <= rows.len()
            &&& forall|i: int| 0 <= i < m ==> (#[trigger] rows[i]).1 >= needed
            &&& m < rows.len() ==> rows[m].1 < needed || (m == seats && rows[m].1 < rows[m - 1].1)
        }),
    ensures
        plurality_winners(ballots, candidates, rules) == Ok::<Seq<u8>, CountError>(
            Seq::new(m as nat, |i: int| ranking(ballots, candidates)[i].0),
        ),
{
    let rows = ranking(ballots, candidates);
    law_tally_is_complete(ballots, candidates);
    let leq = |a: Row, b: Row| ranks_before(a, b);
    assert(ids_of(rows.take(m)) =~= Seq::new(m as nat, |i: int| rows[i].0));
    if m == rows.len() || rows[m].1 < needed {
        assert forall|i: int| m <= i < rows.len() implies (#[trigger] rows[i]).1 < needed by {
            if i > m {
                assert(leq(rows[m], rows[i]));
            }
        }
        lemma_at_least(rows, needed, m);
    } else {
        assert forall|i: int| 0 <= i < m + 1 implies (#[trigger] rows[i]).1 >= needed by {}
        lemma_at_least_many(rows, needed, m + 1);
        let last = rows[m - 1].1;
        assert forall|i: int| 0 <= i < m implies (#[trigger] rows[i]).1 >= last by {
            if i < m - 1 {
                assert(leq(rows[i], rows[m - 1]));
            }
        }
        assert forall|i: int| m <= i < rows.len() implies (#[trigger] rows[i]).1 < last by {
            if i > m {
                assert(leq(rows[m], rows[i]));
            }
        }
        lemma_at_least(rows, last, m);
    }
}

/// Where a tie stands across the last seat, those ahead of it win, in the order
/// of the tally, and the seats that are left go to the tied candidates by the
/// rule for ties; where that rule gives an error, so does the count.
pub proof fn law_a_tie_goes_by_its_rule(
    ballots: Seq<Seq<u8>>,
    candidates: Seq<u8>,
    rules: ElectionRules,
    seats: nat,
    needed: nat,
    a: int,
    b: int,
)
    requires
        rules.ballot.method is Single,
        seats_asked(rules, seats),
        votes_asked(rules, needed),
        ({
            let rows = ranking(ballots, candidates);
            &&& 0 <= a < seats < b <= rows.len()
            &&& rows[a].1 >= needed
            &&& forall|i: int| a <= i < b ==> (#[trigger] rows[i]).1 == rows[a].1
            &&& a > 0 ==> rows[a - 1].1 > rows[a].1
            &&& b < rows.len() ==> rows[b].1 < rows[a].1
        }),
    ensures
        ({
            let rows = ranking(ballots, candidates);
            let ahead = Seq::new(a as nat, |i: int| rows[i].0);
            let tied = Seq::new((b - a) as nat, |i: int| rows[a + i].0);
            let left = tie_winners(tied, (seats - a) as nat, candidates, rules.counting);
            &&& left matches Ok(chosen) ==> plurality_winners(ballots, candidates, rules) == Ok::<
                Seq<u8>,
                CountError,
            >(ahead + chosen)
            &&& left matches Err(error) ==> plurality_winners(ballots, candidates, rules) == Err::<
                Seq<u8>,
                CountError,
            >(error)
        }),
{
    let rows = ranking(ballots, candidates);
    law_tally_is_complete(ballots, candidates);
    let leq = |x: Row, y: Row| ranks_before(x, y);
    let v = rows[a].1;
    assert forall|i: int| 0 <= i < a implies (#[trigger] rows[i]).1 >= v + 1 by {
        if i < a - 1 {
            assert(leq(rows[i], rows[a - 1]));
        }
    }
    assert forall|i: int| b <= i < rows.len() implies (#[trigger] rows[i]).1 < v by {
        if i > b {
            assert(leq(rows[b], rows[i]));
        }
    }
    lemma_at_least(rows, v + 1, a);
    assert forall|i: int| 0 <= i < b implies (#[trigger] rows[i]).1 >= v by {}
    lemma_at_least(rows, v, b);
    lemma_at_least_many(rows, needed, b);
    assert(rows[seats - 1].1 == v);
    assert(ids_of(rows.take(a)) =~= Seq::new(a as nat, |i: int| rows[i].0));
    assert(ids_of(rows.subrange(a, b)) =~= Seq::new((b - a) as nat, |i: int| rows[a + i].0));
}

/// Ballots with more than one choice are not counted by plurality, and nothing
/// else is refused on that ground.
pub proof fn law_only_single_choices_are_counted(
    ballots: Seq<Seq<u8>>,
    candidates: Seq<u8>,
    rules: ElectionRules,
)
    ensures
        plurality_winners(ballots, candidates, rules) == Err::<Seq<u8>, CountError>(
            CountError::NotSingleChoice,
        ) <==> rules.ballot.method != BallotMethod::Single,
{
}

/// Whether the rules break ties in this way.
pub open spec fn ties_broken(rules: CountingRules, name: Seq<char>) -> bool {
    rules.tie_breaking is Some && rules.tie_breaking->0@ == name
}

/// Where the rules name no way to break ties, or one that is not known, the
/// lowest ids win: as many of the tied candidates as there are seats, and nobody
/// with a lower id is passed over for one with a higher.
pub proof fn law_the_lowest_ids_win_a_tie(
    group: Seq<u8>,
    k: nat,
    candidates: Seq<u8>,
    rules: CountingRules,
    x: u8,
    y: u8,
)
    requires
        !ties_broken(rules, "random"@),
        !ties_broken(rules, "none"@),
        !ties_broken(rules, "manual"@),
        k <= group.len(),
        forall|i: int, j: int| 0 <= i < j < group.len() ==> group[i] < group[j],
    ensures
        tie_winners(group, k, candidates, rules) matches Ok(winners) && {
            &&& winners.len() == k
            &&& winners.contains(x) ==> group.contains(x)
            &&& group.contains(x) && x < y && winners.contains(y) ==> winners.contains(x)
            &&& forall|i: int, j: int| 0 <= i < j < winners.len() ==> winners[i] < winners[j]
        },
{
    let winners = tie_winners(group, k, candidates, rules)->Ok_0;
    assert(winners =~= group.take(k as int));
    if winners.contains(x) {
        let i = choose|i: int| 0 <= i < winners.len() && winners[i] == x;
        assert(group[i] == x);
    }
    if group.contains(x) && x < y && winners.contains(y) {
        let i = choose|i: int| 0 <= i < group.len() && group[i] == x;
        let j = choose|j: int| 0 <= j < winners.len() && winners[j] == y;
        assert(group[j] == y);
        assert(i < j);
        assert(winners[i] == x);
    }
}

/// Where ties are not to be broken, nobody wins one; where they are to be broken
/// by hand, the count cannot be carried out; and no other rule gives an error.
pub proof fn law_ties_that_stay(
    group: Seq<u8>,
    k: nat,
    candidates: Seq<u8>,
    rules: CountingRules,
)
    ensures
        ties_broken(rules, "none"@) ==> tie_winners(group, k, candidates, rules) == Ok::<
            Seq<u8>,
            CountError,
        >(Seq::empty()),
        ties_broken(rules, "manual"@) ==> tie_winners(group, k, candidates, rules) == Err::<
            Seq<u8>,
            CountError,
        >(CountError::ManualTieBreak),
        !ties_broken(rules, "manual"@) ==> tie_winners(group, k, candidates, rules) is Ok,
{
    reveal_strlit("random");
    reveal_strlit("none");
    reveal_strlit("manual");
    assert("random"@[0] == 'r' && "manual"@[0] == 'm' && "none"@[0] == 'n');
}

/// A tie that is broken by a draw can be drawn again from its seed: starting from
/// the tied candidates in their order, for each seat in turn the one at its place
/// changes places with one at a place from there on, which the generator of that
/// seed gives; and those at the first places win.
pub proof fn law_a_draw_can_be_repeated(
    group: Seq<u8>,
    k: nat,
    candidates: Seq<u8>,
    rules: CountingRules,
    seed: u64,
    orders: Seq<Seq<u8>>,
)
    requires
        ties_broken(rules, "random"@),
        rules.tie_breaking_seed matches Some(s) ==> seed == s,
        rules.tie_breaking_seed is None ==> seed == tie_seed(candidates) as u64,
        orders.len() == k + 1,
        orders[0] == group,
        forall|i: int|
            0 <= i < k ==> {
                let place = rng_pick(
                    seed,
                    Seq::new(i as nat, |j: int| (j, group.len() as int)),
                    i,
                    group.len() as int,
                );
                #[trigger] orders[i + 1] == orders[i].update(i, orders[i][place]).update(
                    place,
                    orders[i][i],
                )
            },
    ensures
        tie_winners(group, k, candidates, rules) == Ok::<Seq<u8>, CountError>(
            orders[k as int].take(k as int),
        ),
{
    let positions = draw_positions(seed, group.len() as int, k);
    lemma_orders(group, seed, orders, positions, k as int);
    assert(positions.take(k as int) =~= positions);
}

proof fn lemma_orders(
    group: Seq<u8>,
    seed: u64,
    orders: Seq<Seq<u8>>,
    positions: Seq<int>,
    n: int,
)
    requires
        0 <= n < orders.len(),
        positions == draw_positions(seed, group.len() as int, (orders.len() - 1) as nat),
        orders[0] == group,
        forall|i: int|
            0 <= i < orders.len() - 1 ==> {
                let place = rng_pick(
                    seed,
                    Seq::new(i as nat, |j: int| (j, group.len() as int)),
                    i,
                    group.len() as int,
                );
                #[trigger] orders[i + 1] == orders[i].update(i, orders[i][place]).update(
                    place,
                    orders[i][i],
                )
            },
    ensures
        exchanged(group, positions.take(n)) == orders[n],
    decreases n,
{
    if n > 0 {
        lemma_orders(group, seed, orders, positions, n - 1);
        assert(positions.take(n).drop_last() =~= positions.take(n - 1));
        assert(positions.take(n).last() == positions[n - 1]);
        assert(draw_ranges(group.len() as int, (n - 1) as nat) =~= Seq::new(
            (n - 1) as nat,
            |j: int| (j, group.len() as int),
        ));
        assert(orders[(n - 1) + 1] == orders[n]);
    }
}

/// The seed of a draw for which the rules name none can be worked out again by
/// anyone: of the SHA-256 digest of the candidates' ids, each once and in
/// ascending order, it is the first eight bytes, the least significant first.
pub proof fn law_default_seed(candidates: Seq<u8>, ids: Seq<u8>)
    requires
        forall|i: int, j: int| 0 <= i < j < ids.len() ==> ids[i] < ids[j],
        forall|id: u8| #[trigger] ids.contains(id) <==> candidates.contains(id),
        sha256_digest(ids).len() == 32,
    ensures
        ({
            let d = sha256_digest(ids);
            tie_seed(candidates) == d[0] + 0x100 * d[1] + 0x1_0000 * d[2] + 0x100_0000 * d[3]
                + 0x1_0000_0000 * d[4] + 0x100_0000_0000 * d[5] + 0x1_0000_0000_0000 * d[6]
                + 0x100_0000_0000_0000 * d[7]
        }),
{
    let pred = |id: u8| candidates.contains(id);
    let listed = roll(candidates);
    lemma_ids_ascend(pred, 256);
    assert(all_ids().take(256) =~= all_ids());
    assert forall|id: u8| listed.contains(id) <==> ids.contains(id) by {
        if listed.contains(id) {
            let n = choose|n: int| 0 <= n < listed.len() && listed[n] == id;
            all_ids().lemma_filter_pred(pred, n);
        }
        if ids.contains(id) {
            assert(all_ids()[id as int] == id);
            all_ids().lemma_filter_contains(pred, id as int);
        }
    }
    lemma_ascending_unique(listed, ids);
    let d = sha256_digest(ids).take(8);
    reveal_with_fuel(little_endian, 9);
    assert(d.drop_first()[0] == d[1]);
    assert(d.drop_first().drop_first()[0] == d[2]);
    assert(d.drop_first().drop_first().drop_first()[0] == d[3]);
    assert(d.drop_first().drop_first().drop_first().drop_first()[0] == d[4]);
    assert(d.drop_first().drop_first().drop_first().drop_first().drop_first()[0] == d[5]);
    assert(d.drop_first().drop_first().drop_first().drop_first().drop_first().drop_first()[0]
        == d[6]);
    assert(d.drop_first().drop_first().drop_first().drop_first().drop_first().drop_first()
        .drop_first()[0] == d[7]);
}

/// There is one way to put ids in ascending order.
proof fn lemma_ascending_unique(a: Seq<u8>, b: Seq<u8>)
    requires
        forall|i: int, j: int| 0 <= i < j < a.len() ==> a[i] < a[j],
        forall|i: int, j: int| 0 <= i < j < b.len() ==> b[i] < b[j],
        forall|id: u8| a.contains(id) <==> b.contains(id),
    ensures
        a == b,
    decreases a.len(),
{
    if a.len() == 0 {
        if b.len() > 0 {
            assert(b.contains(b[0]));
        }
        assert(a =~= b);
    } else {
        assert(a.contains(a.last()));
        assert(b.len() > 0);
        assert(b.contains(b.last()));
        let i = choose|i: int| 0 <= i < a.len() && a[i] == b.last();
        let j = choose|j: int| 0 <= j < b.len() && b[j] == a.last();
        assert(a.last() == b.last()) by {
            if i < a.len() - 1 {
                assert(a[i] < a[a.len() - 1]);
            }
            if j < b.len() - 1 {
                assert(b[j] < b[b.len() - 1]);
            }
        }
        let ra = a.drop_last();
        let rb = b.drop_last();
        assert forall|id: u8| ra.contains(id) <==> rb.contains(id) by {
            if ra.contains(id) {
                let n = choose|n: int| 0 <= n < ra.len() && ra[n] == id;
                assert(a[n] < a[a.len() - 1]);
                assert(a.contains(a[n]));
                let m = choose|m: int| 0 <= m < b.len() && b[m] == id;
                assert(rb[m] == id);
            }
            if rb.contains(id) {
                let n = choose|n: int| 0 <= n < rb.len() && rb[n] == id;
                assert(b[n] < b[b.len() - 1]);
                assert(b.contains(b[n]));
                let m = choose|m: int| 0 <= m < a.len() && a[m] == id;
                assert(ra[m] == id);
            }
        }
        lemma_ascending_unique(ra, rb);
        assert(a =~= ra.push(a.last()));
        assert(b =~= rb.push(b.last()));
    }
}

/// The texts of the errors of a count.
pub proof fn law_count_errors_in_words(error: CountError)
    ensures
        error is NotSingleChoice ==> error.text() == "Plurality requires single-choice ballots"@,
        error is ManualTieBreak ==> error.text() == "NotImplemented: manual tie-break"@,
        error matches CountError::UnknownRules(id) ==> error.text() == "UNKNOWN_RULES: "@ + id@,
{
}

} // verus!
