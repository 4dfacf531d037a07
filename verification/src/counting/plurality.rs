//! First past the post.

use crate::counting::ranking::{
    choices, ids_of, make_tally, ranking, ranks_before, row_of, rows_of, Row, Standing,
    MAX_VOTES,
};
use crate::counting::laws::law_tally_is_complete;
use crate::counting::seed::names;
use crate::counting::tie::{break_boundary_tie, tie_winners, ties_by};
use crate::counting::{
    lists, tally_tells_votes, votes_json, votes_text, Ballot, CandidateStatus, CandidateTally,
    CountError, CountResult, CountingAlgorithm,
};
use crate::rules::{BallotMethod, CountingRules, ElectionRules};
use vstd::prelude::*;
use vstd::relations::sorted_by;

verus! {

/// The number of candidates with so many votes or more.
pub open spec fn at_least(rows: Seq<Row>, votes: nat) -> nat {
    rows.filter(|row: Row| row.1 >= votes).len()
}

/// The seats to fill: one at the least.
pub open spec fn seats_of(rules: ElectionRules) -> nat {
    if rules.election.seats >= 1 {
        rules.election.seats as nat
    } else {
        1
    }
}

/// The votes that a winner needs.
pub open spec fn votes_needed(rules: CountingRules) -> nat {
    match rules.min_winner_votes {
        Some(votes) => votes as nat,
        None => 0,
    }
}

/// Who wins the seats, of candidates in the order of a tally.
///
/// Only candidates with enough votes can win. If the seats suffice for all of
/// them, all win. Else those win who have more votes than whoever would come
/// last; those level with the last one win too if the seats suffice for them
/// all, and else the seats that are left go by the rule for ties.
pub open spec fn seat_winners(
    rows: Seq<Row>,
    seats: nat,
    needed: nat,
    candidates: Seq<u8>,
    rules: CountingRules,
) -> Result<Seq<u8>, CountError> {
    let eligible = at_least(rows, needed);
    if eligible <= seats {
        Ok(ids_of(rows.take(eligible as int)))
    } else {
        let last = rows[seats - 1].1;
        let ahead = at_least(rows, last + 1);
        let level = at_least(rows, last);
        if level == seats {
            Ok(ids_of(rows.take(seats as int)))
        } else {
            let tied = ids_of(rows.subrange(ahead as int, level as int));
            match tie_winners(tied, (seats - ahead) as nat, candidates, rules) {
                Ok(ids) => Ok(ids_of(rows.take(ahead as int)) + ids),
                Err(error) => Err(error),
            }
        }
    }
}

/// What every list of winners keeps to: no more winners than seats, nobody
/// twice, only candidates of the tally who have the votes that a winner needs,
/// and nobody passed over for a candidate with fewer votes.
pub open spec fn fairly_won(rows: Seq<Row>, winners: Seq<u8>, seats: nat, needed: nat) -> bool {
    &&& winners.len() <= seats
    &&& winners.no_duplicates()
    &&& forall|id: u8| #[trigger]
        winners.contains(id) ==> exists|i: int|
            0 <= i < rows.len() && #[trigger] rows[i].0 == id && rows[i].1 >= needed
    &&& forall|i: int, j: int|
        0 <= i < rows.len() && 0 <= j < rows.len() && rows[i].1 > rows[j].1 && winners.contains(
            (#[trigger] rows[j]).0,
        ) ==> winners.contains((#[trigger] rows[i]).0)
}

/// The seats that can be filled: one for each candidate with enough votes, as
/// far as there are seats.
pub open spec fn fillable(rows: Seq<Row>, seats: nat, needed: nat) -> nat {
    if at_least(rows, needed) <= seats {
        at_least(rows, needed)
    } else {
        seats
    }
}

/// In the order of a tally, the candidates with so many votes or more are
/// those before the first with fewer.
pub(crate) proof fn lemma_at_least(rows: Seq<Row>, votes: nat, k: int)
    requires
        0 <= k <= rows.len(),
        forall|i: int| 0 <= i < k ==> (#[trigger] rows[i]).1 >= votes,
        forall|i: int| k <= i < rows.len() ==> (#[trigger] rows[i]).1 < votes,
    ensures
        at_least(rows, votes) == k,
    decreases rows.len(),
{
    reveal(Seq::filter);
    if rows.len() > 0 {
        let rest = rows.drop_last();
        assert(forall|i: int| 0 <= i < rest.len() ==> rest[i] == rows[i]);
        if k == rows.len() {
            lemma_at_least(rest, votes, k - 1);
            assert(rows.last() == rows[k - 1]);
        } else {
            lemma_at_least(rest, votes, k);
            assert(rows.last() == rows[rows.len() - 1]);
        }
    }
}

/// At least so many candidates have the votes as are known to have them.
pub(crate) proof fn lemma_at_least_many(rows: Seq<Row>, votes: nat, k: int)
    requires
        0 <= k <= rows.len(),
        forall|i: int| 0 <= i < k ==> (#[trigger] rows[i]).1 >= votes,
    ensures
        at_least(rows, votes) >= k,
    decreases rows.len(),
{
    reveal(Seq::filter);
    if rows.len() > 0 {
        let rest = rows.drop_last();
        assert(forall|i: int| 0 <= i < rest.len() ==> rest[i] == rows[i]);
        if k == rows.len() {
            lemma_at_least_many(rest, votes, k - 1);
            assert(rows.last() == rows[k - 1]);
        } else {
            lemma_at_least_many(rest, votes, k);
        }
    }
}

/// The first of a tally win fairly when nobody after them has as many votes,
/// or the same votes decide.
proof fn lemma_first_win_fairly(rows: Seq<Row>, k: int, extra: Seq<u8>, j: int, seats: nat, needed: nat)
    requires
        0 <= k <= j <= rows.len(),
        sorted_by(rows, |a: Row, b: Row| ranks_before(a, b)),
        ids_of(rows).no_duplicates(),
        k + extra.len() <= seats,
        extra.no_duplicates(),
        forall|i: int| 0 <= i < j ==> (#[trigger] rows[i]).1 >= needed,
        forall|i: int| k <= i < j ==> (#[trigger] rows[i]).1 == rows[k].1,
        forall|id: u8| #[trigger]
            extra.contains(id) ==> exists|i: int| k <= i < j && #[trigger] rows[i].0 == id,
        k == j ==> extra.len() == 0,
        0 < k < rows.len() ==> rows[k - 1].1 > rows[k].1,
    ensures
        fairly_won(rows, ids_of(rows.take(k)) + extra, seats, needed),
{
    let leq = |a: Row, b: Row| ranks_before(a, b);
    let first = ids_of(rows.take(k));
    let winners = first + extra;
    let ids = ids_of(rows);
    assert(forall|i: int| 0 <= i < k ==> first[i] == rows[i].0 && ids[i] == first[i]);
    assert(forall|i: int| 0 <= i < rows.len() ==> ids[i] == rows[i].0);
    assert forall|a: int, b: int| 0 <= a < b < winners.len() implies winners[a] != winners[b] by {
        if b < k {
            assert(ids[a] != ids[b]);
        } else if a < k {
            assert(extra.contains(extra[b - k]));
            let i = choose|i: int| k <= i < j && #[trigger] rows[i].0 == extra[b - k];
            assert(ids[a] != ids[i]);
        } else {
            assert(extra[a - k] != extra[b - k]);
        }
    }
    assert forall|id: u8| #[trigger] winners.contains(id) implies exists|i: int|
        0 <= i < j && #[trigger] rows[i].0 == id && rows[i].1 >= needed && (i >= k
            ==> extra.len() > 0) by {
        let n = choose|n: int| 0 <= n < winners.len() && winners[n] == id;
        if n < k {
            assert(rows[n].0 == id);
        } else {
            assert(extra.contains(extra[n - k]));
            let i = choose|i: int| k <= i < j && #[trigger] rows[i].0 == extra[n - k];
            assert(rows[i].0 == id);
        }
    }
    assert forall|a: int, b: int|
        0 <= a < rows.len() && 0 <= b < rows.len() && rows[a].1 > rows[b].1 && winners.contains(
            (#[trigger] rows[b]).0,
        ) implies winners.contains((#[trigger] rows[a]).0) by {
        let i = choose|i: int|
            0 <= i < j && #[trigger] rows[i].0 == rows[b].0 && rows[i].1 >= needed && (i >= k
                ==> extra.len() > 0);
        assert(ids[i] == ids[b]);
        assert(i == b);
        if a > b {
            assert(leq(rows[b], rows[a]));
        }
        if a >= k {
            assert(rows[a].1 == rows[k].1);
            assert(rows[b].1 == rows[k].1);
        }
        assert(winners[a] == rows[a].0);
    }
}

/// Fills the seats from a tally that is in order, one group of equal votes at a
/// time, so that a tie for the last seats goes by the configured rule and not
/// by candidate id.
pub fn fill_seats(
    tally: &Vec<Standing>,
    seats: usize,
    needed: u64,
    candidates: &[u8],
    rules: &CountingRules,
) -> (winners: Result<Vec<u8>, CountError>)
    requires
        seats >= 1,
        sorted_by(rows_of(tally@), |a: Row, b: Row| ranks_before(a, b)),
        ids_of(rows_of(tally@)).no_duplicates(),
    ensures
        match seat_winners(
            rows_of(tally@),
            seats as nat,
            needed as nat,
            candidates@,
            *rules,
        ) {
            Ok(ids) => winners matches Ok(w) && w@ == ids,
            Err(error) => winners == Err::<Vec<u8>, CountError>(error),
        },
        winners matches Ok(w) ==> fairly_won(
            rows_of(tally@),
            w@,
            seats as nat,
            needed as nat,
        ),
        !ties_by(*rules, "none"@) ==> (winners matches Ok(w) ==> w@.len() == fillable(
            rows_of(tally@),
            seats as nat,
            needed as nat,
        )),
{
    let ghost rows = rows_of(tally@);
    let ghost leq = |a: Row, b: Row| ranks_before(a, b);
    let ghost none = Seq::<u8>::empty();
    let mut elected: Vec<u8> = Vec::new();
    let mut i: usize = 0;
    assert(elected@ =~= ids_of(rows.take(0)));
    while i < tally.len() && i < seats
        invariant
            seats >= 1,
            i <= tally.len(),
            i <= seats,
            rows == rows_of(tally@),
            leq == (|a: Row, b: Row| ranks_before(a, b)),
            none == Seq::<u8>::empty(),
            sorted_by(rows, leq),
            ids_of(rows).no_duplicates(),
            elected@ == ids_of(rows.take(i as int)),
            forall|n: int| 0 <= n < i ==> (#[trigger] rows[n]).1 >= needed,
            0 < i < rows.len() ==> rows[i - 1].1 > rows[i as int].1,
        decreases tally.len() - i,
    {
        let votes: u64 = tally[i].votes;
        assert(rows[i as int].1 == votes);
        if votes < needed {
            proof {
                assert forall|n: int| i <= n < rows.len() implies (#[trigger] rows[n]).1
                    < needed by {
                    if n > i {
                        assert(leq(rows[i as int], rows[n]));
                    }
                }
                lemma_at_least(rows, needed as nat, i as int);
                lemma_first_win_fairly(rows, i as int, none, i as int, seats as nat, needed as nat);
                assert(ids_of(rows.take(i as int)) + none =~= elected@);
            }
            return Ok(elected);
        }
        let mut j: usize = i + 1;
        while j < tally.len() && tally[j].votes == votes
            invariant
                i < j <= tally.len(),
                rows == rows_of(tally@),
                forall|n: int| i <= n < j ==> (#[trigger] rows[n]).1 == votes,
            decreases tally.len() - j,
        {
            assert(rows[j as int].1 == votes);
            j += 1;
        }
        assert(j < rows.len() ==> rows[j as int].1 < votes) by {
            if j < rows.len() {
                assert(leq(rows[i as int], rows[j as int]));
                assert(rows[j as int].1 == tally@[j as int].votes);
            }
        }
        let mut group: Vec<u8> = Vec::new();
        let mut n: usize = i;
        while n < j
            invariant
                i <= n <= j <= tally.len(),
                rows == rows_of(tally@),
                group@ == ids_of(rows.subrange(i as int, n as int)),
            decreases j - n,
        {
            group.push(tally[n].candidate_id);
            n += 1;
            assert(ids_of(rows.subrange(i as int, n as int)) =~= ids_of(
                rows.subrange(i as int, n - 1),
            ).push(rows[n - 1].0));
        }
        if j <= seats {
            elected.append(&mut group);
            proof {
                assert(elected@ =~= ids_of(rows.take(j as int)));
                assert(j < rows.len() ==> rows[j - 1].1 > rows[j as int].1);
            }
            i = j;
        } else {
            let remaining: usize = seats - i;
            proof {
                lemma_at_least_many(rows, needed as nat, j as int);
                assert(rows[seats - 1].1 == votes);
                assert forall|m: int| j <= m < rows.len() implies (#[trigger] rows[m]).1
                    < votes by {
                    if m > j {
                        assert(leq(rows[j as int], rows[m]));
                    }
                }
                assert forall|m: int| 0 <= m < i implies (#[trigger] rows[m]).1 >= votes + 1 by {
                    if m < i - 1 {
                        assert(leq(rows[m], rows[i - 1]));
                    }
                }
                lemma_at_least(rows, (votes + 1) as nat, i as int);
                lemma_at_least(rows, votes as nat, j as int);
                assert forall|a: int, b: int| 0 <= a < b < group@.len() implies group@[a]
                    != group@[b] by {
                    assert(ids_of(rows)[i + a] != ids_of(rows)[i + b]);
                }
            }
            let mut drawn = break_boundary_tie(group.as_slice(), remaining, candidates, rules)?;
            let ghost extra = drawn@;
            elected.append(&mut drawn);
            proof {
                assert forall|id: u8| #[trigger] extra.contains(id) implies exists|m: int|
                    i <= m < j && #[trigger] rows[m].0 == id by {
                    assert(group@.contains(id));
                    let m = choose|m: int| 0 <= m < group@.len() && group@[m] == id;
                    assert(rows[i + m].0 == id);
                }
                lemma_first_win_fairly(
                    rows,
                    i as int,
                    extra,
                    j as int,
                    seats as nat,
                    needed as nat,
                );
            }
            return Ok(elected);
        }
    }
    proof {
        assert(ids_of(rows.take(i as int)) + none =~= elected@);
        lemma_first_win_fairly(rows, i as int, none, i as int, seats as nat, needed as nat);
        if i == rows.len() {
            lemma_at_least(rows, needed as nat, i as int);
        } else {
            lemma_at_least_many(rows, needed as nat, i as int);
            let last = rows[seats - 1].1;
            assert forall|m: int| i <= m < rows.len() implies (#[trigger] rows[m]).1 < last by {
                if m > i {
                    assert(leq(rows[i as int], rows[m]));
                }
            }
            assert forall|m: int| 0 <= m < i implies (#[trigger] rows[m]).1 >= last by {
                if m < i - 1 {
                    assert(leq(rows[m], rows[i - 1]));
                }
            }
            lemma_at_least(rows, last, i as int);
        }
    }
    Ok(elected)
}

/// Simple plurality: every ballot counts for its first choice.
pub struct PluralityAlgorithm;

/// Whether a tally shows each candidate as elected or excluded, by whether it
/// is among the winners.
pub open spec fn statuses_shown(tally: Seq<CandidateTally>, winners: Seq<u8>) -> bool {
    forall|i: int|
        0 <= i < tally.len() ==> (#[trigger] tally[i]).status == if winners.contains(
            tally[i].candidate_id,
        ) {
            CandidateStatus::Elected
        } else {
            CandidateStatus::Excluded
        }
}

/// Whether a tally shows the candidates of some rows with their votes, in the
/// same order.
pub open spec fn rows_shown(tally: Seq<CandidateTally>, rows: Seq<Row>) -> bool {
    &&& tally.len() == rows.len()
    &&& forall|i: int|
        0 <= i < tally.len() ==> (#[trigger] tally[i]).candidate_id == rows[i].0
            && tally[i].votes@ == votes_json(rows[i].1)
}

/// Who wins a plurality election.
pub open spec fn plurality_winners(
    ballots: Seq<Seq<u8>>,
    candidates: Seq<u8>,
    rules: ElectionRules,
) -> Result<Seq<u8>, CountError> {
    if rules.ballot.method == BallotMethod::Single {
        seat_winners(
            ranking(ballots, candidates),
            seats_of(rules),
            votes_needed(rules.counting),
            candidates,
            rules.counting,
        )
    } else {
        Err(CountError::NotSingleChoice)
    }
}

impl CountingAlgorithm for PluralityAlgorithm {
    /// Counts first choices and fills the seats.
    fn count(
        &self,
        ballots: &[Ballot],
        candidates: &[u8],
        rules: &ElectionRules,
    ) -> (result: Result<CountResult, CountError>)
        ensures
            match plurality_winners(choices(ballots@), candidates@, *rules) {
                Err(error) => result == Err::<CountResult, CountError>(error),
                Ok(winners) => result matches Ok(r) && {
                    &&& r.elected@ == winners
                    &&& rows_shown(r.tally@, ranking(choices(ballots@), candidates@))
                    &&& statuses_shown(r.tally@, winners)
                    &&& r.count_sheet is None
                },
            },
            result matches Ok(r) ==> forall|i: int|
                0 <= i < r.tally@.len() ==> !((#[trigger] r.tally@[i]).status is Active) && (
                r.tally@[i].status is Elected <==> r.elected@.contains(r.tally@[i].candidate_id)),
            result matches Ok(r) ==> fairly_won(
                ranking(choices(ballots@), candidates@),
                r.elected@,
                seats_of(*rules),
                votes_needed(rules.counting),
            ),
            !ties_by(rules.counting, "none"@) ==> (result matches Ok(r) ==> r.elected@.len()
                == fillable(
                ranking(choices(ballots@), candidates@),
                seats_of(*rules),
                votes_needed(rules.counting),
            )),
    {
        if rules.ballot.method != BallotMethod::Single {
            return Err(CountError::NotSingleChoice);
        }
        let standings = make_tally(ballots, candidates);
        let seats: usize = if rules.election.seats >= 1 {
            rules.election.seats as usize
        } else {
            1
        };
        let needed: u64 = match rules.counting.min_winner_votes {
            Some(votes) => votes as u64,
            None => 0,
        };
        let elected = fill_seats(&standings, seats, needed, candidates, &rules.counting)?;
        let ghost rows = rows_of(standings@);
        proof {
            law_tally_is_complete(choices(ballots@), candidates@);
            assert forall|n: int| 0 <= n < rows.len() implies (#[trigger] rows[n]).1
                <= MAX_VOTES by {
                assert(rows.contains(rows[n]));
            }
        }
        let mut tally: Vec<CandidateTally> = Vec::new();
        let mut i: usize = 0;
        while i < standings.len()
            invariant
                i <= standings@.len(),
                rows == rows_of(standings@),
                forall|n: int| 0 <= n < rows.len() ==> (#[trigger] rows[n]).1 <= MAX_VOTES,
                rows_shown(tally@, rows.take(i as int)),
                tally_tells_votes(tally@),
                statuses_shown(tally@, elected@),
            decreases standings@.len() - i,
        {
            let id: u8 = standings[i].candidate_id;
            let status = if names(elected.as_slice(), id) {
                CandidateStatus::Elected
            } else {
                CandidateStatus::Excluded
            };
            assert(rows[i as int] == standings@[i as int]@);
            tally.push(
                CandidateTally { candidate_id: id, votes: votes_text(standings[i].votes), status },
            );
            i += 1;
        }
        proof {
            assert(rows.take(i as int) =~= rows);
            assert forall|id: u8| #[trigger] candidates@.contains(id) implies lists(
                tally@,
                id,
            ) by {
                let row = row_of(choices(ballots@), id);
                assert(rows.contains(row));
                let n = choose|n: int| 0 <= n < rows.len() && rows[n] == row;
                assert(tally@[n].candidate_id == id);
            }
        }
        Ok(CountResult { elected, tally, count_sheet: None })
    }
}

} // verus!
