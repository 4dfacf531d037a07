//! First choices, added up and put in order.

use crate::counting::seed::{all_ids, lemma_ids_below, names};
use crate::counting::Ballot;
use vstd::prelude::*;
use vstd::relations::{sorted_by, total_ordering};

verus! {

/// A candidate id and its votes.
pub type Row = (u8, nat);

/// The choices on each ballot.
pub open spec fn choices(ballots: Seq<Ballot>) -> Seq<Seq<u8>> {
    ballots.map_values(|ballot: Ballot| ballot@)
}

/// Whether a ballot counts for a candidate: it is the first choice.
pub open spec fn counts_for(ballot: Seq<u8>, id: u8) -> bool {
    ballot.len() > 0 && ballot[0] == id
}

/// The number of ballots that count for a candidate.
pub open spec fn votes_for(ballots: Seq<Seq<u8>>, id: u8) -> nat {
    ballots.filter(|ballot: Seq<u8>| counts_for(ballot, id)).len()
}

/// Whether a candidate appears in the tally: it is registered, or has votes.
pub open spec fn on_tally(ballots: Seq<Seq<u8>>, candidates: Seq<u8>, id: u8) -> bool {
    candidates.contains(id) || votes_for(ballots, id) > 0
}

/// Where counting stops. Votes are told in numbers of double precision, in which
/// one vote more makes no difference from here on.
pub const MAX_VOTES: u64 = 9_007_199_254_740_992;

/// The votes that a candidate is counted with.
pub open spec fn counted(ballots: Seq<Seq<u8>>, id: u8) -> nat {
    if votes_for(ballots, id) <= MAX_VOTES {
        votes_for(ballots, id)
    } else {
        MAX_VOTES as nat
    }
}

/// The row of a candidate.
pub open spec fn row_of(ballots: Seq<Seq<u8>>, id: u8) -> Row {
    (id, counted(ballots, id))
}

/// The rows of a tally by ascending id.
pub open spec fn rows_by_id(ballots: Seq<Seq<u8>>, candidates: Seq<u8>) -> Seq<Row> {
    all_ids().filter(|id: u8| on_tally(ballots, candidates, id)).map_values(
        |id: u8| row_of(ballots, id),
    )
}

/// The order of a tally: more votes first, then the lower id.
pub open spec fn ranks_before(a: Row, b: Row) -> bool {
    a.1 > b.1 || (a.1 == b.1 && a.0 <= b.0)
}

/// The rows of a tally in their order.
pub open spec fn ranking(ballots: Seq<Seq<u8>>, candidates: Seq<u8>) -> Seq<Row> {
    rows_by_id(ballots, candidates).sort_by(|a: Row, b: Row| ranks_before(a, b))
}

/// The ids of some rows.
pub open spec fn ids_of(rows: Seq<Row>) -> Seq<u8> {
    rows.map_values(|row: Row| row.0)
}

/// A candidate and its votes.
#[derive(Debug, Clone, Copy)]
pub struct Standing {
    pub candidate_id: u8,
    pub votes: u64,
}

impl View for Standing {
    type V = Row;

    open spec fn view(&self) -> Row {
        (self.candidate_id, self.votes as nat)
    }
}

/// The rows of some standings.
pub open spec fn rows_of(standings: Seq<Standing>) -> Seq<Row> {
    standings.map_values(|standing: Standing| standing@)
}

/// The order of a tally is total.
pub(crate) proof fn lemma_ranks_before_is_total()
    ensures
        total_ordering(|a: Row, b: Row| ranks_before(a, b)),
{
}

/// The votes after one more ballot.
proof fn lemma_votes_of_one_more(ballots: Seq<Seq<u8>>, n: int, id: u8)
    requires
        0 <= n < ballots.len(),
    ensures
        votes_for(ballots.take(n + 1), id) == votes_for(ballots.take(n), id) + if counts_for(
            ballots[n],
            id,
        ) {
            1nat
        } else {
            0nat
        },
{
    reveal(Seq::filter);
    assert(ballots.take(n + 1).drop_last() =~= ballots.take(n));
}

/// Adds up the first choices: the votes of each id, by id.
pub fn first_choices(ballots: &[Ballot]) -> (counts: Vec<u64>)
    ensures
        counts@.len() == 256,
        forall|id: u8| #[trigger] counts@[id as int] == counted(choices(ballots@), id),
{
    let ghost all = choices(ballots@);
    let mut counts: Vec<u64> = Vec::new();
    let mut n: u16 = 0;
    while n < 256
        invariant
            n <= 256,
            counts@.len() == n,
            forall|i: int| 0 <= i < n ==> counts@[i] == 0,
        decreases 256 - n,
    {
        counts.push(0);
        n += 1;
    }
    let mut b: usize = 0;
    assert forall|id: u8| #[trigger] counts@[id as int] == counted(all.take(0), id) by {
        reveal(Seq::filter);
    }
    while b < ballots.len()
        invariant
            b <= ballots.len(),
            all == choices(ballots@),
            counts@.len() == 256,
            forall|id: u8| #[trigger] counts@[id as int] == counted(all.take(b as int), id),
        decreases ballots.len() - b,
    {
        let ghost before = counts@;
        assert(all[b as int] == ballots@[b as int]@);
        if ballots[b].len() > 0 {
            let first: u8 = ballots[b][0];
            let votes: u64 = counts[first as usize];
            assert(counts@[first as int] == counted(all.take(b as int), first));
            if votes < MAX_VOTES {
                counts.set(first as usize, votes + 1);
            }
        }
        b += 1;
        assert forall|id: u8| #[trigger] counts@[id as int] == counted(all.take(b as int), id) by {
            lemma_votes_of_one_more(all, b - 1, id);
            assert(before[id as int] == counted(all.take(b - 1), id));
        }
    }
    assert(all.take(b as int) =~= all);
    counts
}

/// Puts a line into a tally that is in order. Its id is above all that are
/// there.
fn insert_line(tally: &mut Vec<Standing>, line: Standing)
    requires
        sorted_by(rows_of(old(tally)@), |a: Row, b: Row| ranks_before(a, b)),
        forall|i: int|
            0 <= i < old(tally)@.len() ==> (#[trigger] old(tally)@[i]).candidate_id
                < line.candidate_id,
        ids_of(rows_of(old(tally)@)).no_duplicates(),
    ensures
        ids_of(rows_of(final(tally)@)).no_duplicates(),
        sorted_by(rows_of(final(tally)@), |a: Row, b: Row| ranks_before(a, b)),
        rows_of(final(tally)@).to_multiset() == rows_of(old(tally)@).to_multiset().insert(
            line@,
        ),
        forall|i: int|
            0 <= i < final(tally)@.len() ==> (#[trigger] final(tally)@[i]).candidate_id
                <= line.candidate_id,
{
    let ghost leq = |a: Row, b: Row| ranks_before(a, b);
    let ghost rows = rows_of(tally@);
    let ghost row = line@;
    let mut p: usize = 0;
    while p < tally.len() && tally[p].votes >= line.votes
        invariant
            p <= tally.len(),
            tally@ == old(tally)@,
            forall|i: int| 0 <= i < p ==> (#[trigger] tally@[i]).votes >= line.votes,
        decreases tally.len() - p,
    {
        p += 1;
    }
    assert forall|i: int| p <= i < tally@.len() implies (#[trigger] tally@[i]).votes
        < line.votes by {
        if i > p {
            assert(leq(rows[p as int], rows[i]));
        }
    }
    tally.insert(p, line);
    proof {
        assert(rows_of(tally@) =~= rows.insert(p as int, row));
        vstd::seq_lib::to_multiset_insert(rows, p as int, row);
        assert(ids_of(rows_of(tally@)) =~= ids_of(rows).insert(p as int, row.0));
        assert forall|i: int| 0 <= i < ids_of(rows).len() implies #[trigger] ids_of(rows)[i]
            != row.0 by {
            assert(ids_of(rows)[i] == old(tally)@[i].candidate_id);
        }
        let after = rows_of(tally@);
        assert forall|i: int, j: int| 0 <= i < j < after.len() implies #[trigger] leq(
            after[i],
            after[j],
        ) by {
            if i < p {
                assert(after[i] == rows[i]);
                assert(old(tally)@[i].votes >= line.votes);
                if j < p {
                    assert(after[j] == rows[j]);
                    assert(leq(rows[i], rows[j]));
                } else if j > p {
                    assert(after[j] == rows[j - 1]);
                    assert(leq(rows[i], rows[j - 1]));
                }
            } else if i == p {
                assert(after[j] == rows[j - 1]);
                assert(old(tally)@[j - 1].votes < line.votes);
            } else {
                assert(after[i] == rows[i - 1] && after[j] == rows[j - 1]);
                assert(leq(rows[i - 1], rows[j - 1]));
            }
        }
    }
}

/// Makes the tally of an election: every registered candidate and every first
/// choice, most votes first, then by id.
pub fn make_tally(ballots: &[Ballot], candidates: &[u8]) -> (tally: Vec<Standing>)
    ensures
        rows_of(tally@) == ranking(choices(ballots@), candidates@),
        sorted_by(rows_of(tally@), |a: Row, b: Row| ranks_before(a, b)),
        ids_of(rows_of(tally@)).no_duplicates(),
{
    let ghost all = choices(ballots@);
    let ghost pred = |id: u8| on_tally(all, candidates@, id);
    let ghost leq = |a: Row, b: Row| ranks_before(a, b);
    let ghost make = |id: u8| row_of(all, id);
    let counts = first_choices(ballots);
    let mut tally: Vec<Standing> = Vec::new();
    let mut n: u16 = 0;
    proof {
        assert(all_ids().take(0).filter(pred) =~= Seq::<u8>::empty()) by {
            reveal(Seq::filter);
        }
        assert(rows_of(tally@) =~= Seq::<Row>::empty());
        assert(all_ids().take(0).filter(pred).map_values(make) =~= Seq::<Row>::empty());
    }
    while n < 256
        invariant
            n <= 256,
            all == choices(ballots@),
            pred == (|id: u8| on_tally(all, candidates@, id)),
            leq == (|a: Row, b: Row| ranks_before(a, b)),
            make == (|id: u8| row_of(all, id)),
            counts@.len() == 256,
            forall|id: u8| #[trigger] counts@[id as int] == counted(all, id),
            sorted_by(rows_of(tally@), leq),
            ids_of(rows_of(tally@)).no_duplicates(),
            rows_of(tally@).to_multiset() == all_ids().take(n as int).filter(pred).map_values(
                make,
            ).to_multiset(),
            forall|i: int|
                0 <= i < tally@.len() ==> (#[trigger] tally@[i]).candidate_id < n,
        decreases 256 - n,
    {
        let id: u8 = n as u8;
        proof {
            lemma_ids_below(pred, n as int);
        }
        let ghost so_far = all_ids().take(n as int).filter(pred);
        let votes: u64 = counts[n as usize];
        assert(counts@[id as int] == counted(all, id));
        if votes > 0 || names(candidates, id) {
            insert_line(&mut tally, Standing { candidate_id: id, votes });
            proof {
                assert(so_far.push(id).map_values(make) =~= so_far.map_values(make).push(
                    make(id),
                ));
                vstd::seq_lib::to_multiset_build(so_far.map_values(make), make(id));
            }
        }
        n += 1;
    }
    proof {
        assert(all_ids().take(256) =~= all_ids());
        lemma_ranks_before_is_total();
        rows_by_id(all, candidates@).lemma_sort_by_ensures(leq);
        vstd::seq_lib::lemma_sorted_unique(rows_of(tally@), ranking(all, candidates@), leq);
    }
    tally
}

} // verus!
