//! What holds of every count.

use crate::counting::plurality::{at_least, plurality_winners, seat_winners};
use crate::counting::ranking::{
    counted, counts_for, ids_of, lemma_ranks_before_is_total, on_tally, ranking, ranks_before,
    row_of, rows_by_id, votes_for, Row, MAX_VOTES,
};
use crate::counting::seed::{all_ids, law_tie_seed_of_set, lemma_ids_below};
use crate::counting::tie::ties_by;
use crate::counting::CandidateStatus;
use crate::rules::{CountingRules, ElectionRules};
use vstd::prelude::*;
use vstd::relations::sorted_by;

verus! {

/// The rows by id show each id that is on the tally, and nothing else.
proof fn lemma_rows_by_id(ballots: Seq<Seq<u8>>, candidates: Seq<u8>)
    ensures
        forall|row: Row| #[trigger]
            rows_by_id(ballots, candidates).contains(row) <==> on_tally(ballots, candidates, row.0)
                && row == row_of(ballots, row.0),
        rows_by_id(ballots, candidates).no_duplicates(),
{
    let pred = |id: u8| on_tally(ballots, candidates, id);
    let ids = all_ids().filter(pred);
    let rows = rows_by_id(ballots, candidates);
    assert forall|row: Row| #[trigger] rows.contains(row) implies on_tally(
        ballots,
        candidates,
        row.0,
    ) && row == row_of(ballots, row.0) by {
        let n = choose|n: int| 0 <= n < rows.len() && rows[n] == row;
        all_ids().lemma_filter_pred(pred, n);
        assert(pred(ids[n]));
    }
    assert forall|row: Row|
        on_tally(ballots, candidates, row.0) && row == row_of(
            ballots,
            row.0,
        ) implies #[trigger] rows.contains(row) by {
        assert(all_ids()[row.0 as int] == row.0);
        all_ids().lemma_filter_contains(pred, row.0 as int);
        let n = choose|n: int| 0 <= n < ids.len() && ids[n] == row.0;
        assert(rows[n] == row);
    }
    lemma_ids_ascend(pred, 256);
    assert(all_ids().take(256) =~= all_ids());
    assert forall|a: int, b: int| 0 <= a < b < rows.len() implies rows[a] != rows[b] by {
        assert(ids[a] < ids[b]);
    }
}

/// The ids that a filter keeps ascend.
pub(crate) proof fn lemma_ids_ascend(pred: spec_fn(u8) -> bool, n: int)
    requires
        0 <= n <= 256,
    ensures
        forall|a: int, b: int|
            0 <= a < b < all_ids().take(n).filter(pred).len() ==> all_ids().take(n).filter(pred)[a]
                < all_ids().take(n).filter(pred)[b],
        forall|a: int|
            0 <= a < all_ids().take(n).filter(pred).len() ==> #[trigger] all_ids().take(n).filter(
                pred,
            )[a] < n,
    decreases n,
{
    if n == 0 {
        reveal(Seq::filter);
        assert(all_ids().take(0).filter(pred).len() == 0);
    } else {
        lemma_ids_ascend(pred, n - 1);
        lemma_ids_below(pred, n - 1);
    }
}

/// The tally shows every registered candidate, also one without votes, and
/// every candidate with votes, each with its votes and each once; it shows
/// nobody else; and it runs from most to fewest votes, equal votes by
/// ascending id.
pub proof fn law_tally_is_complete(ballots: Seq<Seq<u8>>, candidates: Seq<u8>)
    ensures
        forall|row: Row| #[trigger]
            ranking(ballots, candidates).contains(row) <==> on_tally(ballots, candidates, row.0)
                && row == row_of(ballots, row.0),
        ranking(ballots, candidates).no_duplicates(),
        sorted_by(ranking(ballots, candidates), |a: Row, b: Row| ranks_before(a, b)),
{
    let leq = |a: Row, b: Row| ranks_before(a, b);
    let rows = rows_by_id(ballots, candidates);
    let ranked = ranking(ballots, candidates);
    lemma_rows_by_id(ballots, candidates);
    lemma_ranks_before_is_total();
    rows.lemma_sort_by_ensures(leq);
    assert forall|row: Row| #[trigger] ranked.contains(row) <==> rows.contains(row) by {
        vstd::seq_lib::to_multiset_contains(ranked, row);
        vstd::seq_lib::to_multiset_contains(rows, row);
    }
    rows.lemma_multiset_has_no_duplicates();
    ranked.lemma_multiset_has_no_duplicates_conv();
}

/// Rows that are in the order of a tally, that show just the candidates on the
/// tally with their votes, and that show none twice, are the tally.
pub proof fn law_tally_is_unique(rows: Seq<Row>, ballots: Seq<Seq<u8>>, candidates: Seq<u8>)
    requires
        sorted_by(rows, |a: Row, b: Row| ranks_before(a, b)),
        rows.no_duplicates(),
        forall|row: Row| #[trigger]
            rows.contains(row) <==> on_tally(ballots, candidates, row.0) && row == row_of(
                ballots,
                row.0,
            ),
    ensures
        rows == ranking(ballots, candidates),
{
    let ranked = ranking(ballots, candidates);
    law_tally_is_complete(ballots, candidates);
    lemma_ranks_before_is_total();
    rows.lemma_multiset_has_no_duplicates();
    ranked.lemma_multiset_has_no_duplicates();
    assert(rows.to_multiset() =~= ranked.to_multiset()) by {
        assert forall|row: Row| rows.to_multiset().count(row) == ranked.to_multiset().count(
            row,
        ) by {
            vstd::seq_lib::to_multiset_contains(rows, row);
            vstd::seq_lib::to_multiset_contains(ranked, row);
            assert(rows.contains(row) <==> ranked.contains(row));
        }
    }
    vstd::seq_lib::lemma_sorted_unique(rows, ranked, |a: Row, b: Row| ranks_before(a, b));
}

/// The votes of a candidate without one of the ballots.
proof fn lemma_votes_without(ballots: Seq<Seq<u8>>, k: int, id: u8)
    requires
        0 <= k < ballots.len(),
    ensures
        votes_for(ballots, id) == votes_for(ballots.remove(k), id) + if counts_for(
            ballots[k],
            id,
        ) {
            1nat
        } else {
            0nat
        },
{
    let pred = |ballot: Seq<u8>| counts_for(ballot, id);
    let head = ballots.take(k);
    let tail = ballots.skip(k + 1);
    let one = seq![ballots[k]];
    assert(ballots =~= head + one + tail);
    assert(ballots.remove(k) =~= head + tail);
    Seq::filter_distributes_over_add(head + one, tail, pred);
    Seq::filter_distributes_over_add(head, one, pred);
    Seq::filter_distributes_over_add(head, tail, pred);
    reveal_with_fuel(Seq::filter, 2);
    assert(one.drop_last() =~= Seq::<Seq<u8>>::empty());
}

proof fn lemma_votes_by_multiset(a: Seq<Seq<u8>>, b: Seq<Seq<u8>>, id: u8)
    requires
        a.to_multiset() == b.to_multiset(),
    ensures
        votes_for(a, id) == votes_for(b, id),
    decreases a.len(),
{
    vstd::seq_lib::to_multiset_len(a);
    vstd::seq_lib::to_multiset_len(b);
    if a.len() == 0 {
        assert(a =~= b);
    } else {
        let n = a.len() - 1;
        let ballot = a[n];
        vstd::seq_lib::to_multiset_contains(a, ballot);
        vstd::seq_lib::to_multiset_contains(b, ballot);
        assert(a.contains(a[n]));
        let k = choose|k: int| 0 <= k < b.len() && b[k] == ballot;
        vstd::seq_lib::to_multiset_remove(a, n);
        vstd::seq_lib::to_multiset_remove(b, k);
        lemma_votes_by_multiset(a.remove(n), b.remove(k), id);
        lemma_votes_without(a, n, id);
        lemma_votes_without(b, k, id);
    }
}

/// The order in which ballots came in does not matter: the same ballots in
/// another order give the same tally and the same winners.
pub proof fn law_ballot_order_is_irrelevant(
    a: Seq<Seq<u8>>,
    b: Seq<Seq<u8>>,
    candidates: Seq<u8>,
    rules: ElectionRules,
)
    requires
        a.to_multiset() == b.to_multiset(),
    ensures
        ranking(a, candidates) == ranking(b, candidates),
        plurality_winners(a, candidates, rules) == plurality_winners(b, candidates, rules),
{
    assert forall|id: u8| votes_for(a, id) == votes_for(b, id) by {
        lemma_votes_by_multiset(a, b, id);
    }
    let in_a = |id: u8| on_tally(a, candidates, id);
    let in_b = |id: u8| on_tally(b, candidates, id);
    assert(in_a =~= in_b);
    let row_a = |id: u8| row_of(a, id);
    let row_b = |id: u8| row_of(b, id);
    assert(row_a =~= row_b);
}

/// The first choices of the ballots that name anybody.
pub open spec fn first_named(ballots: Seq<Seq<u8>>) -> Seq<u8> {
    ballots.filter(|ballot: Seq<u8>| ballot.len() > 0).map_values(|ballot: Seq<u8>| ballot[0])
}

/// The votes of a candidate are the times it is named first.
proof fn lemma_votes_are_first_choices(ballots: Seq<Seq<u8>>, id: u8)
    ensures
        votes_for(ballots, id) == first_named(ballots).to_multiset().count(id),
    decreases ballots.len(),
{
    reveal(Seq::filter);
    let named = first_named(ballots);
    if ballots.len() == 0 {
        assert(named =~= Seq::<u8>::empty());
        vstd::seq_lib::to_multiset_len(named);
        vstd::seq_lib::to_multiset_contains(named, id);
    } else {
        let rest = ballots.drop_last();
        let ballot = ballots.last();
        lemma_votes_are_first_choices(rest, id);
        if ballot.len() > 0 {
            assert(named =~= first_named(rest).push(ballot[0]));
            vstd::seq_lib::to_multiset_build(first_named(rest), ballot[0]);
        } else {
            assert(named =~= first_named(rest));
        }
    }
}

/// A count depends on how often each candidate is named first, on which
/// candidates there are and on the rules, and on nothing else: not on the order
/// of the ballots, on further choices, on empty ballots, nor on the order in
/// which candidates are listed or on how often.
pub proof fn law_recount_agrees(
    a: Seq<Seq<u8>>,
    b: Seq<Seq<u8>>,
    candidates_a: Seq<u8>,
    candidates_b: Seq<u8>,
    rules: ElectionRules,
)
    requires
        first_named(a).to_multiset() == first_named(b).to_multiset(),
        forall|id: u8| candidates_a.contains(id) <==> candidates_b.contains(id),
    ensures
        ranking(a, candidates_a) == ranking(b, candidates_b),
        plurality_winners(a, candidates_a, rules) == plurality_winners(b, candidates_b, rules),
{
    assert forall|id: u8| votes_for(a, id) == votes_for(b, id) by {
        lemma_votes_are_first_choices(a, id);
        lemma_votes_are_first_choices(b, id);
    }
    let in_a = |id: u8| on_tally(a, candidates_a, id);
    let in_b = |id: u8| on_tally(b, candidates_b, id);
    assert(in_a =~= in_b);
    let row_a = |id: u8| row_of(a, id);
    let row_b = |id: u8| row_of(b, id);
    assert(row_a =~= row_b);
    law_tie_seed_of_set(candidates_a, candidates_b);
}

/// With ties left unbroken, a tie for the last seats leaves them unfilled: just
/// those win who have more votes than the tied candidates.
pub proof fn law_unbroken_tie_leaves_seats_unfilled(
    rows: Seq<Row>,
    seats: nat,
    needed: nat,
    candidates: Seq<u8>,
    rules: CountingRules,
)
    requires
        seats >= 1,
        at_least(rows, needed) > seats,
        at_least(rows, rows[seats - 1].1) != seats,
        ties_by(rules, "none"@),
    ensures
        seat_winners(rows, seats, needed, candidates, rules) == Ok::<
            Seq<u8>,
            crate::counting::CountError,
        >(ids_of(rows.take(at_least(rows, rows[seats - 1].1 + 1) as int))),
{
    reveal_strlit("none");
    reveal_strlit("random");
    assert("none"@.len() != "random"@.len());
    let first = ids_of(rows.take(at_least(rows, rows[seats - 1].1 + 1) as int));
    assert(first + Seq::<u8>::empty() =~= first);
}

/// The votes of some rows together.
pub open spec fn total_votes(rows: Seq<Row>) -> nat
    decreases rows.len(),
{
    if rows.len() == 0 {
        0
    } else {
        total_votes(rows.drop_last()) + rows.last().1
    }
}

/// The number of ballots that name anybody.
pub open spec fn cast_ballots(ballots: Seq<Seq<u8>>) -> nat {
    ballots.filter(|ballot: Seq<u8>| ballot.len() > 0).len()
}

/// The votes of all ids below a bound together.
spec fn votes_below(ballots: Seq<Seq<u8>>, n: int) -> nat
    decreases n,
{
    if n <= 0 {
        0
    } else {
        votes_below(ballots, n - 1) + votes_for(ballots, (n - 1) as u8)
    }
}

proof fn lemma_votes_below_without_last(ballots: Seq<Seq<u8>>, n: int)
    requires
        0 <= n <= 256,
        ballots.len() > 0,
    ensures
        votes_below(ballots, n) == votes_below(ballots.drop_last(), n) + if ballots.last().len() > 0
            && ballots.last()[0] < n {
            1nat
        } else {
            0nat
        },
    decreases n,
{
    if n > 0 {
        lemma_votes_below_without_last(ballots, n - 1);
        assert(ballots.remove(ballots.len() - 1) =~= ballots.drop_last());
        lemma_votes_without(ballots, ballots.len() - 1, (n - 1) as u8);
    }
}

proof fn lemma_votes_below_all(ballots: Seq<Seq<u8>>)
    ensures
        votes_below(ballots, 256) == cast_ballots(ballots),
    decreases ballots.len(),
{
    reveal(Seq::filter);
    if ballots.len() == 0 {
        lemma_no_votes_below(ballots, 256);
    } else {
        lemma_votes_below_all(ballots.drop_last());
        lemma_votes_below_without_last(ballots, 256);
    }
}

proof fn lemma_no_votes_below(ballots: Seq<Seq<u8>>, n: int)
    requires
        ballots.len() == 0,
    ensures
        votes_below(ballots, n) == 0,
    decreases n,
{
    reveal(Seq::filter);
    if n > 0 {
        lemma_no_votes_below(ballots, n - 1);
    }
}

proof fn lemma_total_by_id(ballots: Seq<Seq<u8>>, candidates: Seq<u8>, n: int)
    requires
        0 <= n <= 256,
        ballots.len() <= MAX_VOTES,
    ensures
        total_votes(
            all_ids().take(n).filter(|id: u8| on_tally(ballots, candidates, id)).map_values(
                |id: u8| row_of(ballots, id),
            ),
        ) == votes_below(ballots, n),
    decreases n,
{
    let pred = |id: u8| on_tally(ballots, candidates, id);
    let make = |id: u8| row_of(ballots, id);
    if n == 0 {
        reveal(Seq::filter);
        assert(all_ids().take(0).filter(pred).map_values(make).len() == 0);
    } else {
        lemma_total_by_id(ballots, candidates, n - 1);
        lemma_ids_below(pred, n - 1);
        let ids = all_ids().take(n - 1).filter(pred);
        let id = (n - 1) as u8;
        ballots.lemma_filter_len(|ballot: Seq<u8>| counts_for(ballot, id));
        assert(counted(ballots, id) == votes_for(ballots, id));
        if pred(id) {
            assert(ids.push(id).map_values(make).drop_last() =~= ids.map_values(make));
        }
    }
}

proof fn lemma_total_without(rows: Seq<Row>, k: int)
    requires
        0 <= k < rows.len(),
    ensures
        total_votes(rows) == total_votes(rows.remove(k)) + rows[k].1,
    decreases rows.len(),
{
    if k == rows.len() - 1 {
        assert(rows.remove(k) =~= rows.drop_last());
    } else {
        lemma_total_without(rows.drop_last(), k);
        assert(rows.remove(k).drop_last() =~= rows.drop_last().remove(k));
        assert(rows.remove(k).last() == rows.last());
    }
}

proof fn lemma_total_by_multiset(a: Seq<Row>, b: Seq<Row>)
    requires
        a.to_multiset() == b.to_multiset(),
    ensures
        total_votes(a) == total_votes(b),
    decreases a.len(),
{
    vstd::seq_lib::to_multiset_len(a);
    vstd::seq_lib::to_multiset_len(b);
    if a.len() > 0 {
        let n = a.len() - 1;
        let row = a[n];
        vstd::seq_lib::to_multiset_contains(a, row);
        vstd::seq_lib::to_multiset_contains(b, row);
        assert(a.contains(a[n]));
        let k = choose|k: int| 0 <= k < b.len() && b[k] == row;
        vstd::seq_lib::to_multiset_remove(a, n);
        vstd::seq_lib::to_multiset_remove(b, k);
        lemma_total_by_multiset(a.remove(n), b.remove(k));
        lemma_total_without(a, n);
        lemma_total_without(b, k);
    }
}

/// Every ballot that names anybody counts, and counts once: the votes of a
/// tally add up to the number of such ballots, as long as there are not more
/// ballots than can be counted.
pub proof fn law_votes_add_up(ballots: Seq<Seq<u8>>, candidates: Seq<u8>)
    requires
        ballots.len() <= MAX_VOTES,
    ensures
        total_votes(ranking(ballots, candidates)) == cast_ballots(ballots),
{
    lemma_ranks_before_is_total();
    rows_by_id(ballots, candidates).lemma_sort_by_ensures(|a: Row, b: Row| ranks_before(a, b));
    lemma_total_by_multiset(ranking(ballots, candidates), rows_by_id(ballots, candidates));
    assert(all_ids().take(256) =~= all_ids());
    lemma_total_by_id(ballots, candidates, 256);
    lemma_votes_below_all(ballots);
}

/// No two statuses go by the same name on the wire.
pub proof fn law_wire_names_differ(a: CandidateStatus, b: CandidateStatus)
    requires
        a.wire_name() == b.wire_name(),
    ensures
        a == b,
{
    reveal_strlit("active");
    reveal_strlit("elected");
    reveal_strlit("excluded");
    assert("active"@.len() == 6 && "elected"@.len() == 7 && "excluded"@.len() == 8);
}

} // verus!
