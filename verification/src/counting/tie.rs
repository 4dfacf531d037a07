//! Ties for the last seats.

use crate::counting::draw::{draw_positions, draws, law_draw_is_fair, lemma_picked_len, pick_winners, picked};
use crate::counting::seed::{default_tie_seed, tie_seed};
use crate::counting::CountError;
use crate::rules::CountingRules;
use crate::text::same_text;
use vstd::prelude::*;
use vstd::slice::{slice_subrange, slice_to_vec};

verus! {

/// Whether the rules name this way to break ties.
pub open spec fn ties_by(rules: CountingRules, name: Seq<char>) -> bool {
    rules.tie_breaking matches Some(rule) && rule@ == name
}

/// The seed of a draw: the one that the rules name, else the one that the
/// candidates give.
pub open spec fn draw_seed(rules: CountingRules, candidates: Seq<u8>) -> u64 {
    match rules.tie_breaking_seed {
        Some(seed) => seed,
        None => tie_seed(candidates) as u64,
    }
}

/// Who wins when `k` seats are left for the tied candidates of `group`.
pub open spec fn tie_winners(
    group: Seq<u8>,
    k: nat,
    candidates: Seq<u8>,
    rules: CountingRules,
) -> Result<Seq<u8>, CountError> {
    if ties_by(rules, "random"@) {
        Ok(
            picked(
                group,
                draw_positions(draw_seed(rules, candidates), group.len() as int, k),
            ),
        )
    } else if ties_by(rules, "none"@) {
        Ok(Seq::empty())
    } else if ties_by(rules, "manual"@) {
        Err(CountError::ManualTieBreak)
    } else {
        Ok(group.take(k as int))
    }
}

/// Whether the rules name this way to break ties.
fn rule_is(rules: &CountingRules, name: &str) -> (is: bool)
    ensures
        is == ties_by(*rules, name@),
{
    match &rules.tie_breaking {
        Some(rule) => same_text(rule.as_str(), name),
        None => false,
    }
}

/// Picks `k` winners from a group of candidates tied at the seat boundary,
/// listed by ascending id.
///
/// * `"random"`: a draw from the seed of the rules, or from the default seed
///   of the candidates.
/// * `"none"`: nobody; the contested seats stay unfilled.
/// * `"manual"`: not carried out here.
/// * anything else: the lowest ids.
pub fn break_boundary_tie(
    group: &[u8],
    k: usize,
    candidates: &[u8],
    rules: &CountingRules,
) -> (winners: Result<Vec<u8>, CountError>)
    requires
        !ties_by(*rules, "none"@) && !ties_by(*rules, "manual"@) ==> k <= group@.len(),
    ensures
        match tie_winners(group@, k as nat, candidates@, *rules) {
            Ok(ids) => winners matches Ok(w) && w@ == ids,
            Err(error) => winners == Err::<Vec<u8>, CountError>(error),
        },
        winners is Ok <==> !ties_by(*rules, "manual"@),
        winners matches Ok(w) ==> w@.len() == if ties_by(*rules, "none"@) {
            0
        } else {
            k as nat
        },
        group@.no_duplicates() ==> (winners matches Ok(w) ==> w@.no_duplicates() && (forall|
            id: u8,
        | #[trigger] w@.contains(id) ==> group@.contains(id))),
{
    proof {
        reveal_strlit("random");
        reveal_strlit("none");
        reveal_strlit("manual");
        assert("random"@[0] != "manual"@[0]);
        assert("none"@.len() == 4 && "random"@.len() == 6 && "manual"@.len() == 6);
    }
    if rule_is(rules, "random") {
        let seed: u64 = match rules.tie_breaking_seed {
            Some(seed) => seed,
            None => default_tie_seed(candidates),
        };
        let positions = draws(seed, group.len(), k);
        proof {
            let drawn = positions@.map_values(|p: usize| p as int);
            assert(forall|i: int| 0 <= i < k ==> #[trigger] drawn[i] == positions@[i]);
            lemma_picked_len(group@, drawn);
            if group@.no_duplicates() {
                law_draw_is_fair(group@, drawn);
            }
        }
        Ok(pick_winners(group, positions.as_slice()))
    } else if rule_is(rules, "none") {
        Ok(Vec::new())
    } else if rule_is(rules, "manual") {
        Err(CountError::ManualTieBreak)
    } else {
        let winners: Vec<u8> = slice_to_vec(slice_subrange(group, 0, k));
        assert(winners@ =~= group@.take(k as int));
        proof {
            assert forall|id: u8| #[trigger] winners@.contains(id) implies group@.contains(id) by {
                let n = choose|n: int| 0 <= n < winners@.len() && winners@[n] == id;
                assert(group@[n] == id);
            }
        }
        Ok(winners)
    }
}

} // verus!
