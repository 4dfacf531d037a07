//! Checking a ballot against the rules of its election.

use crate::counting::seed::names;
use crate::rules::ElectionRules;
use crate::text::{decimal, decimal_text};
use vstd::prelude::*;

verus! {

/// Why a ballot is refused.
#[derive(Debug, Clone, Copy, PartialEq, Eq, Structural)]
pub enum BallotError {
    /// More choices than any ballot can hold.
    TooManyToCount,
    TooFew { chosen: u8, minimum: u8 },
    TooMany { chosen: u8, maximum: u8 },
    /// A choice that is no candidate of the election.
    NotACandidate { id: u8 },
    /// A candidate chosen more than once.
    Duplicate { id: u8 },
}

impl BallotError {
    /// The protocol code of an error.
    pub open spec fn code(self) -> Seq<char> {
        match self {
            BallotError::NotACandidate { .. } => "INVALID_CANDIDATE"@,
            _ => "BALLOT_INVALID"@,
        }
    }

    /// An error in words.
    pub open spec fn description(self) -> Seq<char> {
        match self {
            BallotError::TooManyToCount => "Too many choices"@,
            BallotError::TooFew { chosen, minimum } => "Too few choices ("@ + decimal(
                chosen as nat,
            ) + ", minimum "@ + decimal(minimum as nat) + ")"@,
            BallotError::TooMany { chosen, maximum } => "Too many choices ("@ + decimal(
                chosen as nat,
            ) + ", maximum "@ + decimal(maximum as nat) + ")"@,
            BallotError::NotACandidate { id } => "Candidate "@ + decimal(id as nat)
                + " is not in this election"@,
            BallotError::Duplicate { id } => "Duplicate candidate "@ + decimal(id as nat)
                + " in ballot"@,
        }
    }

    /// The protocol code and, after a colon, the error in words.
    pub open spec fn text(self) -> Seq<char> {
        self.code() + ": "@ + self.description()
    }

    /// The protocol code and, after a colon, the error in words.
    pub fn message(&self) -> (message: String)
        ensures
            message@ == self.text(),
    {
        match self {
            BallotError::TooManyToCount => "BALLOT_INVALID".to_owned().concat(": ").concat(
                "Too many choices",
            ),
            BallotError::TooFew { chosen, minimum } => {
                let words = "Too few choices (".to_owned().concat(
                    decimal_text(*chosen as u64).as_str(),
                ).concat(", minimum ").concat(decimal_text(*minimum as u64).as_str()).concat(")");
                "BALLOT_INVALID".to_owned().concat(": ").concat(words.as_str())
            },
            BallotError::TooMany { chosen, maximum } => {
                let words = "Too many choices (".to_owned().concat(
                    decimal_text(*chosen as u64).as_str(),
                ).concat(", maximum ").concat(decimal_text(*maximum as u64).as_str()).concat(")");
                "BALLOT_INVALID".to_owned().concat(": ").concat(words.as_str())
            },
            BallotError::NotACandidate { id } => {
                let words = "Candidate ".to_owned().concat(
                    decimal_text(*id as u64).as_str(),
                ).concat(" is not in this election");
                "INVALID_CANDIDATE".to_owned().concat(": ").concat(words.as_str())
            },
            BallotError::Duplicate { id } => {
                let words = "Duplicate candidate ".to_owned().concat(
                    decimal_text(*id as u64).as_str(),
                ).concat(" in ballot");
                "BALLOT_INVALID".to_owned().concat(": ").concat(words.as_str())
            },
        }
    }
}

/// The choices that are no candidates of the election, in their order.
pub open spec fn strangers(choices: Seq<u8>, candidates: Seq<u8>) -> Seq<u8> {
    choices.filter(|id: u8| !candidates.contains(id))
}

/// The positions at which a ballot names a candidate again.
pub open spec fn repeats(choices: Seq<u8>) -> Seq<int> {
    Seq::new(choices.len(), |i: int| i).filter(|i: int| choices.take(i).contains(choices[i]))
}

/// What is wrong with a ballot, if anything: too few or too many choices, else
/// the first choice that is no candidate, else the first that comes again.
pub open spec fn ballot_error(
    choices: Seq<u8>,
    rules: ElectionRules,
    candidates: Seq<u8>,
) -> Option<BallotError> {
    let minimum = rules.ballot.min_choices;
    let maximum = rules.ballot.max_choices;
    if choices.len() > 255 {
        Some(BallotError::TooManyToCount)
    } else if choices.len() < minimum {
        Some(BallotError::TooFew { chosen: choices.len() as u8, minimum })
    } else if maximum > 0 && choices.len() > maximum {
        Some(BallotError::TooMany { chosen: choices.len() as u8, maximum })
    } else if strangers(choices, candidates).len() > 0 {
        Some(BallotError::NotACandidate { id: strangers(choices, candidates)[0] })
    } else if repeats(choices).len() > 0 {
        Some(BallotError::Duplicate { id: choices[repeats(choices)[0]] })
    } else {
        None
    }
}

/// A filter keeps nothing of a sequence in which nothing is to be kept.
proof fn lemma_filter_none<A>(s: Seq<A>, pred: spec_fn(A) -> bool)
    requires
        forall|i: int| 0 <= i < s.len() ==> !pred(#[trigger] s[i]),
    ensures
        s.filter(pred).len() == 0,
    decreases s.len(),
{
    reveal(Seq::filter);
    if s.len() > 0 {
        let rest = s.drop_last();
        assert(forall|i: int| 0 <= i < rest.len() ==> rest[i] == s[i]);
        lemma_filter_none(rest, pred);
        assert(s.last() == s[s.len() - 1]);
    }
}

/// What a filter keeps starts with the first that is to be kept.
proof fn lemma_filter_first<A>(s: Seq<A>, pred: spec_fn(A) -> bool, k: int)
    requires
        0 <= k < s.len(),
        pred(s[k]),
        forall|i: int| 0 <= i < k ==> !pred(#[trigger] s[i]),
    ensures
        s.filter(pred).len() > 0,
        s.filter(pred)[0] == s[k],
{
    let head = s.take(k);
    let one = seq![s[k]];
    let tail = s.skip(k + 1);
    assert(s =~= head + one + tail);
    assert(forall|i: int| 0 <= i < head.len() ==> head[i] == s[i]);
    lemma_filter_none(head, pred);
    Seq::filter_distributes_over_add(head + one, tail, pred);
    Seq::filter_distributes_over_add(head, one, pred);
    reveal_with_fuel(Seq::filter, 2);
    assert(one.drop_last() =~= Seq::<A>::empty());
    assert(one.filter(pred) =~= one);
}

/// Checks a ballot against the rules and the candidates of its election.
pub fn validate_ballot(
    candidate_ids: &[u8],
    rules: &ElectionRules,
    election_candidates: &[u8],
) -> (checked: Result<(), BallotError>)
    ensures
        checked == match ballot_error(candidate_ids@, *rules, election_candidates@) {
            Some(error) => Err::<(), BallotError>(error),
            None => Ok::<(), BallotError>(()),
        },
{
    if candidate_ids.len() > 255 {
        return Err(BallotError::TooManyToCount);
    }
    let chosen: u8 = candidate_ids.len() as u8;
    if chosen < rules.ballot.min_choices {
        return Err(BallotError::TooFew { chosen, minimum: rules.ballot.min_choices });
    }
    if rules.ballot.max_choices > 0 && chosen > rules.ballot.max_choices {
        return Err(BallotError::TooMany { chosen, maximum: rules.ballot.max_choices });
    }
    let ghost stranger = |id: u8| !election_candidates@.contains(id);
    let mut i: usize = 0;
    while i < candidate_ids.len()
        invariant
            i <= candidate_ids@.len() <= 255,
            chosen == candidate_ids@.len(),
            chosen >= rules.ballot.min_choices,
            rules.ballot.max_choices == 0 || chosen <= rules.ballot.max_choices,
            stranger == (|id: u8| !election_candidates@.contains(id)),
            forall|n: int| 0 <= n < i ==> !stranger(#[trigger] candidate_ids@[n]),
        decreases candidate_ids@.len() - i,
    {
        let id: u8 = candidate_ids[i];
        if !names(election_candidates, id) {
            proof {
                lemma_filter_first(candidate_ids@, stranger, i as int);
            }
            return Err(BallotError::NotACandidate { id });
        }
        i += 1;
    }
    proof {
        lemma_filter_none(candidate_ids@, stranger);
    }
    let ghost positions = Seq::new(candidate_ids@.len(), |n: int| n);
    let ghost again = |n: int| candidate_ids@.take(n).contains(candidate_ids@[n]);
    let mut seen: Vec<u8> = Vec::new();
    let mut k: usize = 0;
    assert(candidate_ids@.take(0) =~= seen@);
    while k < candidate_ids.len()
        invariant
            k <= candidate_ids@.len() <= 255,
            chosen == candidate_ids@.len(),
            chosen >= rules.ballot.min_choices,
            rules.ballot.max_choices == 0 || chosen <= rules.ballot.max_choices,
            strangers(candidate_ids@, election_candidates@).len() == 0,
            positions == Seq::new(candidate_ids@.len(), |n: int| n),
            again == (|n: int| candidate_ids@.take(n).contains(candidate_ids@[n])),
            seen@ == candidate_ids@.take(k as int),
            forall|n: int| 0 <= n < k ==> !again(#[trigger] positions[n]),
        decreases candidate_ids@.len() - k,
    {
        let id: u8 = candidate_ids[k];
        assert(positions[k as int] == k);
        if names(seen.as_slice(), id) {
            proof {
                lemma_filter_first(positions, again, k as int);
            }
            return Err(BallotError::Duplicate { id });
        }
        seen.push(id);
        k += 1;
        assert(candidate_ids@.take(k as int) =~= candidate_ids@.take(k - 1).push(id));
    }
    proof {
        lemma_filter_none(positions, again);
    }
    Ok(())
}

/// A ballot is accepted if and only if it has as many choices as the rules
/// allow, each of them a candidate of the election, and none of them twice.
pub proof fn law_accepted_ballots(choices: Seq<u8>, rules: ElectionRules, candidates: Seq<u8>)
    ensures
        ballot_error(choices, rules, candidates) is None <==> {
            &&& rules.ballot.min_choices <= choices.len() <= 255
            &&& rules.ballot.max_choices == 0 || choices.len() <= rules.ballot.max_choices
            &&& forall|i: int|
                0 <= i < choices.len() ==> candidates.contains(#[trigger] choices[i])
            &&& choices.no_duplicates()
        },
{
    let stranger = |id: u8| !candidates.contains(id);
    let again = |i: int| choices.take(i).contains(choices[i]);
    let positions = Seq::new(choices.len(), |i: int| i);
    if forall|i: int| 0 <= i < choices.len() ==> candidates.contains(#[trigger] choices[i]) {
        lemma_filter_none(choices, stranger);
    } else {
        let i = choose|i: int|
            0 <= i < choices.len() && !candidates.contains(#[trigger] choices[i]);
        choices.lemma_filter_contains(stranger, i);
    }
    if choices.no_duplicates() {
        assert forall|n: int| 0 <= n < positions.len() implies !again(#[trigger] positions[n]) by {
            if choices.take(n).contains(choices[n]) {
                let m = choose|m: int| 0 <= m < n && choices.take(n)[m] == choices[n];
                assert(choices[m] == choices[n]);
            }
        }
        lemma_filter_none(positions, again);
    } else {
        let (i, j) = choose|i: int, j: int|
            0 <= i < choices.len() && 0 <= j < choices.len() && i != j && choices[i] == choices[j];
        let (low, high) = if i < j {
            (i, j)
        } else {
            (j, i)
        };
        assert(choices.take(high)[low] == choices[high]);
        assert(positions[high] == high);
        positions.lemma_filter_contains(again, high);
    }
}

/// Where a filter keeps something, there is a first that it keeps.
proof fn lemma_first_kept<A>(s: Seq<A>, pred: spec_fn(A) -> bool) -> (k: int)
    requires
        s.filter(pred).len() > 0,
    ensures
        0 <= k < s.len(),
        pred(s[k]),
        forall|i: int| 0 <= i < k ==> !pred(#[trigger] s[i]),
        s.filter(pred)[0] == s[k],
    decreases s.len(),
{
    reveal(Seq::filter);
    let rest = s.drop_last();
    assert(forall|i: int| 0 <= i < rest.len() ==> rest[i] == s[i]);
    if rest.filter(pred).len() > 0 {
        let k = lemma_first_kept(rest, pred);
        assert(s[k] == rest[k]);
        assert forall|i: int| 0 <= i < k implies !pred(#[trigger] s[i]) by {
            assert(rest[i] == s[i]);
        }
        k
    } else {
        let k = s.len() - 1;
        assert forall|i: int| 0 <= i < k implies !pred(#[trigger] s[i]) by {
            if pred(s[i]) {
                rest.lemma_filter_contains(pred, i);
            }
        }
        k
    }
}

/// Whether a ballot has as many choices as the rules allow.
pub open spec fn has_allowed_length(choices: Seq<u8>, rules: ElectionRules) -> bool {
    &&& rules.ballot.min_choices <= choices.len() <= 255
    &&& rules.ballot.max_choices == 0 || choices.len() <= rules.ballot.max_choices
}

/// A ballot is refused for its length first, and the error tells the length and
/// the limit.
pub proof fn law_length_errors(
    choices: Seq<u8>,
    rules: ElectionRules,
    candidates: Seq<u8>,
    chosen: u8,
    limit: u8,
)
    ensures
        ({
            let error = ballot_error(choices, rules, candidates);
            &&& error == Some(BallotError::TooManyToCount) <==> choices.len() > 255
            &&& error == Some(BallotError::TooFew { chosen, minimum: limit }) <==> choices.len()
                == chosen && rules.ballot.min_choices == limit && chosen < limit
            &&& error == Some(BallotError::TooMany { chosen, maximum: limit }) <==> choices.len()
                == chosen && rules.ballot.max_choices == limit && chosen >= rules.ballot.min_choices
                && limit > 0 && chosen > limit
        }),
{
}

/// A ballot of allowed length is refused for the first choice that is no
/// candidate of the election.
pub proof fn law_stranger_errors(
    choices: Seq<u8>,
    rules: ElectionRules,
    candidates: Seq<u8>,
    id: u8,
)
    ensures
        ballot_error(choices, rules, candidates) == Some(BallotError::NotACandidate { id })
            <==> has_allowed_length(choices, rules) && exists|i: int|
            0 <= i < choices.len() && #[trigger] choices[i] == id && !candidates.contains(id) && (
            forall|j: int| 0 <= j < i ==> candidates.contains(#[trigger] choices[j])),
{
    let stranger = |c: u8| !candidates.contains(c);
    if strangers(choices, candidates).len() > 0 {
        let k = lemma_first_kept(choices, stranger);
        assert forall|j: int| 0 <= j < k implies candidates.contains(#[trigger] choices[j]) by {
            assert(!stranger(choices[j]));
        }
        assert(stranger(choices[k]));
        if exists|i: int|
            0 <= i < choices.len() && #[trigger] choices[i] == id && !candidates.contains(id) && (
            forall|j: int| 0 <= j < i ==> candidates.contains(#[trigger] choices[j])) {
            let i = choose|i: int|
                0 <= i < choices.len() && #[trigger] choices[i] == id && !candidates.contains(id)
                    && (forall|j: int| 0 <= j < i ==> candidates.contains(#[trigger] choices[j]));
            if k < i {
                assert(candidates.contains(choices[k]));
            }
            if i < k {
                assert(candidates.contains(choices[i]));
            }
        }
    } else {
        if exists|i: int|
            0 <= i < choices.len() && #[trigger] choices[i] == id && !candidates.contains(id) && (
            forall|j: int| 0 <= j < i ==> candidates.contains(#[trigger] choices[j])) {
            let i = choose|i: int|
                0 <= i < choices.len() && #[trigger] choices[i] == id && !candidates.contains(id)
                    && (forall|j: int| 0 <= j < i ==> candidates.contains(#[trigger] choices[j]));
            choices.lemma_filter_contains(stranger, i);
        }
    }
}

/// A ballot of allowed length that names candidates only is refused for the
/// first choice that it named before.
pub proof fn law_duplicate_errors(
    choices: Seq<u8>,
    rules: ElectionRules,
    candidates: Seq<u8>,
    id: u8,
)
    ensures
        ballot_error(choices, rules, candidates) == Some(BallotError::Duplicate { id })
            <==> has_allowed_length(choices, rules) && (forall|j: int|
            0 <= j < choices.len() ==> candidates.contains(#[trigger] choices[j])) && exists|i: int|
            0 <= i < choices.len() && #[trigger] choices[i] == id && choices.take(i).contains(id)
                && choices.take(i).no_duplicates(),
{
    let stranger = |c: u8| !candidates.contains(c);
    let again = |i: int| choices.take(i).contains(choices[i]);
    let positions = Seq::new(choices.len(), |i: int| i);
    if forall|j: int| 0 <= j < choices.len() ==> candidates.contains(#[trigger] choices[j]) {
        lemma_filter_none(choices, stranger);
    } else {
        let j = choose|j: int|
            0 <= j < choices.len() && !candidates.contains(#[trigger] choices[j]);
        choices.lemma_filter_contains(stranger, j);
    }
    if repeats(choices).len() > 0 {
        let k = lemma_first_kept(positions, again);
        assert(positions[k] == k);
        assert(choices.take(k).no_duplicates()) by {
            assert forall|a: int, b: int| 0 <= a < b < k implies choices.take(k)[a]
                != choices.take(k)[b] by {
                if choices[a] == choices[b] {
                    assert(choices.take(b)[a] == choices[b]);
                    assert(again(positions[b]));
                }
            }
        }
        if exists|i: int|
            0 <= i < choices.len() && #[trigger] choices[i] == id && choices.take(i).contains(id)
                && choices.take(i).no_duplicates() {
            let i = choose|i: int|
                0 <= i < choices.len() && #[trigger] choices[i] == id && choices.take(i).contains(
                    id,
                ) && choices.take(i).no_duplicates();
            if i < k {
                assert(again(positions[i]));
            }
            if k < i {
                let m = choose|m: int| 0 <= m < k && choices.take(k)[m] == choices[k];
                assert(choices.take(i)[m] == choices.take(i)[k]);
            }
        }
    } else {
        if exists|i: int|
            0 <= i < choices.len() && #[trigger] choices[i] == id && choices.take(i).contains(id)
                && choices.take(i).no_duplicates() {
            let i = choose|i: int|
                0 <= i < choices.len() && #[trigger] choices[i] == id && choices.take(i).contains(
                    id,
                ) && choices.take(i).no_duplicates();
            assert(positions[i] == i);
            positions.lemma_filter_contains(again, i);
        }
    }
}

/// What a voter is told of a ballot that is refused.
pub proof fn law_ballot_errors_in_words(chosen: u8, limit: u8, id: u8)
    ensures
        BallotError::TooManyToCount.text() == "BALLOT_INVALID: Too many choices"@,
        (BallotError::TooFew { chosen, minimum: limit }).text()
            == "BALLOT_INVALID: Too few choices ("@ + decimal(chosen as nat) + ", minimum "@
            + decimal(limit as nat) + ")"@,
        (BallotError::TooMany { chosen, maximum: limit }).text()
            == "BALLOT_INVALID: Too many choices ("@ + decimal(chosen as nat) + ", maximum "@
            + decimal(limit as nat) + ")"@,
        (BallotError::NotACandidate { id }).text() == "INVALID_CANDIDATE: Candidate "@ + decimal(
            id as nat,
        ) + " is not in this election"@,
        (BallotError::Duplicate { id }).text() == "BALLOT_INVALID: Duplicate candidate "@
            + decimal(id as nat) + " in ballot"@,
{
    reveal_strlit("BALLOT_INVALID");
    reveal_strlit("INVALID_CANDIDATE");
    reveal_strlit(": ");
    reveal_strlit("Too many choices");
    reveal_strlit("Too few choices (");
    reveal_strlit("Too many choices (");
    reveal_strlit("Candidate ");
    reveal_strlit("Duplicate candidate ");
    reveal_strlit("BALLOT_INVALID: Too many choices");
    reveal_strlit("BALLOT_INVALID: Too few choices (");
    reveal_strlit("BALLOT_INVALID: Too many choices (");
    reveal_strlit("INVALID_CANDIDATE: Candidate ");
    reveal_strlit("BALLOT_INVALID: Duplicate candidate ");
    let invalid = "BALLOT_INVALID"@ + ": "@;
    assert("BALLOT_INVALID: Too many choices"@ =~= invalid + "Too many choices"@);
    assert("BALLOT_INVALID: Too few choices ("@ =~= invalid + "Too few choices ("@);
    assert("BALLOT_INVALID: Too many choices ("@ =~= invalid + "Too many choices ("@);
    assert("BALLOT_INVALID: Duplicate candidate "@ =~= invalid + "Duplicate candidate "@);
    assert("INVALID_CANDIDATE: Candidate "@ =~= "INVALID_CANDIDATE"@ + ": "@ + "Candidate "@);
    let a = decimal(chosen as nat);
    let b = decimal(limit as nat);
    let c = decimal(id as nat);
    assert(invalid + ("Too few choices ("@ + a + ", minimum "@ + b + ")"@) =~= invalid
        + "Too few choices ("@ + a + ", minimum "@ + b + ")"@);
    assert(invalid + ("Too many choices ("@ + a + ", maximum "@ + b + ")"@) =~= invalid
        + "Too many choices ("@ + a + ", maximum "@ + b + ")"@);
    assert("INVALID_CANDIDATE"@ + ": "@ + ("Candidate "@ + c + " is not in this election"@)
        =~= "INVALID_CANDIDATE"@ + ": "@ + "Candidate "@ + c + " is not in this election"@);
    assert(invalid + ("Duplicate candidate "@ + c + " in ballot"@) =~= invalid
        + "Duplicate candidate "@ + c + " in ballot"@);
}

} // verus!
