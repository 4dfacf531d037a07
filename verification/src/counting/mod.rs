//! Counting ballots.

pub use crate::counting::seed::default_tie_seed;

use crate::counting::plurality::PluralityAlgorithm;
use crate::counting::ranking::MAX_VOTES;
use crate::json::{is_json_number, is_number_text, lemma_whole_number};
use crate::rules::ElectionRules;
use crate::text::{decimal, decimal_text, same_text};
use vstd::prelude::*;

pub mod draw;
pub mod laws;
pub mod plurality;
pub mod ranking;
pub mod seat_laws;
pub mod seed;
pub mod tie;

verus! {

/// A single ballot: candidate ids in order of choice.
pub type Ballot = Vec<u8>;

/// Where a candidate stands.
#[derive(Debug, Clone, Copy, PartialEq, Eq, Structural)]
pub enum CandidateStatus {
    Active,
    Elected,
    Excluded,
}

impl CandidateStatus {
    /// The name of a status on the wire.
    pub open spec fn wire_name(self) -> Seq<char> {
        match self {
            CandidateStatus::Active => "active"@,
            CandidateStatus::Elected => "elected"@,
            CandidateStatus::Excluded => "excluded"@,
        }
    }

    /// Stable wire name, independent of the names in this crate.
    pub fn as_str(self) -> (name: &'static str)
        ensures
            name@ == self.wire_name(),
    {
        match self {
            CandidateStatus::Active => "active",
            CandidateStatus::Elected => "elected",
            CandidateStatus::Excluded => "excluded",
        }
    }
}

/// One candidate's line of a tally.
#[derive(Debug, Clone)]
pub struct CandidateTally {
    pub candidate_id: u8,
    /// The votes as a JSON number with a fraction, such as `3.0`. Some ways of
    /// counting share a vote out among candidates. Where there is no number to
    /// tell, it is `null`.
    pub votes: String,
    pub status: CandidateStatus,
}

/// A number of whole votes, no more than can be counted, as a JSON number with a
/// fraction.
pub open spec fn votes_json(votes: nat) -> Seq<char> {
    decimal(votes) + ".0"@
}

/// Writes a number of whole votes as a JSON number with a fraction.
pub fn votes_text(votes: u64) -> (json: String)
    requires
        votes <= MAX_VOTES,
    ensures
        json@ == votes_json(votes as nat),
        tells_votes(json@),
{
    proof {
        lemma_whole_number(votes as nat);
    }
    decimal_text(votes).concat(".0")
}

/// Whether a text tells votes.
pub open spec fn tells_votes(text: Seq<char>) -> bool {
    is_json_number(text) || text == "null"@
}

/// Whether every line of a tally tells votes.
pub open spec fn tally_tells_votes(tally: Seq<CandidateTally>) -> bool {
    forall|i: int| 0 <= i < tally.len() ==> tells_votes((#[trigger] tally[i]).votes@)
}

/// Whether a tally has a line for a candidate.
pub open spec fn lists(tally: Seq<CandidateTally>, id: u8) -> bool {
    exists|i: int| 0 <= i < tally.len() && (#[trigger] tally[i]).candidate_id == id
}

/// One round of a count that takes several.
#[derive(Debug, Clone)]
pub struct CountRound {
    pub round: u32,
    pub tallies: Vec<CandidateTally>,
    pub action: String,
}

/// What a count found.
#[derive(Debug, Clone)]
pub struct CountResult {
    /// Elected candidate ids, in order of election.
    pub elected: Vec<u8>,
    /// Every candidate's votes.
    pub tally: Vec<CandidateTally>,
    /// One entry per round, for counts that take several.
    pub count_sheet: Option<Vec<CountRound>>,
}

/// Whether every line of each round tells votes.
pub open spec fn rounds_tell_votes(rounds: Seq<CountRound>) -> bool {
    forall|i: int| 0 <= i < rounds.len() ==> tally_tells_votes((#[trigger] rounds[i]).tallies@)
}

impl CountResult {
    /// Whether every line of the tally, and of each round, tells votes.
    pub open spec fn well_formed(self) -> bool {
        &&& tally_tells_votes(self.tally@)
        &&& match self.count_sheet {
            Some(rounds) => rounds_tell_votes(rounds@),
            None => true,
        }
    }

    /// Finds out whether every line of the tally, and of each round, tells
    /// votes.
    pub fn is_well_formed(&self) -> (is: bool)
        ensures
            is == self.well_formed(),
    {
        if !check_tally(&self.tally) {
            return false;
        }
        match &self.count_sheet {
            Some(rounds) => check_rounds(rounds),
            None => true,
        }
    }
}

/// Finds out whether every line of each round tells votes.
fn check_rounds(rounds: &Vec<CountRound>) -> (is: bool)
    ensures
        is == rounds_tell_votes(rounds@),
{
    let mut i: usize = 0;
    while i < rounds.len()
        invariant
            i <= rounds@.len(),
            forall|n: int| 0 <= n < i ==> tally_tells_votes((#[trigger] rounds@[n]).tallies@),
        decreases rounds@.len() - i,
    {
        if !check_tally(&rounds[i].tallies) {
            assert(!tally_tells_votes(rounds@[i as int].tallies@));
            return false;
        }
        i += 1;
    }
    true
}

/// Finds out whether every line of a tally tells votes.
fn check_tally(tally: &Vec<CandidateTally>) -> (is: bool)
    ensures
        is == tally_tells_votes(tally@),
{
    let mut i: usize = 0;
    while i < tally.len()
        invariant
            i <= tally@.len(),
            forall|n: int| 0 <= n < i ==> tells_votes((#[trigger] tally@[n]).votes@),
        decreases tally@.len() - i,
    {
        let votes = tally[i].votes.as_str();
        if !is_number_text(votes) && !same_text(votes, "null") {
            assert(!tells_votes(tally@[i as int].votes@));
            return false;
        }
        i += 1;
    }
    true
}

/// Why a count could not be carried out.
#[derive(Debug)]
pub enum CountError {
    /// A plurality count was asked of ballots that hold more than one choice.
    NotSingleChoice,
    /// A tie at the seat boundary is to be broken by hand.
    ManualTieBreak,
    /// No counting algorithm goes by this id.
    UnknownRules(String),
}

impl CountError {
    /// The text of an error.
    pub open spec fn text(self) -> Seq<char> {
        match self {
            CountError::NotSingleChoice => "Plurality requires single-choice ballots"@,
            CountError::ManualTieBreak => "NotImplemented: manual tie-break"@,
            CountError::UnknownRules(id) => "UNKNOWN_RULES: "@ + id@,
        }
    }

    /// The error in words.
    pub fn message(&self) -> (message: String)
        ensures
            message@ == self.text(),
    {
        match self {
            CountError::NotSingleChoice => "Plurality requires single-choice ballots".to_owned(),
            CountError::ManualTieBreak => "NotImplemented: manual tie-break".to_owned(),
            CountError::UnknownRules(id) => "UNKNOWN_RULES: ".to_owned().concat(id.as_str()),
        }
    }
}

/// A way to count ballots.
pub trait CountingAlgorithm: Send + Sync {
    /// Counts the ballots of an election. `candidates` is the list of
    /// registered candidates, so those without any votes still appear in the
    /// tally and can be elected.
    fn count(
        &self,
        ballots: &[Ballot],
        candidates: &[u8],
        rules: &ElectionRules,
    ) -> (result: Result<CountResult, CountError>)
        ensures
            result matches Ok(r) ==> forall|id: u8| #[trigger]
                candidates@.contains(id) ==> lists(r.tally@, id),
            result matches Ok(r) ==> r.well_formed(),
    ;
}

/// The algorithms that rules can ask for.
pub enum Algorithm {
    Plurality(PluralityAlgorithm),
    /// Single transferable vote. Its transfers are fractions of votes and are
    /// not counted here.
    Stv,
}

/// Finds the algorithm that goes by an id.
pub fn algorithm_for(rules_id: &str) -> (algorithm: Result<Algorithm, CountError>)
    ensures
        algorithm matches Ok(Algorithm::Plurality(_)) <==> rules_id@ == "plurality"@,
        algorithm matches Ok(Algorithm::Stv) <==> rules_id@ == "stv"@,
        algorithm matches Err(error) ==> (error matches CountError::UnknownRules(id) && id@
            == rules_id@),
{
    if same_text(rules_id, "plurality") {
        proof {
            reveal_strlit("plurality");
            reveal_strlit("stv");
            assert("plurality"@.len() != "stv"@.len());
        }
        Ok(Algorithm::Plurality(PluralityAlgorithm))
    } else if same_text(rules_id, "stv") {
        Ok(Algorithm::Stv)
    } else {
        Err(CountError::UnknownRules(rules_id.to_owned()))
    }
}

} // verus!
