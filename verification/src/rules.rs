//! The rules an election is run by, as far as counting and ballot checks read
//! them.

use vstd::prelude::*;

verus! {

/// How a voter fills in a ballot.
#[derive(Debug, Clone, Copy, PartialEq, Eq, Structural)]
pub enum BallotMethod {
    /// One candidate.
    Single,
    /// Candidates in order of preference.
    Ranked,
    /// Any candidates, without order.
    Approval,
}

/// What a ballot may hold.
#[derive(Debug, Clone)]
pub struct BallotRules {
    pub method: BallotMethod,
    /// Fewest choices on a ballot.
    pub min_choices: u8,
    /// Most choices on a ballot; `0` sets no limit.
    pub max_choices: u8,
}

/// What is being filled.
#[derive(Debug, Clone)]
pub struct SeatRules {
    pub seats: u32,
}

/// How ballots are counted.
#[derive(Debug, Clone)]
pub struct CountingRules {
    /// A candidate with fewer votes than this wins no seat.
    pub min_winner_votes: Option<u32>,
    /// `"random"`, `"none"` or `"manual"`; anything else is by lowest id.
    pub tie_breaking: Option<String>,
    /// Seed of a `"random"` draw; derived from the candidates when absent.
    pub tie_breaking_seed: Option<u64>,
}

#[derive(Debug, Clone)]
pub struct ElectionRules {
    pub ballot: BallotRules,
    pub election: SeatRules,
    pub counting: CountingRules,
}

} // verus!
