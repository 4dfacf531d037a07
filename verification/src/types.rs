//! Records of an election.

use vstd::prelude::*;

verus! {

#[derive(Debug, Clone)]
pub struct Election {
    pub id: String,
    pub name: String,
    /// Start of voting, in seconds since the epoch.
    pub start_time: i64,
    /// End of voting, in seconds since the epoch.
    pub end_time: i64,
    /// `"open"`, `"in_progress"`, `"finished"` or `"cancelled"`.
    pub status: String,
    pub rules_id: String,
    /// The key that voting tokens are signed with, for verification.
    pub rsa_pub_key: String,
    pub created_at: i64,
    pub results_published: i64,
}

#[derive(Debug, Clone)]
pub struct Candidate {
    pub id: u8,
    pub election_id: String,
    pub name: String,
}

/// A recorded vote. It holds nothing that could tell who cast it.
#[derive(Debug, Clone)]
pub struct Vote {
    /// Given by the store; zero before.
    pub id: i64,
    pub election_id: String,
    /// The choices, as a JSON array.
    pub candidate_ids: String,
    /// When the vote came in, to the hour.
    pub recorded_at: i64,
}

} // verus!
