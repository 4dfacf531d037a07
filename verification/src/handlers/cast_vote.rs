//! Casting a vote.
//!
//! A request is carried out in steps. Each step asks for something that only
//! the outside can give (a record, a signature check, the rules, the storing of
//! a vote), and the answer decides what comes next:
//!
//! 1. the election must exist and be open for votes,
//! 2. the token must carry a valid blind signature of the nonce hash,
//! 3. the ballot must fit the rules and the candidates of the election,
//! 4. the nonce is used up and the vote is stored, both or neither.

pub use crate::handlers::ballot::validate_ballot;

use crate::handlers::ballot::{ballot_error, BallotError};
use crate::handlers::token::{
    base64_decode, base64_decoded, hex_decode, hex_decoded, hex_encode, hex_encoded, split_token,
    TokenParts, RANDOMIZER_LEN,
};
use crate::json::{json_numbers, numbers_text};
use crate::nostr::messages::OutboundMessage;
use crate::rules::ElectionRules;
use crate::text::{parted, same_text, split_once};
use crate::time::{hour_of, truncate_to_hour};
use crate::types::{Election, Vote};
use vstd::prelude::*;

verus! {

/// Why a vote is not recorded.
#[derive(Debug)]
pub enum CastVoteError {
    ElectionNotFound,
    /// The election is not in its voting phase.
    NotAccepting,
    /// The voting period is over, whatever the recorded phase says.
    PeriodEnded,
    TokenNotBase64,
    TokenTooShort,
    NonceNotHex,
    SignatureInvalid,
    UnknownRules(String),
    Ballot(BallotError),
    NonceAlreadyUsed,
    /// A failure that is not the voter's, with its own words.
    Internal(String),
}

/// A protocol code and, after a colon, words.
pub open spec fn refusal(code: Seq<char>, words: Seq<char>) -> Seq<char> {
    code + ": "@ + words
}

/// The text for rules that are not known.
pub open spec fn unknown_rules(rules_id: Seq<char>) -> Seq<char> {
    refusal("UNKNOWN_RULES"@, "Unknown election rules '"@ + rules_id + "'"@)
}

impl CastVoteError {
    /// The text of an error.
    pub open spec fn text(self) -> Seq<char> {
        match self {
            CastVoteError::ElectionNotFound => refusal(
                "ELECTION_NOT_FOUND"@,
                "Election does not exist"@,
            ),
            CastVoteError::NotAccepting => refusal(
                "ELECTION_CLOSED"@,
                "Election is not accepting votes"@,
            ),
            CastVoteError::PeriodEnded => refusal(
                "ELECTION_CLOSED"@,
                "Election voting period has ended"@,
            ),
            CastVoteError::TokenNotBase64 => refusal(
                "INVALID_TOKEN"@,
                "Malformed token (not valid base64)"@,
            ),
            CastVoteError::TokenTooShort => refusal("INVALID_TOKEN"@, "Token too short"@),
            CastVoteError::NonceNotHex => refusal(
                "INVALID_TOKEN"@,
                "Malformed nonce hash (not valid hex)"@,
            ),
            CastVoteError::SignatureInvalid => refusal(
                "INVALID_TOKEN"@,
                "Signature verification failed"@,
            ),
            CastVoteError::UnknownRules(rules_id) => unknown_rules(rules_id@),
            CastVoteError::Ballot(error) => error.text(),
            CastVoteError::NonceAlreadyUsed => refusal(
                "NONCE_ALREADY_USED"@,
                "This voting token has already been used"@,
            ),
            CastVoteError::Internal(words) => words@,
        }
    }

    /// The text of an error: a protocol code and, after a colon, words; for an
    /// internal failure, its own words.
    pub fn message(&self) -> (message: String)
        ensures
            message@ == self.text(),
    {
        match self {
            CastVoteError::ElectionNotFound => coded("ELECTION_NOT_FOUND", "Election does not exist"),
            CastVoteError::NotAccepting => coded(
                "ELECTION_CLOSED",
                "Election is not accepting votes",
            ),
            CastVoteError::PeriodEnded => coded(
                "ELECTION_CLOSED",
                "Election voting period has ended",
            ),
            CastVoteError::TokenNotBase64 => coded(
                "INVALID_TOKEN",
                "Malformed token (not valid base64)",
            ),
            CastVoteError::TokenTooShort => coded("INVALID_TOKEN", "Token too short"),
            CastVoteError::NonceNotHex => coded(
                "INVALID_TOKEN",
                "Malformed nonce hash (not valid hex)",
            ),
            CastVoteError::SignatureInvalid => coded(
                "INVALID_TOKEN",
                "Signature verification failed",
            ),
            CastVoteError::UnknownRules(rules_id) => coded(
                "UNKNOWN_RULES",
                "Unknown election rules '".to_owned().concat(rules_id.as_str()).concat("'").as_str(),
            ),
            CastVoteError::Ballot(error) => error.message(),
            CastVoteError::NonceAlreadyUsed => coded(
                "NONCE_ALREADY_USED",
                "This voting token has already been used",
            ),
            CastVoteError::Internal(words) => words.clone(),
        }
    }
}

/// Writes a protocol code and, after a colon, words.
fn coded(code: &str, words: &str) -> (text: String)
    ensures
        text@ == refusal(code@, words@),
{
    code.to_owned().concat(": ").concat(words)
}

/// Whether a text is a code that voters know.
pub open spec fn is_protocol_code(code: Seq<char>) -> bool {
    ||| code == "ELECTION_NOT_FOUND"@
    ||| code == "ELECTION_CLOSED"@
    ||| code == "NONCE_ALREADY_USED"@
    ||| code == "INVALID_TOKEN"@
    ||| code == "INVALID_CANDIDATE"@
    ||| code == "BALLOT_INVALID"@
    ||| code == "UNKNOWN_RULES"@
}

/// Finds the code that voters know.
pub fn error_code(code: &str) -> (known: Option<&'static str>)
    ensures
        match known {
            Some(k) => is_protocol_code(code@) && k@ == code@,
            None => !is_protocol_code(code@),
        },
{
    if same_text(code, "ELECTION_NOT_FOUND") {
        Some("ELECTION_NOT_FOUND")
    } else if same_text(code, "ELECTION_CLOSED") {
        Some("ELECTION_CLOSED")
    } else if same_text(code, "NONCE_ALREADY_USED") {
        Some("NONCE_ALREADY_USED")
    } else if same_text(code, "INVALID_TOKEN") {
        Some("INVALID_TOKEN")
    } else if same_text(code, "INVALID_CANDIDATE") {
        Some("INVALID_CANDIDATE")
    } else if same_text(code, "BALLOT_INVALID") {
        Some("BALLOT_INVALID")
    } else if same_text(code, "UNKNOWN_RULES") {
        Some("UNKNOWN_RULES")
    } else {
        None
    }
}

/// Whether a reply is the one for an error text: the code and the words, where
/// the text is a code that voters know and words, and else nothing that would
/// tell of the inside.
pub open spec fn answers_error(reply: OutboundMessage, text: Seq<char>) -> bool {
    match parted(text, ": "@) {
        Some((code, words)) => if is_protocol_code(code) {
            reply.is_error(code, words)
        } else {
            reply.is_error("INTERNAL_ERROR"@, "An unexpected error occurred"@)
        },
        None => reply.is_error("INTERNAL_ERROR"@, "An unexpected error occurred"@),
    }
}

/// The reply to a request, by how it ended. Only words that come with a code
/// that voters know are handed on.
pub fn handle(outcome: &Result<(), CastVoteError>) -> (reply: OutboundMessage)
    ensures
        match outcome {
            Ok(_) => reply.is_ok("vote-recorded"@),
            Err(error) => answers_error(reply, error.text()),
        },
{
    match outcome {
        Ok(_) => OutboundMessage::ok("vote-recorded"),
        Err(error) => {
            let text = error.message();
            match split_once(text.as_str(), ": ") {
                Some((code, words)) => match error_code(code.as_str()) {
                    Some(known) => OutboundMessage::error(known, words.as_str()),
                    None => OutboundMessage::error(
                        "INTERNAL_ERROR",
                        "An unexpected error occurred",
                    ),
                },
                None => OutboundMessage::error("INTERNAL_ERROR", "An unexpected error occurred"),
            }
        },
    }
}

/// A request to cast a vote, sent under a key that tells nothing of the voter.
#[derive(Debug)]
pub struct CastVoteRequest {
    pub election_id: String,
    pub candidate_ids: Vec<u8>,
    /// The hash of the voter's nonce, in hexadecimal.
    pub h_n: String,
    /// The signature and the message randomizer, in base64.
    pub token: String,
}

/// How far a request has come.
#[derive(Debug)]
pub enum Stage {
    /// The election is being looked up.
    Opening,
    /// The signature is being verified.
    Verifying { rules_id: String, nonce: String },
    /// The rules are being loaded.
    LoadingRules { rules_id: String, nonce: String },
    /// The candidates are being looked up.
    LoadingCandidates { rules: ElectionRules, nonce: String },
    /// The vote is being stored.
    Recording,
    /// Nothing is left to do.
    Closed,
}

/// An answer from the outside.
#[derive(Debug)]
pub enum Answer {
    /// The election, if there is one, and the time now in seconds.
    Election { election: Option<Election>, now: i64 },
    /// Whether the signature is valid.
    Signature { valid: bool },
    /// The rules, if they could be loaded.
    Rules { rules: Option<ElectionRules> },
    /// The ids of the candidates, and the time now in seconds.
    Candidates { ids: Vec<u8>, now: i64 },
    /// Whether the nonce was fresh; if so, the vote is stored.
    Recorded { was_new: bool },
    /// Something went wrong, in these words.
    Failure { words: String },
}

/// What a request asks of the outside next.
#[derive(Debug)]
pub enum Ask {
    /// Look up an election.
    LoadElection { election_id: String },
    /// Verify the blind signature of `message`.
    VerifySignature {
        rsa_pub_key: String,
        signature: Vec<u8>,
        msg_randomizer: Vec<u8>,
        message: Vec<u8>,
    },
    LoadRules { rules_id: String },
    /// Look up the candidates of an election.
    LoadCandidates { election_id: String },
    /// In one transaction, use up the nonce in the election of the vote and, if
    /// it was fresh there, store the vote.
    RecordVote { nonce: String, vote: Vote },
    /// Nothing more: this is how the request ended.
    Finish { outcome: Result<(), CastVoteError> },
}

/// A stage, by what it knows.
pub enum StageView {
    Opening,
    Verifying { rules_id: Seq<char>, nonce: Seq<char> },
    LoadingRules { rules_id: Seq<char>, nonce: Seq<char> },
    LoadingCandidates { rules: ElectionRules, nonce: Seq<char> },
    Recording,
    Closed,
}

/// A vote, by what it says.
pub struct VoteView {
    pub id: int,
    pub election_id: Seq<char>,
    pub candidate_ids: Seq<char>,
    pub recorded_at: int,
}

/// What is asked, by what it says. A refusal is known by its text.
pub enum AskView {
    LoadElection { election_id: Seq<char> },
    VerifySignature {
        rsa_pub_key: Seq<char>,
        signature: Seq<u8>,
        msg_randomizer: Seq<u8>,
        message: Seq<u8>,
    },
    LoadRules { rules_id: Seq<char> },
    LoadCandidates { election_id: Seq<char> },
    RecordVote { nonce: Seq<char>, vote: VoteView },
    Accepted,
    Refused { text: Seq<char> },
}

impl View for Stage {
    type V = StageView;

    open spec fn view(&self) -> StageView {
        match self {
            Stage::Opening => StageView::Opening,
            Stage::Verifying { rules_id, nonce } => StageView::Verifying {
                rules_id: rules_id@,
                nonce: nonce@,
            },
            Stage::LoadingRules { rules_id, nonce } => StageView::LoadingRules {
                rules_id: rules_id@,
                nonce: nonce@,
            },
            Stage::LoadingCandidates { rules, nonce } => StageView::LoadingCandidates {
                rules: *rules,
                nonce: nonce@,
            },
            Stage::Recording => StageView::Recording,
            Stage::Closed => StageView::Closed,
        }
    }
}

impl View for Vote {
    type V = VoteView;

    open spec fn view(&self) -> VoteView {
        VoteView {
            id: self.id as int,
            election_id: self.election_id@,
            candidate_ids: self.candidate_ids@,
            recorded_at: self.recorded_at as int,
        }
    }
}

impl View for Ask {
    type V = AskView;

    open spec fn view(&self) -> AskView {
        match self {
            Ask::LoadElection { election_id } => AskView::LoadElection {
                election_id: election_id@,
            },
            Ask::VerifySignature { rsa_pub_key, signature, msg_randomizer, message } =>
                AskView::VerifySignature {
                rsa_pub_key: rsa_pub_key@,
                signature: signature@,
                msg_randomizer: msg_randomizer@,
                message: message@,
            },
            Ask::LoadRules { rules_id } => AskView::LoadRules { rules_id: rules_id@ },
            Ask::LoadCandidates { election_id } => AskView::LoadCandidates {
                election_id: election_id@,
            },
            Ask::RecordVote { nonce, vote } => AskView::RecordVote { nonce: nonce@, vote: vote@ },
            Ask::Finish { outcome } => match outcome {
                Ok(_) => AskView::Accepted,
                Err(error) => AskView::Refused { text: error.text() },
            },
        }
    }
}

/// What keeps an election from taking votes, if anything. The phase is changed
/// a while after the end, so the end is held to by the clock.
pub open spec fn closed_because(election: Election, now: int) -> Option<CastVoteError> {
    if election.status@ != "in_progress"@ {
        Some(CastVoteError::NotAccepting)
    } else if now >= election.end_time {
        Some(CastVoteError::PeriodEnded)
    } else {
        None
    }
}

/// What is to be verified of a token.
pub struct Claim {
    pub parts: TokenParts,
    /// The bytes of the nonce hash, which the signature is to sign.
    pub message: Vec<u8>,
    /// The nonce hash in its one canonical form.
    pub nonce: String,
}

/// A claim, by what it says.
pub struct ClaimView {
    pub signature: Seq<u8>,
    pub msg_randomizer: Seq<u8>,
    pub message: Seq<u8>,
    pub nonce: Seq<char>,
}

impl View for Claim {
    type V = ClaimView;

    open spec fn view(&self) -> ClaimView {
        ClaimView {
            signature: self.parts.signature@,
            msg_randomizer: self.parts.msg_randomizer@,
            message: self.message@,
            nonce: self.nonce@,
        }
    }
}

/// What a decoded token and a nonce hash claim, or why they are malformed.
pub open spec fn claimed(token: Option<Seq<u8>>, h_n: Seq<char>) -> Result<
    ClaimView,
    CastVoteError,
> {
    match token {
        None => Err(CastVoteError::TokenNotBase64),
        Some(bytes) => if bytes.len() <= RANDOMIZER_LEN {
            Err(CastVoteError::TokenTooShort)
        } else {
            match hex_decoded(h_n) {
                None => Err(CastVoteError::NonceNotHex),
                Some(message) => Ok(
                    ClaimView {
                        signature: bytes.take(bytes.len() - RANDOMIZER_LEN),
                        msg_randomizer: bytes.skip(bytes.len() - RANDOMIZER_LEN),
                        message,
                        nonce: hex_encoded(message),
                    },
                ),
            }
        },
    }
}

/// The bytes of an optional list.
pub open spec fn bytes_in(bytes: Option<Vec<u8>>) -> Option<Seq<u8>> {
    match bytes {
        Some(b) => Some(b@),
        None => None,
    }
}

/// Reads what a decoded token and a nonce hash claim.
pub fn read_claim(token: Option<Vec<u8>>, h_n: &str) -> (claim: Result<Claim, CastVoteError>)
    ensures
        match claimed(bytes_in(token), h_n@) {
            Ok(view) => claim matches Ok(c) && c@ == view,
            Err(error) => claim == Err::<Claim, CastVoteError>(error),
        },
{
    match token {
        None => Err(CastVoteError::TokenNotBase64),
        Some(bytes) => match split_token(bytes.as_slice()) {
            None => Err(CastVoteError::TokenTooShort),
            Some(parts) => match hex_decode(h_n) {
                None => Err(CastVoteError::NonceNotHex),
                Some(message) => {
                    let nonce = hex_encode(message.as_slice());
                    Ok(Claim { parts, message, nonce })
                },
            },
        },
    }
}

/// The end of a request that is refused.
pub open spec fn refused(text: Seq<char>) -> (StageView, AskView) {
    (StageView::Closed, AskView::Refused { text })
}

/// The words for an answer to a question that was not asked.
pub open spec fn out_of_turn() -> Seq<char> {
    "answer out of turn"@
}

/// How a request begins: the election that it names is to be looked up.
pub open spec fn begun(request: CastVoteRequest) -> (StageView, AskView) {
    (StageView::Opening, AskView::LoadElection { election_id: request.election_id@ })
}

/// What a request comes to by an answer: the next stage, and what is asked
/// next.
pub open spec fn advanced(
    request: CastVoteRequest,
    stage: StageView,
    answer: Answer,
) -> (StageView, AskView) {
    match (stage, answer) {
        (_, Answer::Failure { words }) => refused(words@),
        (StageView::Opening, Answer::Election { election, now }) => match election {
            None => refused(CastVoteError::ElectionNotFound.text()),
            Some(e) => match closed_because(e, now as int) {
                Some(error) => refused(error.text()),
                None => match claimed(base64_decoded(request.token@), request.h_n@) {
                    Err(error) => refused(error.text()),
                    Ok(claim) => (
                        StageView::Verifying { rules_id: e.rules_id@, nonce: claim.nonce },
                        AskView::VerifySignature {
                            rsa_pub_key: e.rsa_pub_key@,
                            signature: claim.signature,
                            msg_randomizer: claim.msg_randomizer,
                            message: claim.message,
                        },
                    ),
                },
            },
        },
        (StageView::Verifying { rules_id, nonce }, Answer::Signature { valid }) => if valid {
            (StageView::LoadingRules { rules_id, nonce }, AskView::LoadRules { rules_id })
        } else {
            refused(CastVoteError::SignatureInvalid.text())
        },
        (StageView::LoadingRules { rules_id, nonce }, Answer::Rules { rules }) => match rules {
            Some(r) => (
                StageView::LoadingCandidates { rules: r, nonce },
                AskView::LoadCandidates { election_id: request.election_id@ },
            ),
            None => refused(unknown_rules(rules_id)),
        },
        (StageView::LoadingCandidates { rules, nonce }, Answer::Candidates { ids, now }) =>
            match ballot_error(request.candidate_ids@, rules, ids@) {
            Some(error) => refused(error.text()),
            None => (
                StageView::Recording,
                AskView::RecordVote {
                    nonce,
                    vote: VoteView {
                        id: 0,
                        election_id: request.election_id@,
                        candidate_ids: json_numbers(request.candidate_ids@),
                        recorded_at: hour_of(now as int),
                    },
                },
            ),
        },
        (StageView::Recording, Answer::Recorded { was_new }) => if was_new {
            (StageView::Closed, AskView::Accepted)
        } else {
            refused(CastVoteError::NonceAlreadyUsed.text())
        },
        _ => refused(out_of_turn()),
    }
}

/// A request that is being carried out.
#[derive(Debug)]
pub struct CastVote {
    pub request: CastVoteRequest,
    pub stage: Stage,
}

/// Whether the times in an answer can be made coarse.
pub open spec fn in_range(answer: Answer) -> bool {
    answer matches Answer::Candidates { now, .. } ==> hour_of(now as int) >= i64::MIN
}

impl CastVote {
    /// Takes up a request, and asks for the election that it names.
    pub fn start(request: CastVoteRequest) -> (step: (CastVote, Ask))
        ensures
            step.0.request == request,
            (step.0.stage@, step.1@) == begun(request),
    {
        let election_id = request.election_id.clone();
        (CastVote { request, stage: Stage::Opening }, Ask::LoadElection { election_id })
    }

    /// Ends a request with an error.
    fn refuse(request: CastVoteRequest, error: CastVoteError) -> (step: (CastVote, Ask))
        ensures
            step.0.request == request,
            (step.0.stage@, step.1@) == refused(error.text()),
    {
        (CastVote { request, stage: Stage::Closed }, Ask::Finish { outcome: Err(error) })
    }

    /// Takes the answer to the last question and asks the next. An answer to a
    /// question that was not asked ends the request.
    pub fn step(self, answer: Answer) -> (step: (CastVote, Ask))
        requires
            in_range(answer),
        ensures
            step.0.request == self.request,
            (step.0.stage@, step.1@) == advanced(self.request, self.stage@, answer),
    {
        let CastVote { request, stage } = self;
        match (stage, answer) {
            (_, Answer::Failure { words }) => Self::refuse(request, CastVoteError::Internal(words)),
            (Stage::Opening, Answer::Election { election, now }) => Self::open(
                request,
                election,
                now,
            ),
            (Stage::Verifying { rules_id, nonce }, Answer::Signature { valid }) => {
                if valid {
                    let asked = rules_id.clone();
                    (
                        CastVote { request, stage: Stage::LoadingRules { rules_id, nonce } },
                        Ask::LoadRules { rules_id: asked },
                    )
                } else {
                    Self::refuse(request, CastVoteError::SignatureInvalid)
                }
            },
            (Stage::LoadingRules { rules_id, nonce }, Answer::Rules { rules }) => match rules {
                Some(rules) => {
                    let election_id = request.election_id.clone();
                    (
                        CastVote { request, stage: Stage::LoadingCandidates { rules, nonce } },
                        Ask::LoadCandidates { election_id },
                    )
                },
                None => Self::refuse(request, CastVoteError::UnknownRules(rules_id)),
            },
            (Stage::LoadingCandidates { rules, nonce }, Answer::Candidates { ids, now }) => {
                match validate_ballot(request.candidate_ids.as_slice(), &rules, ids.as_slice()) {
                    Err(error) => Self::refuse(request, CastVoteError::Ballot(error)),
                    Ok(()) => {
                        let vote = Vote {
                            id: 0,
                            election_id: request.election_id.clone(),
                            candidate_ids: numbers_text(request.candidate_ids.as_slice()),
                            recorded_at: truncate_to_hour(now),
                        };
                        (
                            CastVote { request, stage: Stage::Recording },
                            Ask::RecordVote { nonce, vote },
                        )
                    },
                }
            },
            (Stage::Recording, Answer::Recorded { was_new }) => {
                if was_new {
                    (
                        CastVote { request, stage: Stage::Closed },
                        Ask::Finish { outcome: Ok(()) },
                    )
                } else {
                    Self::refuse(request, CastVoteError::NonceAlreadyUsed)
                }
            },
            _ => Self::refuse(request, CastVoteError::Internal("answer out of turn".to_owned())),
        }
    }

    /// Takes the election that was looked up: it must take votes now, and the
    /// token and the nonce hash must be well formed.
    fn open(request: CastVoteRequest, election: Option<Election>, now: i64) -> (step: (
        CastVote,
        Ask,
    ))
        ensures
            step.0.request == request,
            (step.0.stage@, step.1@) == advanced(
                request,
                StageView::Opening,
                Answer::Election { election, now },
            ),
    {
        match election {
            None => Self::refuse(request, CastVoteError::ElectionNotFound),
            Some(election) => {
                if !same_text(election.status.as_str(), "in_progress") {
                    return Self::refuse(request, CastVoteError::NotAccepting);
                }
                if now >= election.end_time {
                    return Self::refuse(request, CastVoteError::PeriodEnded);
                }
                let token = base64_decode(request.token.as_str());
                match read_claim(token, request.h_n.as_str()) {
                    Err(error) => Self::refuse(request, error),
                    Ok(claim) => (
                        CastVote {
                            request,
                            stage: Stage::Verifying {
                                rules_id: election.rules_id,
                                nonce: claim.nonce,
                            },
                        },
                        Ask::VerifySignature {
                            rsa_pub_key: election.rsa_pub_key,
                            signature: claim.parts.signature,
                            msg_randomizer: claim.parts.msg_randomizer,
                            message: claim.message,
                        },
                    ),
                }
            },
        }
    }
}

} // verus!
