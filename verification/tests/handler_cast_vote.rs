use base64::Engine;
use ec::handlers::ballot::BallotError;
use ec::handlers::cast_vote::{
    error_code, handle, read_claim, validate_ballot, Answer, Ask, CastVote, CastVoteError,
    CastVoteRequest,
};
use ec::handlers::token::split_token;
use ec::nostr::messages::OutboundMessage;
use ec::rules::{BallotMethod, BallotRules, CountingRules, ElectionRules, SeatRules};
use ec::types::{Election, Vote};

const NOW: i64 = 1_700_000_000;

fn rules(method: BallotMethod, max_choices: u8) -> ElectionRules {
    ElectionRules {
        ballot: BallotRules { method, min_choices: 1, max_choices },
        election: SeatRules { seats: 1 },
        counting: CountingRules {
            min_winner_votes: None,
            tie_breaking: None,
            tie_breaking_seed: None,
        },
    }
}

/// Everything around a request, kept in memory. Signatures are valid that are
/// 256 bytes long and start with a byte other than zero.
struct World {
    election: Option<Election>,
    now: i64,
    rules: Vec<(String, ElectionRules)>,
    candidates: Vec<u8>,
    used_nonces: Vec<String>,
    votes: Vec<Vote>,
    failure: Option<String>,
    asked: Vec<String>,
}

impl World {
    fn new(rules_id: &str, candidates: &[u8]) -> World {
        World {
            election: Some(Election {
                id: "test-election-1".to_string(),
                name: "Test Election".to_string(),
                start_time: NOW - 100,
                end_time: NOW + 3600,
                status: "in_progress".to_string(),
                rules_id: rules_id.to_string(),
                rsa_pub_key: "pk".to_string(),
                created_at: NOW - 100,
                results_published: 0,
            }),
            now: NOW,
            rules: vec![
                ("plurality".to_string(), rules(BallotMethod::Single, 1)),
                ("stv".to_string(), rules(BallotMethod::Ranked, 0)),
            ],
            candidates: candidates.to_vec(),
            used_nonces: vec![],
            votes: vec![],
            failure: None,
            asked: vec![],
        }
    }

    fn answer(&mut self, ask: Ask) -> Result<Answer, Result<(), CastVoteError>> {
        Ok(match ask {
            Ask::LoadElection { election_id } => {
                self.asked.push("election".to_string());
                let known = self.election.clone().filter(|election| election.id == election_id);
                match &self.failure {
                    Some(words) => Answer::Failure { words: words.clone() },
                    None => Answer::Election { election: known, now: self.now },
                }
            }
            Ask::VerifySignature { rsa_pub_key, signature, msg_randomizer, message } => {
                self.asked.push("signature".to_string());
                assert_eq!(rsa_pub_key, "pk");
                assert_eq!(msg_randomizer.len(), 32);
                assert!(!message.is_empty());
                Answer::Signature { valid: signature.len() == 256 && signature[0] != 0 }
            }
            Ask::LoadRules { rules_id } => {
                self.asked.push("rules".to_string());
                let known = self.rules.iter().find(|(id, _)| *id == rules_id);
                Answer::Rules { rules: known.map(|(_, rules)| rules.clone()) }
            }
            Ask::LoadCandidates { election_id } => {
                self.asked.push("candidates".to_string());
                assert_eq!(election_id, "test-election-1");
                Answer::Candidates { ids: self.candidates.clone(), now: self.now }
            }
            Ask::RecordVote { nonce, vote } => {
                self.asked.push("record".to_string());
                let was_new = !self.used_nonces.contains(&nonce);
                if was_new {
                    self.used_nonces.push(nonce);
                    self.votes.push(vote);
                }
                Answer::Recorded { was_new }
            }
            Ask::Finish { outcome } => return Err(outcome),
        })
    }

    fn cast(&mut self, candidate_ids: &[u8], h_n: &str, token: &str) -> serde_json::Value {
        self.cast_in("test-election-1", candidate_ids, h_n, token)
    }

    fn cast_in(
        &mut self,
        election_id: &str,
        candidate_ids: &[u8],
        h_n: &str,
        token: &str,
    ) -> serde_json::Value {
        let request = CastVoteRequest {
            election_id: election_id.to_string(),
            candidate_ids: candidate_ids.to_vec(),
            h_n: h_n.to_string(),
            token: token.to_string(),
        };
        let (mut progress, mut ask) = CastVote::start(request);
        let outcome = loop {
            match self.answer(ask) {
                Ok(answer) => (progress, ask) = progress.step(answer),
                Err(outcome) => break outcome,
            }
        };
        json_of(&handle(&outcome))
    }
}

fn json_of(message: &OutboundMessage) -> serde_json::Value {
    serde_json::from_str(&message.to_json()).unwrap()
}

fn base64_of(bytes: &[u8]) -> String {
    base64::engine::general_purpose::STANDARD.encode(bytes)
}

/// A nonce hash and a token with a valid signature of it.
fn create_valid_token() -> (String, String) {
    let mut token = vec![7u8; 256];
    token.extend_from_slice(&[9u8; 32]);
    ("ab".repeat(32), base64_of(&token))
}

#[test]
fn cast_vote_success_plurality() {
    let mut world = World::new("plurality", &[1, 2, 3]);
    let (h_n, token) = create_valid_token();
    let json = world.cast(&[2], &h_n, &token);
    assert_eq!(json["status"], "ok");
    assert_eq!(json["action"], "vote-recorded");
    assert_eq!(world.votes.len(), 1);
    assert_eq!(world.votes[0].candidate_ids, "[2]");
}

#[test]
fn cast_vote_success_stv_ranked() {
    let mut world = World::new("stv", &[1, 2, 3, 4]);
    let (h_n, token) = create_valid_token();
    let json = world.cast(&[3, 1, 4, 2], &h_n, &token);
    assert_eq!(json["status"], "ok");
    assert_eq!(json["action"], "vote-recorded");
    assert_eq!(world.votes.len(), 1);
    assert_eq!(world.votes[0].candidate_ids, "[3,1,4,2]");
}

#[test]
fn cast_vote_nonce_already_used() {
    let mut world = World::new("plurality", &[1, 2, 3]);
    let (h_n, token) = create_valid_token();
    world.cast(&[1], &h_n, &token);
    let json = world.cast(&[2], &h_n, &token);
    assert_eq!(json["status"], "error");
    assert_eq!(json["code"], "NONCE_ALREADY_USED");
    assert_eq!(world.votes.len(), 1);
}

#[test]
fn cast_vote_invalid_token() {
    let mut world = World::new("plurality", &[1, 2, 3]);
    let (h_n, _) = create_valid_token();
    let json = world.cast(&[1], &h_n, &base64_of(&[0u8; 300]));
    assert_eq!(json["status"], "error");
    assert_eq!(json["code"], "INVALID_TOKEN");
    assert_eq!(json["message"], "Signature verification failed");
}

#[test]
fn cast_vote_election_not_found() {
    let mut world = World::new("plurality", &[]);
    let json = world.cast_in("nonexistent", &[1], "deadbeef", "fake-token");
    assert_eq!(json["status"], "error");
    assert_eq!(json["code"], "ELECTION_NOT_FOUND");
    assert_eq!(json["message"], "Election does not exist");
}

#[test]
fn cast_vote_invalid_ballot() {
    let mut world = World::new("plurality", &[1, 2, 3]);
    let (h_n, token) = create_valid_token();
    let json = world.cast(&[1, 2], &h_n, &token);
    assert_eq!(json["status"], "error");
    assert_eq!(json["code"], "BALLOT_INVALID");
    assert_eq!(json["message"], "Too many choices (2, maximum 1)");
}

#[test]
fn cast_vote_rejected_after_end_time() {
    let mut world = World::new("plurality", &[1, 2, 3]);
    let (h_n, token) = create_valid_token();
    world.election.as_mut().unwrap().end_time = NOW - 60;
    let json = world.cast(&[1], &h_n, &token);
    assert_eq!(json["status"], "error");
    assert_eq!(json["code"], "ELECTION_CLOSED");
    assert_eq!(json["message"], "Election voting period has ended");
}

#[test]
fn cast_vote_rejected_when_election_not_in_progress() {
    let mut world = World::new("plurality", &[]);
    let election = world.election.as_mut().unwrap();
    election.start_time = NOW + 100;
    election.status = "open".to_string();
    let json = world.cast(&[1], "deadbeef", "irrelevant");
    assert_eq!(json["status"], "error");
    assert_eq!(json["code"], "ELECTION_CLOSED");
    assert_eq!(json["message"], "Election is not accepting votes");
}

#[test]
fn cast_vote_token_not_base64() {
    let mut world = World::new("plurality", &[]);
    let json = world.cast(&[1], "deadbeef", "!!!not-base64!!!");
    assert_eq!(json["status"], "error");
    assert_eq!(json["code"], "INVALID_TOKEN");
    assert!(json["message"].as_str().unwrap().contains("base64"));
}

#[test]
fn cast_vote_token_too_short() {
    let mut world = World::new("plurality", &[]);
    let json = world.cast(&[1], "deadbeef", &base64_of(&[0u8; 32]));
    assert_eq!(json["status"], "error");
    assert_eq!(json["code"], "INVALID_TOKEN");
    assert!(json["message"].as_str().unwrap().contains("too short"));
}

#[test]
fn cast_vote_nonce_hash_not_hex() {
    let mut world = World::new("plurality", &[]);
    let json = world.cast(&[1], "zzzz-not-hex", &base64_of(&[0u8; 64]));
    assert_eq!(json["status"], "error");
    assert_eq!(json["code"], "INVALID_TOKEN");
    assert!(json["message"].as_str().unwrap().contains("hex"));
}

#[test]
fn cast_vote_unknown_rules() {
    let mut world = World::new("no-such-rules", &[1, 2]);
    let (h_n, token) = create_valid_token();
    let json = world.cast(&[1], &h_n, &token);
    assert_eq!(json["status"], "error");
    assert_eq!(json["code"], "UNKNOWN_RULES");
    assert_eq!(json["message"], "Unknown election rules 'no-such-rules'");
}

#[test]
fn cast_vote_internal_error_on_db_failure() {
    let mut world = World::new("plurality", &[]);
    world.failure = Some("attempted to acquire a connection on a closed pool".to_string());
    let json = world.cast(&[1], "deadbeef", "irrelevant");
    assert_eq!(json["status"], "error");
    assert_eq!(json["code"], "INTERNAL_ERROR");
}

#[test]
fn cast_vote_invalid_candidate() {
    let mut world = World::new("plurality", &[1, 2, 3]);
    let (h_n, token) = create_valid_token();
    let json = world.cast(&[99], &h_n, &token);
    assert_eq!(json["status"], "error");
    assert_eq!(json["code"], "INVALID_CANDIDATE");
    assert_eq!(json["message"], "Candidate 99 is not in this election");
}

#[test]
fn cast_vote_db_error_with_colon_is_not_leaked() {
    let mut world = World::new("plurality", &[]);
    world.failure =
        Some("error returned from database: (code: 1) no such table: elections".to_string());
    let json = world.cast(&[1], "deadbeef", "irrelevant");
    assert_eq!(json["status"], "error");
    assert_eq!(json["code"], "INTERNAL_ERROR");
    assert_eq!(json["message"], "An unexpected error occurred");
}

#[test]
fn questions_come_in_order_and_votes_are_coarse() {
    let mut world = World::new("plurality", &[1, 2]);
    let (h_n, token) = create_valid_token();
    world.cast(&[1], &h_n, &token);
    assert_eq!(world.asked, ["election", "signature", "rules", "candidates", "record"]);
    assert_eq!(world.votes[0].recorded_at, 1_699_999_200);
    assert_eq!(world.votes[0].recorded_at % 3600, 0);
    assert_eq!(world.votes[0].election_id, "test-election-1");
    assert_eq!(world.votes[0].id, 0);
}

#[test]
fn case_of_a_nonce_hash_gives_no_second_vote() {
    let mut world = World::new("plurality", &[1, 2]);
    let (h_n, token) = create_valid_token();
    assert_eq!(world.cast(&[1], &h_n.to_uppercase(), &token)["status"], "ok");
    assert_eq!(world.used_nonces, [h_n.clone()]);
    assert_eq!(world.cast(&[1], &h_n, &token)["code"], "NONCE_ALREADY_USED");
    assert_eq!(world.cast(&[1], &h_n.replace("ab", "aB"), &token)["code"], "NONCE_ALREADY_USED");
    assert_eq!(world.votes.len(), 1);
}

#[test]
fn deadline_is_exact() {
    let (h_n, token) = create_valid_token();
    for (end_time, status) in [(NOW + 1, "ok"), (NOW, "error"), (NOW - 1, "error")] {
        let mut world = World::new("plurality", &[1]);
        world.election.as_mut().unwrap().end_time = end_time;
        assert_eq!(world.cast(&[1], &h_n, &token)["status"], status);
    }
}

#[test]
fn refused_requests_store_nothing() {
    let (h_n, token) = create_valid_token();
    let mut world = World::new("plurality", &[1]);
    world.cast(&[], &h_n, &token);
    world.cast(&[2], &h_n, &token);
    world.cast(&[1], "0", &token);
    world.cast(&[1], &h_n, "AAAA");
    assert!(world.votes.is_empty());
    assert!(world.used_nonces.is_empty());
}

#[test]
fn answers_out_of_turn_end_a_request() {
    let request = || CastVoteRequest {
        election_id: "e".to_string(),
        candidate_ids: vec![1],
        h_n: "00".to_string(),
        token: String::new(),
    };
    let (begun, _) = CastVote::start(request());
    let (ended, ask) = begun.step(Answer::Recorded { was_new: true });
    match ask {
        Ask::Finish { outcome: Err(error) } => {
            assert_eq!(error.message(), "answer out of turn");
            assert_eq!(json_of(&handle(&Err(error)))["code"], "INTERNAL_ERROR");
        }
        other => panic!("{other:?}"),
    }
    let (_, ask) = ended.step(Answer::Recorded { was_new: true });
    assert!(matches!(ask, Ask::Finish { outcome: Err(CastVoteError::Internal(_)) }));
}

#[test]
fn every_refusal_has_its_reply() {
    let unknown = CastVoteError::UnknownRules("x: y".to_string());
    let ballot = CastVoteError::Ballot(BallotError::Duplicate { id: 7 });
    for (error, code, words) in [
        (CastVoteError::ElectionNotFound, "ELECTION_NOT_FOUND", "Election does not exist"),
        (CastVoteError::NotAccepting, "ELECTION_CLOSED", "Election is not accepting votes"),
        (CastVoteError::PeriodEnded, "ELECTION_CLOSED", "Election voting period has ended"),
        (CastVoteError::TokenNotBase64, "INVALID_TOKEN", "Malformed token (not valid base64)"),
        (CastVoteError::TokenTooShort, "INVALID_TOKEN", "Token too short"),
        (CastVoteError::NonceNotHex, "INVALID_TOKEN", "Malformed nonce hash (not valid hex)"),
        (CastVoteError::SignatureInvalid, "INVALID_TOKEN", "Signature verification failed"),
        (unknown, "UNKNOWN_RULES", "Unknown election rules 'x: y'"),
        (ballot, "BALLOT_INVALID", "Duplicate candidate 7 in ballot"),
        (
            CastVoteError::NonceAlreadyUsed,
            "NONCE_ALREADY_USED",
            "This voting token has already been used",
        ),
    ] {
        assert_eq!(error.message(), format!("{code}: {words}"));
        let json = json_of(&handle(&Err(error)));
        assert_eq!(json["status"], "error");
        assert_eq!(json["code"], code);
        assert_eq!(json["message"], words);
    }
}

#[test]
fn only_known_codes_are_handed_on() {
    for words in ["", ": ", "ELECTION_CLOSED", "ELECTION_CLOSED:no space", "election_closed: x"] {
        let json = json_of(&handle(&Err(CastVoteError::Internal(words.to_string()))));
        assert_eq!(json["code"], "INTERNAL_ERROR");
        assert_eq!(json["message"], "An unexpected error occurred");
    }
    assert_eq!(error_code("UNKNOWN_RULES"), Some("UNKNOWN_RULES"));
    assert_eq!(error_code("INTERNAL_ERROR"), None);
}

#[test]
fn ballots_are_checked_against_rules_and_candidates() {
    let single = rules(BallotMethod::Single, 1);
    let ranked = rules(BallotMethod::Ranked, 0);
    assert_eq!(validate_ballot(&[2], &single, &[1, 2]), Ok(()));
    assert_eq!(validate_ballot(&[2, 1], &ranked, &[1, 2]), Ok(()));
    for (ids, rules, message) in [
        (vec![], &single, "BALLOT_INVALID: Too few choices (0, minimum 1)"),
        (vec![1, 2], &single, "BALLOT_INVALID: Too many choices (2, maximum 1)"),
        (vec![1, 9, 8], &ranked, "INVALID_CANDIDATE: Candidate 9 is not in this election"),
        (vec![1, 2, 2, 1], &ranked, "BALLOT_INVALID: Duplicate candidate 2 in ballot"),
        (vec![1, 1, 9], &ranked, "INVALID_CANDIDATE: Candidate 9 is not in this election"),
        (vec![1; 256], &ranked, "BALLOT_INVALID: Too many choices"),
        (vec![1; 255], &ranked, "BALLOT_INVALID: Duplicate candidate 1 in ballot"),
    ] {
        let error = validate_ballot(&ids, rules, &[1, 2]).unwrap_err();
        assert_eq!(error.message(), message);
    }
}

#[test]
fn tokens_end_with_the_randomizer() {
    let token: Vec<u8> = (0..40).collect();
    let parts = split_token(&token).unwrap();
    assert_eq!(parts.signature, (0..8).collect::<Vec<u8>>());
    assert_eq!(parts.msg_randomizer, (8..40).collect::<Vec<u8>>());
    assert!(split_token(&token[..32]).is_none());
}

#[test]
fn claims_carry_the_bytes_of_the_nonce_hash() {
    let claim = read_claim(Some(vec![5; 33]), "00fFaB").ok().unwrap();
    assert_eq!(claim.message, [0x00, 0xff, 0xab]);
    assert_eq!(claim.nonce, "00ffab");
    assert_eq!(claim.parts.signature, [5]);
    for h_n in ["0", "0g", "\u{e9}", " 00"] {
        let error = read_claim(Some(vec![5; 33]), h_n).err().unwrap();
        assert!(matches!(error, CastVoteError::NonceNotHex));
    }
}

#[test]
fn base64_must_be_padded_and_standard() {
    let (h_n, _) = create_valid_token();
    for (token, message) in [
        ("AAA=", "Token too short"),
        ("AAA", "Malformed token (not valid base64)"),
        ("-_-_", "Malformed token (not valid base64)"),
        ("+/+/", "Token too short"),
        ("", "Token too short"),
    ] {
        let mut world = World::new("plurality", &[1]);
        assert_eq!(world.cast(&[1], &h_n, token)["message"], message);
    }
}
