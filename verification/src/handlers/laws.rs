//! What holds of every request to cast a vote.

use crate::handlers::ballot::{ballot_error, law_accepted_ballots};
use crate::handlers::cast_vote::{
    advanced, answers_error, begun, claimed, closed_because, is_protocol_code, refusal, refused,
    Answer, Ask, AskView, CastVoteError, CastVoteRequest, StageView, VoteView,
};
use crate::handlers::token::{
    base64_decoded, hex_decoded, hex_value, law_canonical_is_lower_case, lower_hex, lower_hex_text,
};
use crate::json::json_numbers;
use crate::nostr::messages::OutboundMessage;
use crate::text::{lemma_parted_at, occurs_at, occurs_first_at, parted};
use crate::rules::ElectionRules;
use crate::time::{hour_of, law_hour_is_coarse};
use crate::types::Election;
use vstd::prelude::*;

verus! {

/// The protocol code of an error, if it has one.
pub open spec fn code_of(error: CastVoteError) -> Option<Seq<char>> {
    match error {
        CastVoteError::ElectionNotFound => Some("ELECTION_NOT_FOUND"@),
        CastVoteError::NotAccepting => Some("ELECTION_CLOSED"@),
        CastVoteError::PeriodEnded => Some("ELECTION_CLOSED"@),
        CastVoteError::TokenNotBase64 => Some("INVALID_TOKEN"@),
        CastVoteError::TokenTooShort => Some("INVALID_TOKEN"@),
        CastVoteError::NonceNotHex => Some("INVALID_TOKEN"@),
        CastVoteError::SignatureInvalid => Some("INVALID_TOKEN"@),
        CastVoteError::UnknownRules(_) => Some("UNKNOWN_RULES"@),
        CastVoteError::Ballot(error) => Some(error.code()),
        CastVoteError::NonceAlreadyUsed => Some("NONCE_ALREADY_USED"@),
        CastVoteError::Internal(_) => None,
    }
}

/// A code that voters know holds no colon.
proof fn lemma_codes_hold_no_colon(code: Seq<char>)
    requires
        is_protocol_code(code),
    ensures
        forall|i: int| 0 <= i < code.len() ==> #[trigger] code[i] != ':',
{
    reveal_strlit("ELECTION_NOT_FOUND");
    reveal_strlit("ELECTION_CLOSED");
    reveal_strlit("NONCE_ALREADY_USED");
    reveal_strlit("INVALID_TOKEN");
    reveal_strlit("INVALID_CANDIDATE");
    reveal_strlit("BALLOT_INVALID");
    reveal_strlit("UNKNOWN_RULES");
}

/// A code and words are told apart at the colon.
proof fn lemma_refusal_is_parted(code: Seq<char>, words: Seq<char>)
    requires
        is_protocol_code(code),
    ensures
        parted(refusal(code, words), ": "@) == Some((code, words)),
{
    reveal_strlit(": ");
    let colon = ": "@;
    let text = refusal(code, words);
    let n = code.len() as int;
    lemma_codes_hold_no_colon(code);
    assert(text.subrange(n, n + 2) =~= colon);
    assert forall|j: int| 0 <= j < n implies !occurs_at(text, colon, j) by {
        if occurs_at(text, colon, j) {
            assert(text.subrange(j, j + 2)[0] == text[j]);
            assert(text[j] == code[j]);
        }
    }
    assert(occurs_first_at(text, colon, n));
    lemma_parted_at(text, colon, n);
    assert(text.take(n) =~= code);
    assert(text.skip(n + 2) =~= words);
}

/// Every refusal reaches the voter: unless a failure is internal, the reply
/// has the protocol code of the error, and the words after it.
pub proof fn law_refusals_reach_the_voter(error: CastVoteError, reply: OutboundMessage)
    requires
        code_of(error) is Some,
        answers_error(reply, error.text()),
    ensures
        exists|words: Seq<char>|
            error.text() == #[trigger] refusal(code_of(error)->0, words) && reply.is_error(
                code_of(error)->0,
                words,
            ),
{
    let code = code_of(error)->0;
    let words = match error {
        CastVoteError::ElectionNotFound => "Election does not exist"@,
        CastVoteError::NotAccepting => "Election is not accepting votes"@,
        CastVoteError::PeriodEnded => "Election voting period has ended"@,
        CastVoteError::TokenNotBase64 => "Malformed token (not valid base64)"@,
        CastVoteError::TokenTooShort => "Token too short"@,
        CastVoteError::NonceNotHex => "Malformed nonce hash (not valid hex)"@,
        CastVoteError::SignatureInvalid => "Signature verification failed"@,
        CastVoteError::UnknownRules(id) => "Unknown election rules '"@ + id@ + "'"@,
        CastVoteError::Ballot(error) => error.description(),
        CastVoteError::NonceAlreadyUsed => "This voting token has already been used"@,
        CastVoteError::Internal(words) => words@,
    };
    assert(error.text() == refusal(code, words));
    lemma_refusal_is_parted(code, words);
}

/// Nothing of the inside reaches the voter: a reply to an error text either
/// hands on the words that follow a code that voters know at the start of the
/// text, or is the one reply that says nothing.
pub proof fn law_the_inside_stays_inside(text: Seq<char>, reply: OutboundMessage)
    requires
        answers_error(reply, text),
    ensures
        reply.is_error("INTERNAL_ERROR"@, "An unexpected error occurred"@) || exists|
            code: Seq<char>,
            words: Seq<char>,
        |
            is_protocol_code(code) && text == #[trigger] refusal(code, words) && reply.is_error(
                code,
                words,
            ),
        (forall|code: Seq<char>, words: Seq<char>|
            text == #[trigger] refusal(code, words) ==> !is_protocol_code(code))
            ==> reply.is_error("INTERNAL_ERROR"@, "An unexpected error occurred"@),
{
    let colon = ": "@;
    match parted(text, colon) {
        Some((code, words)) => {
            let i = choose|i: int| occurs_first_at(text, colon, i);
            assert(text =~= refusal(code, words)) by {
                assert(text.subrange(i, i + colon.len()) == colon);
                assert(text =~= text.take(i) + text.subrange(i, i + colon.len()) + text.skip(
                    i + colon.len(),
                ));
            }
        },
        None => {},
    }
}

/// The stage of a request after some answers.
pub open spec fn stage_after(request: CastVoteRequest, answers: Seq<Answer>) -> StageView
    decreases answers.len(),
{
    if answers.len() == 0 {
        begun(request).0
    } else {
        advanced(request, stage_after(request, answers.drop_last()), answers.last()).0
    }
}

/// What a request asks after some answers.
pub open spec fn asked_after(request: CastVoteRequest, answers: Seq<Answer>) -> AskView {
    if answers.len() == 0 {
        begun(request).1
    } else {
        advanced(request, stage_after(request, answers.drop_last()), answers.last()).1
    }
}

/// The election that a question is about, where it names one.
pub open spec fn election_asked(ask: AskView) -> Option<Seq<char>> {
    match ask {
        AskView::LoadElection { election_id } => Some(election_id),
        AskView::LoadCandidates { election_id } => Some(election_id),
        AskView::RecordVote { vote, .. } => Some(vote.election_id),
        _ => None,
    }
}

/// A request deals with no election but the one that it names: whatever is
/// looked up or stored, is looked up or stored for that election.
pub proof fn law_one_election(request: CastVoteRequest, answers: Seq<Answer>)
    ensures
        election_asked(asked_after(request, answers)) matches Some(id) ==> id
            == request.election_id@,
{
}

/// Whether a ballot fits the rules and the candidates: an allowed number of
/// choices, each of them a candidate, and none of them twice.
pub open spec fn ballot_fits(choices: Seq<u8>, rules: ElectionRules, candidates: Seq<u8>) -> bool {
    &&& rules.ballot.min_choices <= choices.len() <= 255
    &&& rules.ballot.max_choices == 0 || choices.len() <= rules.ballot.max_choices
    &&& forall|i: int| 0 <= i < choices.len() ==> candidates.contains(#[trigger] choices[i])
    &&& choices.no_duplicates()
}

/// Whether answers let a vote through: the election exists, is in its voting
/// phase and not past its end, the token holds more than a randomizer of 32
/// bytes, and the nonce hash is in hexadecimal; the signature is valid; the rules
/// are known; and the ballot fits them and the candidates.
pub open spec fn lets_through(request: CastVoteRequest, answers: Seq<Answer>) -> bool {
    &&& answers.len() == 4
    &&& answers[0] matches Answer::Election { election: Some(election), now }
    &&& election.status@ == "in_progress"@
    &&& now < election.end_time
    &&& base64_decoded(request.token@) matches Some(token)
    &&& token.len() > 32
    &&& hex_decoded(request.h_n@) is Some
    &&& answers[1] == (Answer::Signature { valid: true })
    &&& answers[2] matches Answer::Rules { rules: Some(rules) }
    &&& answers[3] matches Answer::Candidates { ids, .. }
    &&& ballot_fits(request.candidate_ids@, rules, ids@)
}

/// Whether answers have passed every step.
spec fn passed(request: CastVoteRequest, answers: Seq<Answer>) -> bool {
    &&& answers.len() == 4
    &&& answers[0] matches Answer::Election { election: Some(election), now }
    &&& closed_because(election, now as int) is None
    &&& claimed(base64_decoded(request.token@), request.h_n@) is Ok
    &&& answers[1] == (Answer::Signature { valid: true })
    &&& answers[2] matches Answer::Rules { rules: Some(rules) }
    &&& answers[3] matches Answer::Candidates { ids, .. }
    &&& ballot_error(request.candidate_ids@, rules, ids@) is None
}

/// The steps let through just what is to be let through.
proof fn lemma_passed(request: CastVoteRequest, answers: Seq<Answer>)
    ensures
        passed(request, answers) <==> lets_through(request, answers),
{
    if answers.len() == 4 {
        match (answers[2], answers[3]) {
            (Answer::Rules { rules: Some(rules) }, Answer::Candidates { ids, .. }) => {
                law_accepted_ballots(request.candidate_ids@, rules, ids@);
            },
            _ => {},
        }
    }
}

/// The vote that a request is for, at a time.
pub open spec fn vote_of(request: CastVoteRequest, now: int) -> VoteView {
    VoteView {
        id: 0,
        election_id: request.election_id@,
        candidate_ids: json_numbers(request.candidate_ids@),
        recorded_at: hour_of(now),
    }
}

/// Which stage a request is in tells how many answers it has had, and what
/// they were.
proof fn lemma_stages(request: CastVoteRequest, answers: Seq<Answer>)
    ensures
        ({
            let stage = stage_after(request, answers);
            let opened = answers.len() >= 1 && (answers[0] matches Answer::Election {
                election: Some(election),
                now,
            } && closed_because(election, now as int) is None) && claimed(
                base64_decoded(request.token@),
                request.h_n@,
            ) is Ok;
            let nonce = claimed(base64_decoded(request.token@), request.h_n@)->Ok_0.nonce;
            let verified = opened && answers.len() >= 2 && answers[1] == (Answer::Signature {
                valid: true,
            });
            &&& stage is Opening <==> answers.len() == 0
            &&& stage matches StageView::Verifying { nonce: n, .. } ==> answers.len() == 1 && opened
                && n == nonce
            &&& stage matches StageView::LoadingRules { nonce: n, .. } ==> answers.len() == 2
                && verified && n == nonce
            &&& stage matches StageView::LoadingCandidates { rules: r, nonce: n } ==> answers.len()
                == 3 && verified && answers[2] == (Answer::Rules { rules: Some(r) }) && n == nonce
            &&& stage is Recording ==> passed(request, answers)
        }),
    decreases answers.len(),
{
    if answers.len() > 0 {
        lemma_stages(request, answers.drop_last());
        let before = answers.drop_last();
        assert(forall|i: int| 0 <= i < before.len() ==> before[i] == answers[i]);
        assert(answers.last() == answers[answers.len() - 1]);
    }
}

/// A vote is stored only after every check: whenever a request asks for a vote
/// to be stored, the answers so far let it through. What is stored is the vote
/// of the request, its time rounded to the hour, under the nonce hash in lower
/// case.
pub proof fn law_vote_is_stored_only_after_every_check(
    request: CastVoteRequest,
    answers: Seq<Answer>,
)
    requires
        asked_after(request, answers) is RecordVote,
    ensures
        lets_through(request, answers),
        answers[3] matches Answer::Candidates { now, .. } && asked_after(request, answers) == (
        AskView::RecordVote {
            nonce: lower_hex_text(request.h_n@),
            vote: vote_of(request, now as int),
        }),
{
    let before = answers.drop_last();
    lemma_stages(request, before);
    lemma_stages(request, answers);
    lemma_passed(request, answers);
    assert(forall|i: int| 0 <= i < before.len() ==> before[i] == answers[i]);
    assert(answers.last() == answers[answers.len() - 1]);
    law_canonical_is_lower_case(request.h_n@);
}

/// Answers that let a vote through have it stored.
pub proof fn law_valid_vote_is_stored(request: CastVoteRequest, answers: Seq<Answer>)
    requires
        lets_through(request, answers),
    ensures
        asked_after(request, answers) is RecordVote,
        stage_after(request, answers) is Recording,
{
    reveal_with_fuel(stage_after, 5);
    lemma_passed(request, answers);
    let a3 = answers.drop_last();
    let a2 = a3.drop_last();
    let a1 = a2.drop_last();
    assert(a3.last() == answers[2] && a2.last() == answers[1] && a1.last() == answers[0]);
    assert(a1.drop_last() =~= Seq::<Answer>::empty());
}

/// A request is accepted if and only if its answers let it through and its
/// nonce was fresh when the vote was stored.
pub proof fn law_accepted_votes(request: CastVoteRequest, answers: Seq<Answer>)
    requires
        answers.len() > 0,
    ensures
        asked_after(request, answers) is Accepted <==> lets_through(
            request,
            answers.drop_last(),
        ) && answers.last() == (Answer::Recorded { was_new: true }),
{
    let before = answers.drop_last();
    lemma_stages(request, before);
    lemma_passed(request, before);
    if lets_through(request, before) {
        law_valid_vote_is_stored(request, before);
    }
}

/// A nonce counts once: where the nonce had been used before, the request is
/// refused as such.
pub proof fn law_used_nonce_is_refused(request: CastVoteRequest, answers: Seq<Answer>)
    requires
        answers.len() > 0,
        lets_through(request, answers.drop_last()),
        answers.last() == (Answer::Recorded { was_new: false }),
    ensures
        asked_after(request, answers) == (AskView::Refused {
            text: CastVoteError::NonceAlreadyUsed.text(),
        }),
{
    law_valid_vote_is_stored(request, answers.drop_last());
}

/// Requests whose nonce hashes differ in case only ask for the same nonce to be
/// used up, so that the second of them finds it used.
pub proof fn law_case_gives_no_second_vote(
    a: CastVoteRequest,
    b: CastVoteRequest,
    answers_a: Seq<Answer>,
    answers_b: Seq<Answer>,
)
    requires
        lower_hex_text(a.h_n@) == lower_hex_text(b.h_n@),
        asked_after(a, answers_a) is RecordVote,
        asked_after(b, answers_b) is RecordVote,
    ensures
        asked_after(a, answers_a)->nonce == asked_after(b, answers_b)->nonce,
{
    law_vote_is_stored_only_after_every_check(a, answers_a);
    law_vote_is_stored_only_after_every_check(b, answers_b);
}

/// No vote gets in at or after the end of the voting period, whatever phase is
/// on record.
pub proof fn law_the_deadline_is_exact(
    request: CastVoteRequest,
    answers: Seq<Answer>,
    election: Election,
    now: i64,
)
    requires
        answers.len() > 0,
        answers[0] == (Answer::Election { election: Some(election), now }),
        now >= election.end_time,
    ensures
        !(asked_after(request, answers) is RecordVote),
        !(asked_after(request, answers) is Accepted),
{
    let before = answers.drop_last();
    if asked_after(request, answers) is RecordVote {
        law_vote_is_stored_only_after_every_check(request, answers);
    }
    law_accepted_votes(request, answers);
    if asked_after(request, answers) is Accepted {
        assert(before[0] == answers[0]);
    }
}

/// Once a request has ended, no answer has anything stored or accepted.
pub proof fn law_the_end_is_final(request: CastVoteRequest, answer: Answer)
    ensures
        exists|text: Seq<char>|
            #[trigger] refused(text) == advanced(request, StageView::Closed, answer),
{
    let text = advanced(request, StageView::Closed, answer).1->text;
    assert(refused(text) == advanced(request, StageView::Closed, answer));
}

/// What a voter is told of a request that is refused: a code, a colon and words.
pub proof fn law_refusals_in_words(rules_id: String, words: String)
    ensures
        CastVoteError::ElectionNotFound.text() == "ELECTION_NOT_FOUND: Election does not exist"@,
        CastVoteError::NotAccepting.text() == "ELECTION_CLOSED: Election is not accepting votes"@,
        CastVoteError::PeriodEnded.text() == "ELECTION_CLOSED: Election voting period has ended"@,
        CastVoteError::TokenNotBase64.text() == "INVALID_TOKEN: Malformed token (not valid base64)"@,
        CastVoteError::TokenTooShort.text() == "INVALID_TOKEN: Token too short"@,
        CastVoteError::NonceNotHex.text() == "INVALID_TOKEN: Malformed nonce hash (not valid hex)"@,
        CastVoteError::SignatureInvalid.text() == "INVALID_TOKEN: Signature verification failed"@,
        CastVoteError::NonceAlreadyUsed.text() == "NONCE_ALREADY_USED: This voting token has already been used"@,
        CastVoteError::UnknownRules(rules_id).text()
            == "UNKNOWN_RULES: Unknown election rules '"@ + rules_id@ + "'"@,
        CastVoteError::Internal(words).text() == words@,
{
    reveal_strlit("ELECTION_CLOSED");
    reveal_strlit("ELECTION_NOT_FOUND");
    reveal_strlit("INVALID_TOKEN");
    reveal_strlit("NONCE_ALREADY_USED");
    reveal_strlit(": ");
    reveal_strlit("Election does not exist");
    reveal_strlit("ELECTION_NOT_FOUND: Election does not exist");
    assert("ELECTION_NOT_FOUND: Election does not exist"@
        =~= "ELECTION_NOT_FOUND"@ + ": "@ + "Election does not exist"@);
    reveal_strlit("Election is not accepting votes");
    reveal_strlit("ELECTION_CLOSED: Election is not accepting votes");
    assert("ELECTION_CLOSED: Election is not accepting votes"@
        =~= "ELECTION_CLOSED"@ + ": "@ + "Election is not accepting votes"@);
    reveal_strlit("Election voting period has ended");
    reveal_strlit("ELECTION_CLOSED: Election voting period has ended");
    assert("ELECTION_CLOSED: Election voting period has ended"@
        =~= "ELECTION_CLOSED"@ + ": "@ + "Election voting period has ended"@);
    reveal_strlit("Malformed token (not valid base64)");
    reveal_strlit("INVALID_TOKEN: Malformed token (not valid base64)");
    assert("INVALID_TOKEN: Malformed token (not valid base64)"@
        =~= "INVALID_TOKEN"@ + ": "@ + "Malformed token (not valid base64)"@);
    reveal_strlit("Token too short");
    reveal_strlit("INVALID_TOKEN: Token too short");
    assert("INVALID_TOKEN: Token too short"@
        =~= "INVALID_TOKEN"@ + ": "@ + "Token too short"@);
    reveal_strlit("Malformed nonce hash (not valid hex)");
    reveal_strlit("INVALID_TOKEN: Malformed nonce hash (not valid hex)");
    assert("INVALID_TOKEN: Malformed nonce hash (not valid hex)"@
        =~= "INVALID_TOKEN"@ + ": "@ + "Malformed nonce hash (not valid hex)"@);
    reveal_strlit("Signature verification failed");
    reveal_strlit("INVALID_TOKEN: Signature verification failed");
    assert("INVALID_TOKEN: Signature verification failed"@
        =~= "INVALID_TOKEN"@ + ": "@ + "Signature verification failed"@);
    reveal_strlit("This voting token has already been used");
    reveal_strlit("NONCE_ALREADY_USED: This voting token has already been used");
    assert("NONCE_ALREADY_USED: This voting token has already been used"@
        =~= "NONCE_ALREADY_USED"@ + ": "@ + "This voting token has already been used"@);
    reveal_strlit("UNKNOWN_RULES");
    reveal_strlit("Unknown election rules '");
    reveal_strlit("UNKNOWN_RULES: Unknown election rules '");
    let id = rules_id@;
    assert("UNKNOWN_RULES: Unknown election rules '"@ =~= "UNKNOWN_RULES"@ + ": "@
        + "Unknown election rules '"@);
    assert("UNKNOWN_RULES"@ + ": "@ + ("Unknown election rules '"@ + id + "'"@)
        =~= "UNKNOWN_RULES"@ + ": "@ + "Unknown election rules '"@ + id + "'"@);
}

/// Words are handed on to voters under seven codes, and under no other.
pub proof fn law_codes_that_voters_know(code: Seq<char>)
    ensures
        is_protocol_code(code) <==> (code == "ELECTION_NOT_FOUND"@ || code == "ELECTION_CLOSED"@
            || code == "NONCE_ALREADY_USED"@ || code == "INVALID_TOKEN"@ || code
            == "INVALID_CANDIDATE"@ || code == "BALLOT_INVALID"@ || code == "UNKNOWN_RULES"@),
{
}

/// Whether a request ends here with an error of this text.
pub open spec fn ends_with(ask: Ask, text: Seq<char>) -> bool {
    ask matches Ask::Finish { outcome: Err(error) } && error.text() == text
}

/// A request begins by asking for the election that it names.
pub proof fn law_first_question(request: CastVoteRequest, ask: Ask)
    requires
        ask@ == asked_after(request, Seq::empty()),
    ensures
        ask matches Ask::LoadElection { election_id } && election_id@ == request.election_id@,
{
}

/// Whenever a signature is to be verified, it is the one of the token: what
/// stands before the last 32 bytes of the token is the signature, those are the
/// randomizer, the message is the bytes that the nonce hash stands for in
/// hexadecimal, and the key is the one of the election that was found.
pub proof fn law_what_is_verified(request: CastVoteRequest, answers: Seq<Answer>, ask: Ask)
    requires
        ask@ == asked_after(request, answers),
        ask is VerifySignature,
    ensures
        answers.len() == 1,
        answers[0] matches Answer::Election { election: Some(election), .. } && {
            ask matches Ask::VerifySignature {
                rsa_pub_key,
                signature,
                msg_randomizer,
                message,
            } && {
                &&& rsa_pub_key@ == election.rsa_pub_key@
                &&& msg_randomizer@.len() == 32
                &&& signature@.len() > 0
                &&& base64_decoded(request.token@) == Some(signature@ + msg_randomizer@)
                &&& hex_decoded(request.h_n@) == Some(message@)
            }
        },
{
    lemma_stages(request, answers.drop_last());
    let before = answers.drop_last();
    assert(answers.last() == answers[answers.len() - 1]);
    assert(before.len() == 0);
    let token = base64_decoded(request.token@)->0;
    assert(token =~= token.take(token.len() - 32) + token.skip(token.len() - 32));
}

/// A vote is stored only after the signature of the token was asked about and
/// found valid.
pub proof fn law_stored_votes_were_verified(
    request: CastVoteRequest,
    answers: Seq<Answer>,
    ask: Ask,
    question: Ask,
)
    requires
        ask@ == asked_after(request, answers),
        ask is RecordVote,
        question@ == asked_after(request, answers.take(1)),
    ensures
        question is VerifySignature,
        answers.len() == 4,
        answers[1] == (Answer::Signature { valid: true }),
{
    law_vote_is_stored_only_after_every_check(request, answers);
    lemma_passed(request, answers);
    let first = answers.take(1);
    assert(first.drop_last() =~= Seq::<Answer>::empty());
    assert(first.last() == answers[0]);
    assert(stage_after(request, first.drop_last()) == StageView::Opening);
}

/// What is stored is the vote of the request: for its election, with its choices
/// as a JSON array in their order, at the last full hour, and under the nonce hash
/// with its digits in lower case.
pub proof fn law_what_is_stored(request: CastVoteRequest, answers: Seq<Answer>, ask: Ask)
    requires
        ask@ == asked_after(request, answers),
        ask is RecordVote,
    ensures
        answers.len() == 4,
        answers[3] matches Answer::Candidates { now, .. } && {
            ask matches Ask::RecordVote { nonce, vote } && {
                &&& vote.id == 0
                &&& vote.election_id@ == request.election_id@
                &&& vote.candidate_ids@ == json_numbers(request.candidate_ids@)
                &&& vote.recorded_at as int % 3600 == 0
                &&& vote.recorded_at <= now < vote.recorded_at + 3600
                &&& nonce@.len() == request.h_n@.len()
                &&& forall|i: int|
                    0 <= i < nonce@.len() ==> hex_value(#[trigger] nonce@[i]) == hex_value(
                        request.h_n@[i],
                    ) && !('A' <= nonce@[i] <= 'F')
            }
        },
{
    law_vote_is_stored_only_after_every_check(request, answers);
    match (answers[3], ask) {
        (Answer::Candidates { now, .. }, Ask::RecordVote { nonce, vote }) => {
            law_hour_is_coarse(now as int);
            let lower = lower_hex_text(request.h_n@);
            assert(nonce@ == lower);
            assert(lower.len() == request.h_n@.len());
            assert forall|i: int| 0 <= i < nonce@.len() implies hex_value(#[trigger] nonce@[i])
                == hex_value(request.h_n@[i]) && !('A' <= nonce@[i] <= 'F') by {
                assert(nonce@[i] == lower_hex(request.h_n@[i]));
            }
        },
        _ => {},
    }
}

/// How a request goes on once its election was looked up.
pub proof fn law_after_the_election(
    request: CastVoteRequest,
    election: Option<Election>,
    now: i64,
    ask: Ask,
)
    requires
        ask@ == asked_after(request, seq![Answer::Election { election, now }]),
    ensures
        ({
            let token = base64_decoded(request.token@);
            if election is None {
                ends_with(ask, "ELECTION_NOT_FOUND: Election does not exist"@)
            } else if election->0.status@ != "in_progress"@ {
                ends_with(ask, "ELECTION_CLOSED: Election is not accepting votes"@)
            } else if now >= election->0.end_time {
                ends_with(ask, "ELECTION_CLOSED: Election voting period has ended"@)
            } else if token is None {
                ends_with(ask, "INVALID_TOKEN: Malformed token (not valid base64)"@)
            } else if token->0.len() <= 32 {
                ends_with(ask, "INVALID_TOKEN: Token too short"@)
            } else if hex_decoded(request.h_n@) is None {
                ends_with(ask, "INVALID_TOKEN: Malformed nonce hash (not valid hex)"@)
            } else {
                ask is VerifySignature
            }
        }),
{
    let answers = seq![Answer::Election { election, now }];
    assert(answers.drop_last() =~= Seq::<Answer>::empty());
    assert(stage_after(request, answers.drop_last()) == StageView::Opening);
    law_refusals_in_words(request.h_n, request.h_n);
}

/// How a request goes on once its signature was verified: the rules of the
/// election that was found are asked for, or the request is refused.
pub proof fn law_after_the_signature(
    request: CastVoteRequest,
    answers: Seq<Answer>,
    election: Election,
    now: i64,
    valid: bool,
    ask: Ask,
)
    requires
        asked_after(request, answers) is VerifySignature,
        answers == seq![Answer::Election { election: Some(election), now }],
        ask@ == asked_after(request, answers.push(Answer::Signature { valid })),
    ensures
        valid ==> (ask matches Ask::LoadRules { rules_id } && rules_id@ == election.rules_id@),
        !valid ==> ends_with(ask, "INVALID_TOKEN: Signature verification failed"@),
{
    let all = answers.push(Answer::Signature { valid });
    assert(all.drop_last() =~= answers);
    assert(answers.drop_last() =~= Seq::<Answer>::empty());
    assert(stage_after(request, answers.drop_last()) == StageView::Opening);
    law_refusals_in_words(request.h_n, request.h_n);
}

/// How a request goes on once the rules were loaded: the candidates of the
/// election that it names are asked for, or the request is refused by the name of
/// the rules.
pub proof fn law_after_the_rules(
    request: CastVoteRequest,
    answers: Seq<Answer>,
    election: Election,
    now: i64,
    rules: Option<ElectionRules>,
    ask: Ask,
)
    requires
        asked_after(request, answers) is LoadRules,
        answers == seq![
            Answer::Election { election: Some(election), now },
            Answer::Signature { valid: true },
        ],
        ask@ == asked_after(request, answers.push(Answer::Rules { rules })),
    ensures
        rules is Some ==> (ask matches Ask::LoadCandidates { election_id } && election_id@
            == request.election_id@),
        rules is None ==> ends_with(
            ask,
            "UNKNOWN_RULES: Unknown election rules '"@ + election.rules_id@ + "'"@,
        ),
{
    let all = answers.push(Answer::Rules { rules });
    let one = answers.drop_last();
    assert(all.drop_last() =~= answers);
    assert(one =~= seq![Answer::Election { election: Some(election), now }]);
    assert(one.drop_last() =~= Seq::<Answer>::empty());
    assert(stage_after(request, one.drop_last()) == StageView::Opening);
    assert(one.last() == answers[0]);
    assert(answers.last() == answers[1]);
    law_refusals_in_words(election.rules_id, election.rules_id);
}

/// How a request goes on once the candidates were looked up: a ballot that fits is
/// stored, and else the request ends with what is wrong with the ballot.
pub proof fn law_after_the_candidates(
    request: CastVoteRequest,
    answers: Seq<Answer>,
    rules: ElectionRules,
    ids: Vec<u8>,
    now: i64,
    ask: Ask,
)
    requires
        asked_after(request, answers) is LoadCandidates,
        answers.last() == (Answer::Rules { rules: Some(rules) }),
        ask@ == asked_after(request, answers.push(Answer::Candidates { ids, now })),
    ensures
        ask is RecordVote <==> ballot_fits(request.candidate_ids@, rules, ids@),
        ballot_error(request.candidate_ids@, rules, ids@) matches Some(error) ==> ends_with(
            ask,
            error.text(),
        ),
{
    let all = answers.push(Answer::Candidates { ids, now });
    assert(all.drop_last() =~= answers);
    law_accepted_ballots(request.candidate_ids@, rules, ids@);
}

/// How a request ends once its vote was to be stored: with success if the nonce
/// was fresh, and else refused as used.
pub proof fn law_after_storing(
    request: CastVoteRequest,
    answers: Seq<Answer>,
    was_new: bool,
    ask: Ask,
)
    requires
        asked_after(request, answers) is RecordVote,
        ask@ == asked_after(request, answers.push(Answer::Recorded { was_new })),
    ensures
        was_new ==> (ask matches Ask::Finish { outcome: Ok(_) }),
        !was_new ==> ends_with(ask, "NONCE_ALREADY_USED: This voting token has already been used"@),
{
    let all = answers.push(Answer::Recorded { was_new });
    assert(all.drop_last() =~= answers);
    law_refusals_in_words(request.h_n, request.h_n);
}

/// Whatever a request has come to, a failure ends it with the words of the
/// failure.
pub proof fn law_after_a_failure(
    request: CastVoteRequest,
    answers: Seq<Answer>,
    words: String,
    ask: Ask,
)
    requires
        ask@ == asked_after(request, answers.push(Answer::Failure { words })),
    ensures
        ends_with(ask, words@),
{
    let all = answers.push(Answer::Failure { words });
    assert(all.drop_last() =~= answers);
}

} // verus!
