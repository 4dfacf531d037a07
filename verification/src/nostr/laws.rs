//! What holds of every event that is published and of every reply.

use crate::counting::laws::law_wire_names_differ;
use crate::counting::{
    rounds_tell_votes, tally_tells_votes, tells_votes, CandidateTally, CountResult, CountRound,
};
use crate::json::{
    is_json_number, joined, json_array, json_member, json_numbers, json_object, json_string,
    Document,
};
use crate::json_laws::{
    bare, ends, law_lists_tell_numbers_apart, law_strings_tell_texts_apart, lemma_array_cancel,
    lemma_bare_cancel, lemma_decimal_is_bare, lemma_joined_push, lemma_member, lemma_number_is_bare,
    lemma_object_cancel, lemma_signed_decimal_is_bare, member,
};
use crate::nostr::messages::{
    request_id_in, text_of_member, ErrorResponse, OkResponse, OutboundMessage,
};
use crate::nostr::publisher::{
    candidate_json, election_content, line_json, next_stamp, result_content, round_json,
    sheet_member, Coordinate,
};
use crate::text::{decimal, law_decimal_reads_back, law_signed_decimal_reads_back, signed_decimal};
use crate::types::{Candidate, Election};
use vstd::prelude::*;
use vstd::utf8::encode_utf8;

verus! {

/// The candidates of an announcement, as a list.
pub open spec fn candidates_list(candidates: Seq<Candidate>) -> Seq<char> {
    json_array(candidates.map_values(|candidate: Candidate| candidate_json(candidate)))
}

/// A candidate is written as its id and its name.
pub proof fn law_candidate_text(candidate: Candidate)
    ensures
        candidate_json(candidate) == seq!['{'] + (
            member("id"@, decimal(candidate.id as nat))
            + seq![','] + member("name"@, json_string(candidate.name@))
        ) + seq!['}'],
{
    reveal_strlit("id");
    reveal_strlit("name");
    lemma_member("id"@, decimal(candidate.id as nat));
    lemma_member("name"@, json_string(candidate.name@));
    let f = |m: (Seq<char>, Seq<char>)| json_member(m);
    let all = seq![
            ("id"@, decimal(candidate.id as nat)),
            ("name"@, json_string(candidate.name@)),
        ].map_values(f);
    let t0 = seq![member("id"@, decimal(candidate.id as nat))];
    assert(joined(t0) == t0[0]);
    let t1 = t0.push(member("name"@, json_string(candidate.name@)));
    lemma_joined_push(t0, member("name"@, json_string(candidate.name@)));
    assert(all =~= t1);
}

/// An announcement is written as its candidates, and the id, the end, the name,
/// the key, the rules, the start and the status of its election, each as it is on
/// record.
pub proof fn law_announcement_text(election: Election, candidates: Seq<Candidate>)
    ensures
        election_content(election, candidates) == seq!['{'] + (
            member("candidates"@, candidates_list(candidates))
            + seq![','] + member("election_id"@, json_string(election.id@))
            + seq![','] + member("end_time"@, signed_decimal(election.end_time as int))
            + seq![','] + member("name"@, json_string(election.name@))
            + seq![','] + member("rsa_pub_key"@, json_string(election.rsa_pub_key@))
            + seq![','] + member("rules_id"@, json_string(election.rules_id@))
            + seq![','] + member("start_time"@, signed_decimal(election.start_time as int))
            + seq![','] + member("status"@, json_string(election.status@))
        ) + seq!['}'],
{
    reveal_strlit("candidates");
    reveal_strlit("election_id");
    reveal_strlit("end_time");
    reveal_strlit("name");
    reveal_strlit("rsa_pub_key");
    reveal_strlit("rules_id");
    reveal_strlit("start_time");
    reveal_strlit("status");
    lemma_member("candidates"@, candidates_list(candidates));
    lemma_member("election_id"@, json_string(election.id@));
    lemma_member("end_time"@, signed_decimal(election.end_time as int));
    lemma_member("name"@, json_string(election.name@));
    lemma_member("rsa_pub_key"@, json_string(election.rsa_pub_key@));
    lemma_member("rules_id"@, json_string(election.rules_id@));
    lemma_member("start_time"@, signed_decimal(election.start_time as int));
    lemma_member("status"@, json_string(election.status@));
    let f = |m: (Seq<char>, Seq<char>)| json_member(m);
    let all = seq![
            ("candidates"@, candidates_list(candidates)),
            ("election_id"@, json_string(election.id@)),
            ("end_time"@, signed_decimal(election.end_time as int)),
            ("name"@, json_string(election.name@)),
            ("rsa_pub_key"@, json_string(election.rsa_pub_key@)),
            ("rules_id"@, json_string(election.rules_id@)),
            ("start_time"@, signed_decimal(election.start_time as int)),
            ("status"@, json_string(election.status@)),
        ].map_values(f);
    let t0 = seq![member("candidates"@, candidates_list(candidates))];
    assert(joined(t0) == t0[0]);
    let t1 = t0.push(member("election_id"@, json_string(election.id@)));
    lemma_joined_push(t0, member("election_id"@, json_string(election.id@)));
    let t2 = t1.push(member("end_time"@, signed_decimal(election.end_time as int)));
    lemma_joined_push(t1, member("end_time"@, signed_decimal(election.end_time as int)));
    let t3 = t2.push(member("name"@, json_string(election.name@)));
    lemma_joined_push(t2, member("name"@, json_string(election.name@)));
    let t4 = t3.push(member("rsa_pub_key"@, json_string(election.rsa_pub_key@)));
    lemma_joined_push(t3, member("rsa_pub_key"@, json_string(election.rsa_pub_key@)));
    let t5 = t4.push(member("rules_id"@, json_string(election.rules_id@)));
    lemma_joined_push(t4, member("rules_id"@, json_string(election.rules_id@)));
    let t6 = t5.push(member("start_time"@, signed_decimal(election.start_time as int)));
    lemma_joined_push(t5, member("start_time"@, signed_decimal(election.start_time as int)));
    let t7 = t6.push(member("status"@, json_string(election.status@)));
    lemma_joined_push(t6, member("status"@, json_string(election.status@)));
    assert(all =~= t7);
}

/// The lines of a tally, as a list.
pub open spec fn lines_list(lines: Seq<CandidateTally>) -> Seq<char> {
    json_array(lines.map_values(|line: CandidateTally| line_json(line)))
}

/// The rounds of a count, as a list.
pub open spec fn rounds_list(rounds: Seq<CountRound>) -> Seq<char> {
    json_array(rounds.map_values(|round: CountRound| round_json(round)))
}

/// A line of a tally is written as its candidate, its status by its wire name,
/// and its votes as they are.
pub proof fn law_line_text(line: CandidateTally, status: Seq<char>)
    requires
        line.status is Active ==> status == "active"@,
        line.status is Elected ==> status == "elected"@,
        line.status is Excluded ==> status == "excluded"@,
    ensures
        line_json(line) == seq!['{'] + (
            member("candidate_id"@, decimal(line.candidate_id as nat))
            + seq![','] + member("status"@, json_string(status))
            + seq![','] + member("votes"@, line.votes@)
        ) + seq!['}'],
{
    reveal_strlit("candidate_id");
    reveal_strlit("status");
    reveal_strlit("votes");
    lemma_member("candidate_id"@, decimal(line.candidate_id as nat));
    lemma_member("status"@, json_string(status));
    lemma_member("votes"@, line.votes@);
    let f = |m: (Seq<char>, Seq<char>)| json_member(m);
    let all = seq![
            ("candidate_id"@, decimal(line.candidate_id as nat)),
            ("status"@, json_string(status)),
            ("votes"@, line.votes@),
        ].map_values(f);
    let t0 = seq![member("candidate_id"@, decimal(line.candidate_id as nat))];
    assert(joined(t0) == t0[0]);
    let t1 = t0.push(member("status"@, json_string(status)));
    lemma_joined_push(t0, member("status"@, json_string(status)));
    let t2 = t1.push(member("votes"@, line.votes@));
    lemma_joined_push(t1, member("votes"@, line.votes@));
    assert(all =~= t2);
}

/// A round of a count is written as what was done in it, its number and its
/// tally.
pub proof fn law_round_text(round: CountRound)
    ensures
        round_json(round) == seq!['{'] + (
            member("action"@, json_string(round.action@))
            + seq![','] + member("round"@, decimal(round.round as nat))
            + seq![','] + member("tallies"@, lines_list(round.tallies@))
        ) + seq!['}'],
{
    reveal_strlit("action");
    reveal_strlit("round");
    reveal_strlit("tallies");
    lemma_member("action"@, json_string(round.action@));
    lemma_member("round"@, decimal(round.round as nat));
    lemma_member("tallies"@, lines_list(round.tallies@));
    let f = |m: (Seq<char>, Seq<char>)| json_member(m);
    let all = seq![
            ("action"@, json_string(round.action@)),
            ("round"@, decimal(round.round as nat)),
            ("tallies"@, lines_list(round.tallies@)),
        ].map_values(f);
    let t0 = seq![member("action"@, json_string(round.action@))];
    assert(joined(t0) == t0[0]);
    let t1 = t0.push(member("round"@, decimal(round.round as nat)));
    lemma_joined_push(t0, member("round"@, decimal(round.round as nat)));
    let t2 = t1.push(member("tallies"@, lines_list(round.tallies@)));
    lemma_joined_push(t1, member("tallies"@, lines_list(round.tallies@)));
    assert(all =~= t2);
}

/// A result without rounds is written as who is elected, the id, the name and
/// the rules of its election, and the tally.
pub proof fn law_result_text(election: Election, result: CountResult)
    requires
        result.count_sheet is None,
    ensures
        result_content(election, result) == seq!['{'] + (
            member("elected"@, json_numbers(result.elected@))
            + seq![','] + member("election_id"@, json_string(election.id@))
            + seq![','] + member("name"@, json_string(election.name@))
            + seq![','] + member("rules_id"@, json_string(election.rules_id@))
            + seq![','] + member("tally"@, lines_list(result.tally@))
        ) + seq!['}'],
{
    reveal_strlit("elected");
    reveal_strlit("election_id");
    reveal_strlit("name");
    reveal_strlit("rules_id");
    reveal_strlit("tally");
    lemma_member("elected"@, json_numbers(result.elected@));
    lemma_member("election_id"@, json_string(election.id@));
    lemma_member("name"@, json_string(election.name@));
    lemma_member("rules_id"@, json_string(election.rules_id@));
    lemma_member("tally"@, lines_list(result.tally@));
    let f = |m: (Seq<char>, Seq<char>)| json_member(m);
    let all = seq![
            ("elected"@, json_numbers(result.elected@)),
            ("election_id"@, json_string(election.id@)),
            ("name"@, json_string(election.name@)),
            ("rules_id"@, json_string(election.rules_id@)),
            ("tally"@, lines_list(result.tally@)),
        ].map_values(f);
    let t0 = seq![member("elected"@, json_numbers(result.elected@))];
    assert(joined(t0) == t0[0]);
    let t1 = t0.push(member("election_id"@, json_string(election.id@)));
    lemma_joined_push(t0, member("election_id"@, json_string(election.id@)));
    let t2 = t1.push(member("name"@, json_string(election.name@)));
    lemma_joined_push(t1, member("name"@, json_string(election.name@)));
    let t3 = t2.push(member("rules_id"@, json_string(election.rules_id@)));
    lemma_joined_push(t2, member("rules_id"@, json_string(election.rules_id@)));
    let t4 = t3.push(member("tally"@, lines_list(result.tally@)));
    lemma_joined_push(t3, member("tally"@, lines_list(result.tally@)));
    assert(all =~= t4);
    assert(sheet_member(result.count_sheet) + seq![
            ("elected"@, json_numbers(result.elected@)),
            ("election_id"@, json_string(election.id@)),
            ("name"@, json_string(election.name@)),
            ("rules_id"@, json_string(election.rules_id@)),
            ("tally"@, lines_list(result.tally@)),
        ] =~= seq![
            ("elected"@, json_numbers(result.elected@)),
            ("election_id"@, json_string(election.id@)),
            ("name"@, json_string(election.name@)),
            ("rules_id"@, json_string(election.rules_id@)),
            ("tally"@, lines_list(result.tally@)),
        ]);
}

/// A result with rounds is written like one without, with the rounds in front.
pub proof fn law_result_text_with_rounds(
    election: Election,
    result: CountResult,
    rounds: Vec<CountRound>,
)
    requires
        result.count_sheet == Some(rounds),
    ensures
        result_content(election, result) == seq!['{'] + (
            member("count_sheet"@, rounds_list(rounds@))
            + seq![','] + member("elected"@, json_numbers(result.elected@))
            + seq![','] + member("election_id"@, json_string(election.id@))
            + seq![','] + member("name"@, json_string(election.name@))
            + seq![','] + member("rules_id"@, json_string(election.rules_id@))
            + seq![','] + member("tally"@, lines_list(result.tally@))
        ) + seq!['}'],
{
    reveal_strlit("count_sheet");
    reveal_strlit("elected");
    reveal_strlit("election_id");
    reveal_strlit("name");
    reveal_strlit("rules_id");
    reveal_strlit("tally");
    lemma_member("count_sheet"@, rounds_list(rounds@));
    lemma_member("elected"@, json_numbers(result.elected@));
    lemma_member("election_id"@, json_string(election.id@));
    lemma_member("name"@, json_string(election.name@));
    lemma_member("rules_id"@, json_string(election.rules_id@));
    lemma_member("tally"@, lines_list(result.tally@));
    let f = |m: (Seq<char>, Seq<char>)| json_member(m);
    let all = seq![
            ("count_sheet"@, rounds_list(rounds@)),
            ("elected"@, json_numbers(result.elected@)),
            ("election_id"@, json_string(election.id@)),
            ("name"@, json_string(election.name@)),
            ("rules_id"@, json_string(election.rules_id@)),
            ("tally"@, lines_list(result.tally@)),
        ].map_values(f);
    let t0 = seq![member("count_sheet"@, rounds_list(rounds@))];
    assert(joined(t0) == t0[0]);
    let t1 = t0.push(member("elected"@, json_numbers(result.elected@)));
    lemma_joined_push(t0, member("elected"@, json_numbers(result.elected@)));
    let t2 = t1.push(member("election_id"@, json_string(election.id@)));
    lemma_joined_push(t1, member("election_id"@, json_string(election.id@)));
    let t3 = t2.push(member("name"@, json_string(election.name@)));
    lemma_joined_push(t2, member("name"@, json_string(election.name@)));
    let t4 = t3.push(member("rules_id"@, json_string(election.rules_id@)));
    lemma_joined_push(t3, member("rules_id"@, json_string(election.rules_id@)));
    let t5 = t4.push(member("tally"@, lines_list(result.tally@)));
    lemma_joined_push(t4, member("tally"@, lines_list(result.tally@)));
    assert(all =~= t5);
    assert(sheet_member(result.count_sheet) + seq![
            ("elected"@, json_numbers(result.elected@)),
            ("election_id"@, json_string(election.id@)),
            ("name"@, json_string(election.name@)),
            ("rules_id"@, json_string(election.rules_id@)),
            ("tally"@, lines_list(result.tally@)),
        ] =~= seq![
            ("count_sheet"@, rounds_list(rounds@)),
            ("elected"@, json_numbers(result.elected@)),
            ("election_id"@, json_string(election.id@)),
            ("name"@, json_string(election.name@)),
            ("rules_id"@, json_string(election.rules_id@)),
            ("tally"@, lines_list(result.tally@)),
        ]);
}

/// Candidates are told apart by how they are written, whatever follows.
proof fn lemma_candidate_cancel(a: Candidate, u: Seq<char>, b: Candidate, v: Seq<char>)
    requires
        candidate_json(a) + u == candidate_json(b) + v,
    ensures
        a.id == b.id,
        a.name@ == b.name@,
        u == v,
{
    let ma = seq![("id"@, decimal(a.id as nat)), ("name"@, json_string(a.name@))];
    let mb = seq![("id"@, decimal(b.id as nat)), ("name"@, json_string(b.name@))];
    assert forall|i: int, x: Seq<char>, y: Seq<char>|
        #![trigger ma[i].1 + x, mb[i].1 + y]
        0 <= i < ma.len() && ends(x) && ends(y) && ma[i].1 + x == mb[i].1 + y implies ma[i].1
        == mb[i].1 by {
        if i == 0 {
            lemma_decimal_is_bare(a.id as nat);
            lemma_decimal_is_bare(b.id as nat);
            lemma_bare_cancel(ma[0].1, x, mb[0].1, y);
        } else {
            law_strings_tell_texts_apart(a.name@, x, b.name@, y);
        }
    }
    lemma_object_cancel(ma, u, mb, v);
    assert(ma[0].1 == mb[0].1 && ma[1].1 == mb[1].1);
    law_decimal_reads_back(a.id as nat);
    law_decimal_reads_back(b.id as nat);
    law_strings_tell_texts_apart(a.name@, u, b.name@, u);
}

/// Lists of candidates are told apart by how they are written, whatever follows.
proof fn lemma_candidates_cancel(a: Seq<Candidate>, u: Seq<char>, b: Seq<Candidate>, v: Seq<char>)
    requires
        candidates_list(a) + u == candidates_list(b) + v,
    ensures
        a.len() == b.len(),
        forall|i: int|
            0 <= i < a.len() ==> (#[trigger] a[i]).id == b[i].id && a[i].name@ == b[i].name@,
        candidates_list(a) == candidates_list(b),
        u == v,
{
    let f = |candidate: Candidate| candidate_json(candidate);
    let ta = a.map_values(f);
    let tb = b.map_values(f);
    assert forall|i: int| 0 <= i < ta.len() implies (#[trigger] ta[i]).len() > 0 && ta[i][0]
        == '{' by {}
    assert forall|i: int| 0 <= i < tb.len() implies (#[trigger] tb[i]).len() > 0 && tb[i][0]
        == '{' by {}
    assert forall|i: int, x: Seq<char>, y: Seq<char>|
        #![trigger ta[i] + x, tb[i] + y]
        0 <= i < ta.len() && i < tb.len() && ends(x) && ends(y) && ta[i] + x == tb[i]
            + y implies ta[i] == tb[i] by {
        lemma_candidate_cancel(a[i], x, b[i], y);
        assert((ta[i] + x).take(ta[i].len() as int) =~= ta[i]);
        assert((ta[i] + x).len() - x.len() == ta[i].len());
        assert((tb[i] + y).take(tb[i].len() as int) =~= tb[i]);
    }
    lemma_array_cancel(ta, u, tb, v);
    assert(ta.len() == a.len() && tb.len() == b.len());
    assert forall|i: int| 0 <= i < a.len() implies (#[trigger] a[i]).id == b[i].id && a[i].name@
        == b[i].name@ by {
        assert(ta[i] == tb[i]);
        lemma_candidate_cancel(a[i], u, b[i], u);
    }
}

/// Announcements tell records apart: what is announced of two elections is the
/// same only if they have the same id, name, times, status, rules and key, and
/// the same candidates in the same order.
pub proof fn law_announcements_tell_elections_apart(
    a: Election,
    candidates_a: Seq<Candidate>,
    b: Election,
    candidates_b: Seq<Candidate>,
)
    requires
        election_content(a, candidates_a) == election_content(b, candidates_b),
    ensures
        a.id@ == b.id@,
        a.name@ == b.name@,
        a.start_time == b.start_time,
        a.end_time == b.end_time,
        a.status@ == b.status@,
        a.rules_id@ == b.rules_id@,
        a.rsa_pub_key@ == b.rsa_pub_key@,
        candidates_a.len() == candidates_b.len(),
        forall|i: int|
            0 <= i < candidates_a.len() ==> (#[trigger] candidates_a[i]).id == candidates_b[i].id
                && candidates_a[i].name@ == candidates_b[i].name@,
{
    let ma = seq![
            ("candidates"@, candidates_list(candidates_a)),
            ("election_id"@, json_string(a.id@)),
            ("end_time"@, signed_decimal(a.end_time as int)),
            ("name"@, json_string(a.name@)),
            ("rsa_pub_key"@, json_string(a.rsa_pub_key@)),
            ("rules_id"@, json_string(a.rules_id@)),
            ("start_time"@, signed_decimal(a.start_time as int)),
            ("status"@, json_string(a.status@)),
        ];
    let mb = seq![
            ("candidates"@, candidates_list(candidates_b)),
            ("election_id"@, json_string(b.id@)),
            ("end_time"@, signed_decimal(b.end_time as int)),
            ("name"@, json_string(b.name@)),
            ("rsa_pub_key"@, json_string(b.rsa_pub_key@)),
            ("rules_id"@, json_string(b.rules_id@)),
            ("start_time"@, signed_decimal(b.start_time as int)),
            ("status"@, json_string(b.status@)),
        ];
    let none = Seq::<char>::empty();
    assert(json_object(ma) + none =~= json_object(ma));
    assert(json_object(mb) + none =~= json_object(mb));
    assert forall|i: int, x: Seq<char>, y: Seq<char>|
        #![trigger ma[i].1 + x, mb[i].1 + y]
        0 <= i < ma.len() && ends(x) && ends(y) && ma[i].1 + x == mb[i].1 + y implies ma[i].1
        == mb[i].1 by {
        if i == 0 {
            lemma_candidates_cancel(candidates_a, x, candidates_b, y);
        } else if i == 2 {
            lemma_signed_decimal_is_bare(a.end_time as int);
            lemma_signed_decimal_is_bare(b.end_time as int);
            lemma_bare_cancel(ma[2].1, x, mb[2].1, y);
        } else if i == 6 {
            lemma_signed_decimal_is_bare(a.start_time as int);
            lemma_signed_decimal_is_bare(b.start_time as int);
            lemma_bare_cancel(ma[6].1, x, mb[6].1, y);
        } else if i == 1 {
            law_strings_tell_texts_apart(a.id@, x, b.id@, y);
        } else if i == 3 {
            law_strings_tell_texts_apart(a.name@, x, b.name@, y);
        } else if i == 4 {
            law_strings_tell_texts_apart(a.rsa_pub_key@, x, b.rsa_pub_key@, y);
        } else if i == 5 {
            law_strings_tell_texts_apart(a.rules_id@, x, b.rules_id@, y);
        } else {
            law_strings_tell_texts_apart(a.status@, x, b.status@, y);
        }
    }
    lemma_object_cancel(ma, none, mb, none);
    assert(ma[0] == mb[0] && ma[1] == mb[1] && ma[2] == mb[2] && ma[3] == mb[3]);
    assert(ma[4] == mb[4] && ma[5] == mb[5] && ma[6] == mb[6] && ma[7] == mb[7]);
    lemma_candidates_cancel(candidates_a, none, candidates_b, none);
    law_signed_decimal_reads_back(a.end_time as int);
    law_signed_decimal_reads_back(b.end_time as int);
    law_signed_decimal_reads_back(a.start_time as int);
    law_signed_decimal_reads_back(b.start_time as int);
    law_strings_tell_texts_apart(a.id@, none, b.id@, none);
    law_strings_tell_texts_apart(a.name@, none, b.name@, none);
    law_strings_tell_texts_apart(a.rsa_pub_key@, none, b.rsa_pub_key@, none);
    law_strings_tell_texts_apart(a.rules_id@, none, b.rules_id@, none);
    law_strings_tell_texts_apart(a.status@, none, b.status@, none);
}

proof fn lemma_votes_are_bare(text: Seq<char>)
    requires
        tells_votes(text),
    ensures
        bare(text),
        text.len() > 0,
{
    reveal_strlit("null");
    if is_json_number(text) {
        lemma_number_is_bare(text);
    }
}

/// Whether two lines of a tally say the same.
pub open spec fn same_line(a: CandidateTally, b: CandidateTally) -> bool {
    a.candidate_id == b.candidate_id && a.votes@ == b.votes@ && a.status == b.status
}

/// Whether two tallies say the same.
pub open spec fn same_lines(a: Seq<CandidateTally>, b: Seq<CandidateTally>) -> bool {
    a.len() == b.len() && forall|i: int| 0 <= i < a.len() ==> same_line(#[trigger] a[i], b[i])
}

/// Whether two rounds of a count say the same.
pub open spec fn same_round(a: CountRound, b: CountRound) -> bool {
    a.round == b.round && a.action@ == b.action@ && same_lines(a.tallies@, b.tallies@)
}

/// Lines are told apart by how they are written, whatever follows.
proof fn lemma_line_cancel(a: CandidateTally, u: Seq<char>, b: CandidateTally, v: Seq<char>)
    requires
        line_json(a) + u == line_json(b) + v,
        tells_votes(a.votes@),
        tells_votes(b.votes@),
    ensures
        same_line(a, b),
        u == v,
{
    let ma = seq![
        ("candidate_id"@, decimal(a.candidate_id as nat)),
        ("status"@, json_string(a.status.wire_name())),
        ("votes"@, a.votes@),
    ];
    let mb = seq![
        ("candidate_id"@, decimal(b.candidate_id as nat)),
        ("status"@, json_string(b.status.wire_name())),
        ("votes"@, b.votes@),
    ];
    assert forall|i: int, x: Seq<char>, y: Seq<char>|
        #![trigger ma[i].1 + x, mb[i].1 + y]
        0 <= i < ma.len() && ends(x) && ends(y) && ma[i].1 + x == mb[i].1 + y implies ma[i].1
        == mb[i].1 by {
        if i == 0 {
            lemma_decimal_is_bare(a.candidate_id as nat);
            lemma_decimal_is_bare(b.candidate_id as nat);
            lemma_bare_cancel(ma[0].1, x, mb[0].1, y);
        } else if i == 1 {
            law_strings_tell_texts_apart(a.status.wire_name(), x, b.status.wire_name(), y);
        } else {
            lemma_votes_are_bare(a.votes@);
            lemma_votes_are_bare(b.votes@);
            lemma_bare_cancel(ma[2].1, x, mb[2].1, y);
        }
    }
    lemma_object_cancel(ma, u, mb, v);
    assert(ma[0] == mb[0] && ma[1] == mb[1] && ma[2] == mb[2]);
    law_decimal_reads_back(a.candidate_id as nat);
    law_decimal_reads_back(b.candidate_id as nat);
    law_strings_tell_texts_apart(a.status.wire_name(), u, b.status.wire_name(), u);
    law_wire_names_differ(a.status, b.status);
}

/// Tallies are told apart by how they are written, whatever follows.
proof fn lemma_lines_cancel(a: Seq<CandidateTally>, u: Seq<char>, b: Seq<CandidateTally>, v: Seq<char>)
    requires
        lines_list(a) + u == lines_list(b) + v,
        tally_tells_votes(a),
        tally_tells_votes(b),
    ensures
        a.len() == b.len(),
        forall|i: int| 0 <= i < a.len() ==> same_line(#[trigger] a[i], b[i]),
        lines_list(a) == lines_list(b),
        u == v,
{
    let f = |item: CandidateTally| line_json(item);
    let ta = a.map_values(f);
    let tb = b.map_values(f);
    assert forall|i: int| 0 <= i < ta.len() implies (#[trigger] ta[i]).len() > 0 && ta[i][0]
        == '{' by {}
    assert forall|i: int| 0 <= i < tb.len() implies (#[trigger] tb[i]).len() > 0 && tb[i][0]
        == '{' by {}
    assert forall|i: int, x: Seq<char>, y: Seq<char>|
        #![trigger ta[i] + x, tb[i] + y]
        0 <= i < ta.len() && i < tb.len() && ends(x) && ends(y) && ta[i] + x == tb[i]
            + y implies ta[i] == tb[i] by {
        assert(tells_votes(a[i].votes@) && tells_votes(b[i].votes@));
        lemma_line_cancel(a[i], x, b[i], y);
        assert((ta[i] + x).take(ta[i].len() as int) =~= ta[i]);
        assert((ta[i] + x).len() - x.len() == ta[i].len());
        assert((tb[i] + y).take(tb[i].len() as int) =~= tb[i]);
    }
    lemma_array_cancel(ta, u, tb, v);
    assert(ta.len() == a.len() && tb.len() == b.len());
    assert forall|i: int| 0 <= i < a.len() implies same_line(#[trigger] a[i], b[i]) by {
        assert(ta[i] == tb[i]);
        assert(tells_votes(a[i].votes@) && tells_votes(b[i].votes@));
        lemma_line_cancel(a[i], u, b[i], u);
    }
}

/// Rounds are told apart by how they are written, whatever follows.
proof fn lemma_round_cancel(a: CountRound, u: Seq<char>, b: CountRound, v: Seq<char>)
    requires
        round_json(a) + u == round_json(b) + v,
        tally_tells_votes(a.tallies@),
        tally_tells_votes(b.tallies@),
    ensures
        same_round(a, b),
        u == v,
{
    let ma = seq![
        ("action"@, json_string(a.action@)),
        ("round"@, decimal(a.round as nat)),
        ("tallies"@, lines_list(a.tallies@)),
    ];
    let mb = seq![
        ("action"@, json_string(b.action@)),
        ("round"@, decimal(b.round as nat)),
        ("tallies"@, lines_list(b.tallies@)),
    ];
    assert forall|i: int, x: Seq<char>, y: Seq<char>|
        #![trigger ma[i].1 + x, mb[i].1 + y]
        0 <= i < ma.len() && ends(x) && ends(y) && ma[i].1 + x == mb[i].1 + y implies ma[i].1
        == mb[i].1 by {
        if i == 0 {
            law_strings_tell_texts_apart(a.action@, x, b.action@, y);
        } else if i == 1 {
            lemma_decimal_is_bare(a.round as nat);
            lemma_decimal_is_bare(b.round as nat);
            lemma_bare_cancel(ma[1].1, x, mb[1].1, y);
        } else {
            lemma_lines_cancel(a.tallies@, x, b.tallies@, y);
        }
    }
    lemma_object_cancel(ma, u, mb, v);
    assert(ma[0] == mb[0] && ma[1] == mb[1] && ma[2] == mb[2]);
    law_strings_tell_texts_apart(a.action@, u, b.action@, u);
    law_decimal_reads_back(a.round as nat);
    law_decimal_reads_back(b.round as nat);
    lemma_lines_cancel(a.tallies@, u, b.tallies@, u);
}

/// Lists of rounds are told apart by how they are written, whatever follows.
proof fn lemma_rounds_cancel(a: Seq<CountRound>, u: Seq<char>, b: Seq<CountRound>, v: Seq<char>)
    requires
        rounds_list(a) + u == rounds_list(b) + v,
        rounds_tell_votes(a),
        rounds_tell_votes(b),
    ensures
        a.len() == b.len(),
        forall|i: int| 0 <= i < a.len() ==> same_round(#[trigger] a[i], b[i]),
        rounds_list(a) == rounds_list(b),
        u == v,
{
    let f = |item: CountRound| round_json(item);
    let ta = a.map_values(f);
    let tb = b.map_values(f);
    assert forall|i: int| 0 <= i < ta.len() implies (#[trigger] ta[i]).len() > 0 && ta[i][0]
        == '{' by {}
    assert forall|i: int| 0 <= i < tb.len() implies (#[trigger] tb[i]).len() > 0 && tb[i][0]
        == '{' by {}
    assert forall|i: int, x: Seq<char>, y: Seq<char>|
        #![trigger ta[i] + x, tb[i] + y]
        0 <= i < ta.len() && i < tb.len() && ends(x) && ends(y) && ta[i] + x == tb[i]
            + y implies ta[i] == tb[i] by {
        assert(tally_tells_votes(a[i].tallies@) && tally_tells_votes(b[i].tallies@));
        lemma_round_cancel(a[i], x, b[i], y);
        assert((ta[i] + x).take(ta[i].len() as int) =~= ta[i]);
        assert((ta[i] + x).len() - x.len() == ta[i].len());
        assert((tb[i] + y).take(tb[i].len() as int) =~= tb[i]);
    }
    lemma_array_cancel(ta, u, tb, v);
    assert(ta.len() == a.len() && tb.len() == b.len());
    assert forall|i: int| 0 <= i < a.len() implies same_round(#[trigger] a[i], b[i]) by {
        assert(ta[i] == tb[i]);
        assert(tally_tells_votes(a[i].tallies@) && tally_tells_votes(b[i].tallies@));
        lemma_round_cancel(a[i], u, b[i], u);
    }
}

/// What a result says, beside its rounds, when it is written at the end of an
/// object.
spec fn tail_members(election: Election, result: CountResult) -> Seq<(Seq<char>, Seq<char>)> {
    seq![
        ("elected"@, json_numbers(result.elected@)),
        ("election_id"@, json_string(election.id@)),
        ("name"@, json_string(election.name@)),
        ("rules_id"@, json_string(election.rules_id@)),
        ("tally"@, lines_list(result.tally@)),
    ]
}

proof fn lemma_tail_cancel(
    a: Election,
    r: CountResult,
    b: Election,
    q: CountResult,
    i: int,
    x: Seq<char>,
    y: Seq<char>,
)
    requires
        0 <= i < 5,
        tally_tells_votes(r.tally@),
        tally_tells_votes(q.tally@),
        tail_members(a, r)[i].1 + x == tail_members(b, q)[i].1 + y,
    ensures
        tail_members(a, r)[i].1 == tail_members(b, q)[i].1,
        i == 0 ==> r.elected@ == q.elected@,
        i == 1 ==> a.id@ == b.id@,
        i == 2 ==> a.name@ == b.name@,
        i == 3 ==> a.rules_id@ == b.rules_id@,
        i == 4 ==> same_lines(r.tally@, q.tally@),
{
    if i == 0 {
        law_lists_tell_numbers_apart(r.elected@, x, q.elected@, y);
    } else if i == 1 {
        law_strings_tell_texts_apart(a.id@, x, b.id@, y);
    } else if i == 2 {
        law_strings_tell_texts_apart(a.name@, x, b.name@, y);
    } else if i == 3 {
        law_strings_tell_texts_apart(a.rules_id@, x, b.rules_id@, y);
    } else {
        lemma_lines_cancel(r.tally@, x, q.tally@, y);
    }
}

/// A result with rounds is never written like one without.
proof fn lemma_rounds_show(a: Election, r: CountResult, b: Election, q: CountResult)
    requires
        r.count_sheet is Some,
        q.count_sheet is None,
    ensures
        result_content(a, r) != result_content(b, q),
{
    law_result_text_with_rounds(a, r, r.count_sheet->0);
    law_result_text(b, q);
    reveal_strlit("count_sheet");
    reveal_strlit("elected");
    assert(result_content(a, r)[2] == 'c');
    assert(result_content(b, q)[2] == 'e');
}

/// Results tell counts apart: two results are published with the same content
/// only if their elections have the same id, name and rules, and they say the same
/// of who is elected, in the same order, of the tally, and of the rounds.
pub proof fn law_results_tell_counts_apart(
    a: Election,
    r: CountResult,
    b: Election,
    q: CountResult,
)
    requires
        r.well_formed(),
        q.well_formed(),
        result_content(a, r) == result_content(b, q),
    ensures
        a.id@ == b.id@,
        a.name@ == b.name@,
        a.rules_id@ == b.rules_id@,
        r.elected@ == q.elected@,
        same_lines(r.tally@, q.tally@),
        r.count_sheet is Some <==> q.count_sheet is Some,
        r.count_sheet matches Some(rounds) ==> rounds@.len() == (q.count_sheet->0)@.len()
            && forall|i: int|
            0 <= i < rounds@.len() ==> same_round(#[trigger] rounds@[i], (q.count_sheet->0)@[i]),
{
    let none = Seq::<char>::empty();
    if r.count_sheet is Some && q.count_sheet is None {
        lemma_rounds_show(a, r, b, q);
    }
    if r.count_sheet is None && q.count_sheet is Some {
        lemma_rounds_show(b, q, a, r);
    }
    let sa = sheet_member(r.count_sheet);
    let sb = sheet_member(q.count_sheet);
    let ta = tail_members(a, r);
    let tb = tail_members(b, q);
    let ma = sa + ta;
    let mb = sb + tb;
    let k = sa.len() as int;
    assert(json_object(ma) + none =~= json_object(ma));
    assert(json_object(mb) + none =~= json_object(mb));
    assert(forall|i: int| 0 <= i < 5 ==> ma[k + i] == #[trigger] ta[i] && mb[k + i] == tb[i]);
    assert forall|i: int| 0 <= i < ma.len() implies (#[trigger] ma[i]).0 == mb[i].0 by {
        if i >= k {
            assert(ma[i] == ta[i - k] && mb[i] == tb[i - k]);
        }
    }
    assert forall|i: int, x: Seq<char>, y: Seq<char>|
        #![trigger ma[i].1 + x, mb[i].1 + y]
        0 <= i < ma.len() && ends(x) && ends(y) && ma[i].1 + x == mb[i].1 + y implies ma[i].1
        == mb[i].1 by {
        if i < k {
            lemma_rounds_cancel((r.count_sheet->0)@, x, (q.count_sheet->0)@, y);
        } else {
            assert(ma[i] == ta[i - k] && mb[i] == tb[i - k]);
            lemma_tail_cancel(a, r, b, q, i - k, x, y);
        }
    }
    lemma_object_cancel(ma, none, mb, none);
    assert forall|i: int| 0 <= i < 5 implies ta[i] == tb[i] by {
        assert(ma[k + i] == ta[i] && mb[k + i] == tb[i]);
    }
    lemma_tail_cancel(a, r, b, q, 0, none, none);
    lemma_tail_cancel(a, r, b, q, 1, none, none);
    lemma_tail_cancel(a, r, b, q, 2, none, none);
    lemma_tail_cancel(a, r, b, q, 3, none, none);
    lemma_tail_cancel(a, r, b, q, 4, none, none);
    if k > 0 {
        assert(ma[0] == sa[0] && mb[0] == sb[0]);
        lemma_rounds_cancel((r.count_sheet->0)@, none, (q.count_sheet->0)@, none);
    }
}

/// A member that is there only if it has a text, with the comma before it.
pub open spec fn further(key: Seq<char>, text: Option<String>) -> Seq<char> {
    match text {
        Some(t) => seq![','] + member(key, json_string(t@)),
        None => Seq::empty(),
    }
}

/// What further members add to an object.
proof fn lemma_further(items: Seq<Seq<char>>, key: Seq<char>, text: Option<String>) -> (all: Seq<
    Seq<char>,
>)
    requires
        items.len() > 0,
    ensures
        joined(all) == joined(items) + further(key, text),
        all == items + match text {
            Some(t) => seq![member(key, json_string(t@))],
            None => Seq::empty(),
        },
{
    match text {
        Some(t) => {
            let item = member(key, json_string(t@));
            lemma_joined_push(items, item);
            assert(items.push(item) =~= items + seq![item]);
            assert(joined(items.push(item)) =~= joined(items) + further(key, text));
            items.push(item)
        },
        None => {
            assert(joined(items) =~= joined(items) + further(key, text));
            assert(items =~= items + Seq::<Seq<char>>::empty());
            items
        },
    }
}

/// A reply of success is written as its status, its action, its blind signature
/// and the request id, each as it is; what is absent is left out.
pub proof fn law_success_text(ok: OkResponse)
    ensures
        json_object(OutboundMessage::Success(ok).wire_members()) == seq!['{'] + (member(
            "status"@,
            json_string(ok.status@),
        ) + seq![','] + member("action"@, json_string(ok.action@)) + further(
            "blind_signature"@,
            ok.blind_signature,
        ) + further("request_id"@, ok.request_id)) + seq!['}'],
{
    reveal_strlit("status");
    reveal_strlit("action");
    reveal_strlit("blind_signature");
    reveal_strlit("request_id");
    lemma_member("status"@, json_string(ok.status@));
    lemma_member("action"@, json_string(ok.action@));
    if ok.blind_signature is Some {
        lemma_member("blind_signature"@, json_string((ok.blind_signature->0)@));
    }
    if ok.request_id is Some {
        lemma_member("request_id"@, json_string((ok.request_id->0)@));
    }
    let f = |m: (Seq<char>, Seq<char>)| json_member(m);
    let all = OutboundMessage::Success(ok).wire_members().map_values(f);
    let t0 = seq![member("status"@, json_string(ok.status@))];
    assert(joined(t0) == t0[0]);
    lemma_joined_push(t0, member("action"@, json_string(ok.action@)));
    let t1 = t0.push(member("action"@, json_string(ok.action@)));
    let t2 = lemma_further(t1, "blind_signature"@, ok.blind_signature);
    let t3 = lemma_further(t2, "request_id"@, ok.request_id);
    assert(all =~= t3);
}

/// A reply of an error is written as its status, its code, its message and the
/// request id, each as it is; what is absent is left out.
pub proof fn law_error_text(error: ErrorResponse)
    ensures
        json_object(OutboundMessage::Error(error).wire_members()) == seq!['{'] + (member(
            "status"@,
            json_string(error.status@),
        ) + seq![','] + member("code"@, json_string(error.code@)) + seq![','] + member(
            "message"@,
            json_string(error.message@),
        ) + further("request_id"@, error.request_id)) + seq!['}'],
{
    reveal_strlit("status");
    reveal_strlit("code");
    reveal_strlit("message");
    reveal_strlit("request_id");
    lemma_member("status"@, json_string(error.status@));
    lemma_member("code"@, json_string(error.code@));
    lemma_member("message"@, json_string(error.message@));
    if error.request_id is Some {
        lemma_member("request_id"@, json_string((error.request_id->0)@));
    }
    let f = |m: (Seq<char>, Seq<char>)| json_member(m);
    let all = OutboundMessage::Error(error).wire_members().map_values(f);
    let t0 = seq![member("status"@, json_string(error.status@))];
    assert(joined(t0) == t0[0]);
    lemma_joined_push(t0, member("code"@, json_string(error.code@)));
    let t1 = t0.push(member("code"@, json_string(error.code@)));
    lemma_joined_push(t1, member("message"@, json_string(error.message@)));
    let t2 = t1.push(member("message"@, json_string(error.message@)));
    let t3 = lemma_further(t2, "request_id"@, error.request_id);
    assert(all =~= t3);
}

/// A plain reply says what it was made of: an error its code and its words, under
/// the status of an error; a success its action, under that of a success.
pub proof fn law_replies_say_what_they_are(
    reply: OutboundMessage,
    code: Seq<char>,
    words: Seq<char>,
)
    ensures
        reply.is_error(code, words) ==> (reply matches OutboundMessage::Error(error)
            && error.status@ == "error"@ && error.code@ == code && error.message@ == words
            && error.request_id is None),
        reply.is_ok(code) ==> (reply matches OutboundMessage::Success(ok) && ok.status@ == "ok"@
            && ok.action@ == code && ok.blind_signature is None && ok.request_id is None),
{
}

/// The first member of a key is the one that counts.
proof fn lemma_member_found(
    members: Seq<(Seq<char>, Option<Seq<char>>)>,
    key: Seq<char>,
    i: int,
)
    requires
        0 <= i <= members.len(),
        forall|j: int| 0 <= j < i ==> (#[trigger] members[j]).0 != key,
        i < members.len() ==> members[i].0 == key,
    ensures
        text_of_member(members, key) == if i < members.len() {
            members[i].1
        } else {
            None
        },
    decreases i,
{
    if i > 0 {
        let rest = members.drop_first();
        assert(members[0].0 != key);
        assert forall|j: int| 0 <= j < i - 1 implies (#[trigger] rest[j]).0 != key by {
            assert(rest[j] == members[j + 1]);
        }
        lemma_member_found(rest, key, i - 1);
    }
}

/// The request id of a request is the text of its `request_id` member, whatever
/// else the request holds, unless it is longer than 64 bytes.
pub proof fn law_request_id_is_found(
    document: Document,
    entries: Vec<(String, Option<String>)>,
    i: int,
)
    requires
        document == Document::Object(entries),
        0 <= i < entries@.len(),
        entries@[i].0@ == "request_id"@,
        forall|j: int| 0 <= j < i ==> (#[trigger] entries@[j]).0@ != "request_id"@,
    ensures
        entries@[i].1 matches Some(id) ==> request_id_in(document@) == if encode_utf8(id@).len()
            <= 64 {
            Some(id@)
        } else {
            None
        },
        entries@[i].1 is None ==> request_id_in(document@) is None,
{
    let members = document@->0;
    assert(members[i].0 == entries@[i].0@);
    assert forall|j: int| 0 <= j < i implies (#[trigger] members[j]).0 != "request_id"@ by {
        assert(entries@[j].0@ != "request_id"@);
    }
    lemma_member_found(members, "request_id"@, i);
}

/// A request that is no object, or has no `request_id` member, has no request id.
pub proof fn law_no_request_id_is_made_up(document: Document)
    requires
        document matches Document::Object(entries) ==> forall|j: int|
            0 <= j < entries@.len() ==> (#[trigger] entries@[j]).0@ != "request_id"@,
    ensures
        request_id_in(document@) is None,
{
    match document {
        Document::Object(entries) => {
            let members = document@->0;
            assert forall|j: int| 0 <= j < members.len() implies (#[trigger] members[j]).0
                != "request_id"@ by {
                assert(entries@[j].0@ != "request_id"@);
            }
            lemma_member_found(members, "request_id"@, members.len() as int);
        },
        Document::Other => {},
    }
}

/// A version that is not published after the last one has the time of the last
/// and one second more.
pub proof fn law_stamps_follow_the_last(
    clock: Map<Coordinate, nat>,
    event: Coordinate,
    now: nat,
)
    requires
        clock.dom().contains(event),
        clock[event] >= now,
    ensures
        next_stamp(clock, event, now) == clock[event] + 1,
{
}

} // verus!
