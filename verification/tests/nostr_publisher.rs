use ec::counting::{CandidateStatus, CandidateTally, CountResult, CountRound};
use ec::nostr::publisher::{
    publish_election_event, publish_result_event, PublishClock, ELECTION_EVENT_KIND,
    RESULT_EVENT_KIND,
};
use ec::types::{Candidate, Election};

const NOW: u64 = 1_700_000_000;

fn make_election(id: &str) -> Election {
    Election {
        id: id.to_string(),
        name: "Test Election".to_string(),
        start_time: 1000,
        end_time: 2000,
        status: "open".to_string(),
        rules_id: "plurality".to_string(),
        rsa_pub_key: "pk".to_string(),
        created_at: 1000,
        results_published: 0,
    }
}

/// A line of a tally with a number of votes.
fn line(candidate_id: u8, votes: f64, status: CandidateStatus) -> CandidateTally {
    CandidateTally { candidate_id, votes: serde_json::Value::from(votes).to_string(), status }
}

fn make_result(with_count_sheet: bool) -> CountResult {
    let tally = vec![
        line(1, 3.0, CandidateStatus::Elected),
        line(2, 1.0, CandidateStatus::Excluded),
    ];
    let rounds = vec![CountRound {
        round: 1,
        tallies: tally.clone(),
        action: "Elected: 1".to_string(),
    }];
    CountResult {
        elected: vec![1],
        count_sheet: if with_count_sheet { Some(rounds) } else { None },
        tally,
    }
}

fn candidate(id: u8, election_id: &str, name: &str) -> Candidate {
    Candidate { id, election_id: election_id.to_string(), name: name.to_string() }
}

#[test]
fn publishes_election_announcement_with_candidates() {
    let mut clock = PublishClock::new();
    let candidates = vec![candidate(1, "e1", "Alice"), candidate(2, "e1", "Bob")];
    let draft = publish_election_event(&mut clock, &make_election("e1"), &candidates, NOW);
    assert_eq!(draft.kind, 35_000);
    assert_eq!(draft.identifier, "e1");
    assert_eq!(draft.created_at, NOW);
    assert_eq!(
        draft.content,
        concat_lines(&[
            r#"{"candidates":[{"id":1,"name":"Alice"},{"id":2,"name":"Bob"}],"#,
            r#""election_id":"e1","end_time":2000,"name":"Test Election","#,
            r#""rsa_pub_key":"pk","rules_id":"plurality","start_time":1000,"status":"open"}"#,
        ])
    );
}

fn concat_lines(lines: &[&str]) -> String {
    lines.concat()
}

#[test]
fn publishes_result_event_with_and_without_count_sheet() {
    let mut clock = PublishClock::new();
    let election = make_election("e1");

    let draft = publish_result_event(&mut clock, &election, &make_result(false), NOW);
    assert_eq!(draft.kind, 35_001);
    let lines = [
        r#"[{"candidate_id":1,"status":"elected","votes":3.0},"#,
        r#"{"candidate_id":2,"status":"excluded","votes":1.0}]"#,
    ];
    let tally = concat_lines(&lines);
    let rest = format!(
        r#""elected":[1],"election_id":"e1","name":"Test Election","rules_id":"plurality","tally":{tally}}}"#
    );
    assert_eq!(draft.content, format!("{{{rest}"));

    let draft = publish_result_event(&mut clock, &election, &make_result(true), NOW);
    assert_eq!(
        draft.content,
        format!(
            r#"{{"count_sheet":[{{"action":"Elected: 1","round":1,"tallies":{tally}}}],{rest}"#
        )
    );
}

#[test]
fn election_republished_in_the_same_second_gets_increasing_created_at() {
    let mut clock = PublishClock::new();
    let election = make_election("e-burst");
    let candidates: Vec<Candidate> =
        (1..=3).map(|id| candidate(id, "e-burst", &format!("Candidate {id}"))).collect();
    let mut stamps = vec![];
    for upto in 0..3 {
        let draft = publish_election_event(&mut clock, &election, &candidates[..upto], NOW);
        stamps.push(draft.created_at);
    }
    assert!(stamps[0] < stamps[1] && stamps[1] < stamps[2]);
    assert_eq!(stamps, [NOW, NOW + 1, NOW + 2]);
}

#[test]
fn result_republished_in_the_same_second_gets_increasing_created_at() {
    let mut clock = PublishClock::new();
    let election = make_election("r-burst");
    let mut stamps = vec![];
    for with_count_sheet in [false, true] {
        let result = make_result(with_count_sheet);
        stamps.push(publish_result_event(&mut clock, &election, &result, NOW).created_at);
    }
    assert!(stamps[0] < stamps[1]);
    assert_eq!(stamps, [NOW, NOW + 1]);
}

#[test]
fn events_do_not_push_each_other() {
    let mut clock = PublishClock::new();
    assert_eq!(clock.next_created_at(ELECTION_EVENT_KIND, "a", 10), 10);
    assert_eq!(clock.next_created_at(RESULT_EVENT_KIND, "a", 10), 10);
    assert_eq!(clock.next_created_at(ELECTION_EVENT_KIND, "b", 10), 10);
    assert_eq!(clock.next_created_at(ELECTION_EVENT_KIND, "a", 10), 11);
    assert_eq!(clock.last_published(ELECTION_EVENT_KIND, "a"), Some(11));
    assert_eq!(clock.last_published(RESULT_EVENT_KIND, "a"), Some(10));
    assert_eq!(clock.last_published(RESULT_EVENT_KIND, "b"), None);
}

#[test]
fn stamps_increase_though_the_clock_goes_back() {
    let mut clock = PublishClock::new();
    let stamps: Vec<u64> = [100, 90, 101, 110, 110, 50]
        .iter()
        .map(|now| clock.next_created_at(ELECTION_EVENT_KIND, "a", *now))
        .collect();
    assert_eq!(stamps, [100, 101, 102, 110, 111, 112]);
}

#[test]
fn texts_and_times_of_an_announcement_are_written_as_json() {
    let mut clock = PublishClock::new();
    let mut election = make_election("e\"1");
    election.start_time = -5;
    election.end_time = i64::MIN;
    election.name = "L\u{ed}nea\n".to_string();
    let draft = publish_election_event(&mut clock, &election, &[], NOW);
    let json: serde_json::Value = serde_json::from_str(&draft.content).unwrap();
    assert_eq!(json["election_id"], "e\"1");
    assert_eq!(json["start_time"], -5);
    assert_eq!(json["end_time"], i64::MIN);
    assert_eq!(json["name"], "L\u{ed}nea\n");
    assert_eq!(json["candidates"].as_array().unwrap().len(), 0);
    // Keys are in ascending order, and nothing is written twice.
    assert_eq!(json.to_string(), draft.content);
}

#[test]
fn votes_are_published_as_they_were_counted() {
    for (votes, text) in [(0.5, "0.5"), (1.0 / 3.0, "0.3333333333333333"), (1e16, "1e+16")] {
        let tally = vec![line(7, votes, CandidateStatus::Active)];
        let result = CountResult { elected: vec![], tally, count_sheet: None };
        let draft =
            publish_result_event(&mut PublishClock::new(), &make_election("e"), &result, NOW);
        let shown =
            format!(r#""tally":[{{"candidate_id":7,"status":"active","votes":{text}}}]"#);
        assert!(draft.content.contains(&shown), "{}", draft.content);
        let json: serde_json::Value = serde_json::from_str(&draft.content).unwrap();
        assert_eq!(json["tally"][0]["votes"], votes);
        assert_eq!(json.to_string(), draft.content);
    }
}

#[test]
fn results_tell_votes_as_numbers() {
    let result = |votes: &str| {
        let mut result = make_result(true);
        result.count_sheet.as_mut().unwrap()[0].tallies[1].votes = votes.to_string();
        result
    };
    assert!(make_result(false).is_well_formed());
    assert!(result("2.5").is_well_formed());
    assert!(result("null").is_well_formed());
    assert!(!result("").is_well_formed());
    assert!(!result("1}").is_well_formed());
    let mut plain = make_result(false);
    plain.tally[0].votes = "three".to_string();
    assert!(!plain.is_well_formed());
    // A number that is none is written as `null`.
    assert_eq!(line(1, f64::NAN, CandidateStatus::Active).votes, "null");
}

#[test]
fn results_read_back_as_what_was_counted() {
    let mut clock = PublishClock::new();
    let draft = publish_result_event(&mut clock, &make_election("e"), &make_result(true), NOW);
    let json: serde_json::Value = serde_json::from_str(&draft.content).unwrap();
    assert_eq!(json["tally"][0]["votes"], 3.0);
    assert_eq!(json["elected"][0], 1);
    assert_eq!(json["count_sheet"][0]["tallies"][1]["status"], "excluded");
    assert_eq!(json["count_sheet"][0]["round"], 1);
    assert_eq!(json.to_string(), draft.content);
}
