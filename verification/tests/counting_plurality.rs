use ec::counting::draw::{draws, pick_winners};
use ec::counting::plurality::PluralityAlgorithm;
use ec::counting::ranking::MAX_VOTES;
use ec::counting::seed::{seed_of_digest, sorted_roll};
use ec::counting::tie::break_boundary_tie;
use ec::counting::{
    algorithm_for, default_tie_seed, votes_text, Algorithm, Ballot, CandidateStatus, CountError,
    CountResult, CountingAlgorithm,
};
use ec::rules::{BallotMethod, BallotRules, CountingRules, ElectionRules, SeatRules};
use rand::rngs::StdRng;
use rand::{RngExt, SeedableRng};

/// Rules of a plurality election, with ties broken by an unseeded draw.
fn plurality_rules() -> ElectionRules {
    ElectionRules {
        ballot: BallotRules { method: BallotMethod::Single, min_choices: 1, max_choices: 1 },
        election: SeatRules { seats: 1 },
        counting: CountingRules {
            min_winner_votes: None,
            tie_breaking: Some("random".to_string()),
            tie_breaking_seed: None,
        },
    }
}

fn plurality() -> PluralityAlgorithm {
    match algorithm_for("plurality") {
        Ok(Algorithm::Plurality(algorithm)) => algorithm,
        _ => panic!("plurality must be known"),
    }
}

/// The votes of a candidate, as the number that its line of the tally shows.
fn votes_of(result: &CountResult, id: u8) -> f64 {
    let line = result.tally.iter().find(|t| t.candidate_id == id).unwrap();
    line.votes.parse().unwrap()
}

#[test]
fn plurality_single_winner_simple_majority() {
    let rules = plurality_rules();
    let algo = plurality();
    let ballots: Vec<Ballot> = vec![vec![1], vec![1], vec![1], vec![2], vec![2]];

    let result = algo.count(&ballots, &[1, 2], &rules).expect("count");

    assert_eq!(result.elected, vec![1]);
    assert_eq!(votes_of(&result, 1), 3.0);
    assert_eq!(votes_of(&result, 2), 2.0);
}

#[test]
fn plurality_tie_broken_deterministically() {
    let rules = plurality_rules();
    let algo = plurality();
    let ballots: Vec<Ballot> = vec![vec![1], vec![2], vec![1], vec![2]];

    let first = algo.count(&ballots, &[1, 2], &rules).expect("count");
    assert_eq!(first.elected.len(), 1);
    assert!(first.elected[0] == 1 || first.elected[0] == 2);

    let second = algo.count(&ballots, &[1, 2], &rules).expect("count");
    assert_eq!(first.elected, second.elected);
}

#[test]
fn plurality_multi_seat_top_two_elected() {
    let mut rules = plurality_rules();
    rules.election.seats = 2;
    let algo = plurality();
    let ballots: Vec<Ballot> = vec![vec![1], vec![1], vec![1], vec![2], vec![2], vec![3]];

    let result = algo.count(&ballots, &[1, 2, 3], &rules).expect("count");
    assert_eq!(result.elected, vec![1, 2]);
}

#[test]
fn plurality_zero_vote_candidate_appears_in_tally() {
    let rules = plurality_rules();
    let algo = plurality();
    let ballots: Vec<Ballot> = vec![vec![1], vec![1], vec![2]];

    let result = algo.count(&ballots, &[1, 2, 3], &rules).expect("count");

    let c3 = result
        .tally
        .iter()
        .find(|t| t.candidate_id == 3)
        .expect("zero-vote candidate must appear in the published tally");
    assert_eq!(c3.votes, "0.0");
    assert_eq!(c3.status, CandidateStatus::Excluded);
}

#[test]
fn plurality_min_winner_votes_leaves_seat_unfilled() {
    let mut rules = plurality_rules();
    rules.counting.min_winner_votes = Some(3);
    let algo = plurality();
    let ballots: Vec<Ballot> = vec![vec![1], vec![1], vec![2]];

    let result = algo.count(&ballots, &[1, 2], &rules).expect("count");
    assert!(result.elected.is_empty());
}

#[test]
fn plurality_tie_breaking_none_declares_no_winner() {
    let mut rules = plurality_rules();
    rules.counting.tie_breaking = Some("none".to_string());
    let algo = plurality();
    let ballots: Vec<Ballot> = vec![vec![1], vec![2]];

    let result = algo.count(&ballots, &[1, 2], &rules).expect("count");
    assert!(result.elected.is_empty(), "tie with 'none' must not elect anyone");
}

#[test]
fn a_tie_that_is_not_broken_elects_nobody_behind_it() {
    let mut rules = plurality_rules();
    rules.election.seats = 2;
    rules.counting.tie_breaking = Some("none".to_string());
    // 4 is ahead; 1 and 2 are tied for the second seat; 3 is behind them.
    let ballots: Vec<Ballot> =
        vec![vec![4], vec![4], vec![4], vec![1], vec![1], vec![2], vec![2], vec![3]];

    let result = plurality().count(&ballots, &[1, 2, 3, 4], &rules).expect("count");
    assert_eq!(result.elected, vec![4]);
    let elected: Vec<u8> = result
        .tally
        .iter()
        .filter(|t| t.status == CandidateStatus::Elected)
        .map(|t| t.candidate_id)
        .collect();
    assert_eq!(elected, vec![4]);
}

#[test]
fn ties_by_hand_are_not_carried_out() {
    let mut rules = plurality_rules();
    rules.counting.tie_breaking = Some("manual".to_string());
    let error = plurality().count(&[vec![1], vec![2]], &[1, 2], &rules).unwrap_err();
    assert!(matches!(error, CountError::ManualTieBreak));
    assert_eq!(error.message(), "NotImplemented: manual tie-break");
}

#[test]
fn ties_go_to_the_lowest_ids_by_default() {
    let mut rules = plurality_rules();
    rules.election.seats = 2;
    for rule in [None, Some("lowest".to_string())] {
        rules.counting.tie_breaking = rule;
        let result = plurality().count(&[vec![9], vec![4], vec![7]], &[7, 4, 9], &rules).unwrap();
        assert_eq!(result.elected, vec![4, 7]);
    }
}

#[test]
fn other_ballot_methods_are_refused() {
    for method in [BallotMethod::Ranked, BallotMethod::Approval] {
        let mut rules = plurality_rules();
        rules.ballot.method = method;
        let error = plurality().count(&[vec![1]], &[1], &rules).unwrap_err();
        assert_eq!(error.message(), "Plurality requires single-choice ballots");
    }
}

#[test]
fn algorithms_are_found_by_id() {
    assert!(matches!(algorithm_for("plurality"), Ok(Algorithm::Plurality(_))));
    assert!(matches!(algorithm_for("stv"), Ok(Algorithm::Stv)));
    let error = algorithm_for("borda").err().unwrap();
    assert_eq!(error.message(), "UNKNOWN_RULES: borda");
}

#[test]
fn tally_is_in_order_and_complete() {
    // 5 is not registered but has a vote; the empty ballot counts for nobody.
    let ballots: Vec<Ballot> = vec![vec![3], vec![5], vec![3], vec![1, 2], vec![]];
    let result = plurality().count(&ballots, &[2, 1, 3, 2], &plurality_rules()).unwrap();
    let rows: Vec<(u8, &str)> =
        result.tally.iter().map(|t| (t.candidate_id, t.votes.as_str())).collect();
    assert_eq!(rows, vec![(3, "2.0"), (1, "1.0"), (5, "1.0"), (2, "0.0")]);
    assert_eq!(rows.iter().map(|row| votes_of(&result, row.0)).sum::<f64>(), 4.0);
    assert!(result.count_sheet.is_none());
}

#[test]
fn order_of_ballots_makes_no_difference() {
    let mut rules = plurality_rules();
    rules.election.seats = 2;
    let mut ballots: Vec<Ballot> = vec![vec![3], vec![1], vec![2], vec![3], vec![2], vec![1]];
    let first = plurality().count(&ballots, &[1, 2, 3], &rules).unwrap();
    ballots.reverse();
    let second = plurality().count(&ballots, &[1, 2, 3], &rules).unwrap();
    assert_eq!(first.elected, second.elected);
}

#[test]
fn only_first_choices_and_the_set_of_candidates_matter() {
    let mut rules = plurality_rules();
    rules.election.seats = 2;
    let a: Vec<Ballot> = vec![vec![3], vec![1, 2], vec![2], vec![], vec![3, 1]];
    let b: Vec<Ballot> = vec![vec![2, 3], vec![3, 3], vec![], vec![], vec![1], vec![3]];
    let first = plurality().count(&a, &[1, 2, 3, 4], &rules).unwrap();
    let second = plurality().count(&b, &[4, 4, 2, 3, 1], &rules).unwrap();
    assert_eq!(first.elected, second.elected);
    let shown = |result: &CountResult| -> Vec<(u8, String)> {
        result.tally.iter().map(|t| (t.candidate_id, t.votes.clone())).collect()
    };
    assert_eq!(shown(&first), shown(&second));
}

#[test]
fn votes_are_written_as_numbers_of_double_precision_are() {
    for votes in [0, 1, 9, 10, 4096, 1_000_000, MAX_VOTES / 2 + 1, MAX_VOTES - 1, MAX_VOTES] {
        assert_eq!(votes_text(votes), serde_json::Value::from(votes as f64).to_string());
    }
    // Where counting stops, one vote more makes no difference.
    assert_eq!(MAX_VOTES as f64 + 1.0, MAX_VOTES as f64);
    assert_eq!((MAX_VOTES - 1) as f64 + 1.0, MAX_VOTES as f64);
}

#[test]
fn no_seats_means_one_and_spare_seats_stay_empty() {
    let mut rules = plurality_rules();
    rules.election.seats = 0;
    assert_eq!(plurality().count(&[vec![2]], &[1, 2], &rules).unwrap().elected, vec![2]);
    rules.election.seats = 9;
    assert_eq!(plurality().count(&[vec![2]], &[1, 2], &rules).unwrap().elected, vec![2, 1]);
    rules.counting.min_winner_votes = Some(1);
    assert_eq!(plurality().count(&[vec![2]], &[1, 2], &rules).unwrap().elected, vec![2]);
}

#[test]
fn default_seed_is_read_off_the_digest_of_the_candidates() {
    // SHA-256 of the bytes 1, 2 starts with a1 28 71 fe e2 10 fb 86.
    assert_eq!(default_tie_seed(&[1, 2]), 0x86fb10e2fe7128a1);
    assert_eq!(default_tie_seed(&[2, 1, 2]), 0x86fb10e2fe7128a1);
    assert_eq!(default_tie_seed(&[]), 1449310910991872227);
    assert_ne!(default_tie_seed(&[1, 2, 3]), default_tie_seed(&[1, 2]));
    assert_eq!(sorted_roll(&[9, 3, 9, 255, 0]), vec![0, 3, 9, 255]);
    assert_eq!(seed_of_digest(&[1, 2, 0, 0, 0, 0, 0, 128, 77]), 0x8000000000000201);
}

#[test]
fn draws_are_those_of_the_seeded_generator() {
    for seed in [0u64, 1, 42, u64::MAX] {
        let mut rng = StdRng::seed_from_u64(seed);
        let expected: Vec<usize> = (0..5).map(|i| rng.random_range(i..7)).collect();
        assert_eq!(draws(seed, 7, 5), expected);
    }
    assert_ne!(draws(1, 1000, 3), draws(2, 1000, 3));
}

#[test]
fn winners_are_picked_by_exchanges() {
    assert_eq!(pick_winners(&[10, 20, 30, 40], &[2, 1, 3]), vec![30, 20, 40]);
    assert_eq!(pick_winners(&[10, 20, 30], &[2, 2]), vec![30, 10]);
    assert_eq!(pick_winners(&[10, 20, 30], &[]), Vec::<u8>::new());
}

#[test]
fn a_draw_has_distinct_winners_of_the_group() {
    let rules = CountingRules {
        min_winner_votes: None,
        tie_breaking: Some("random".to_string()),
        tie_breaking_seed: Some(7),
    };
    let group = [2, 4, 6, 8, 10];
    let winners = break_boundary_tie(&group, 3, &group, &rules).unwrap();
    assert_eq!(winners.len(), 3);
    for (i, id) in winners.iter().enumerate() {
        assert!(group.contains(id));
        assert!(!winners[..i].contains(id));
    }
    assert_eq!(winners, pick_winners(&group, &draws(7, 5, 3)));
    // Without a seed in the rules, that of the candidates is used.
    let unseeded = CountingRules { tie_breaking_seed: None, ..rules };
    assert_eq!(
        break_boundary_tie(&group, 3, &[1, 2], &unseeded).unwrap(),
        pick_winners(&group, &draws(0x86fb10e2fe7128a1, 5, 3))
    );
}

#[test]
fn every_seat_that_can_be_filled_is_filled() {
    let ballots: Vec<Ballot> = vec![vec![1], vec![2], vec![3], vec![4], vec![4]];
    for rule in [None, Some("random".to_string())] {
        for (seats, needed, winners) in [(3, 0, 3), (9, 0, 5), (3, 2, 1), (2, 1, 2), (4, 1, 4)] {
            let mut rules = plurality_rules();
            rules.election.seats = seats;
            rules.counting.min_winner_votes = Some(needed);
            rules.counting.tie_breaking = rule.clone();
            let result = plurality().count(&ballots, &[1, 2, 3, 4, 5], &rules).unwrap();
            assert_eq!(result.elected.len(), winners);
            assert!(result.is_well_formed());
        }
    }
}

#[test]
fn unbroken_ties_take_any_number_of_seats() {
    let mut rules = plurality_rules().counting;
    rules.tie_breaking = Some("none".to_string());
    assert_eq!(break_boundary_tie(&[2, 5], 9, &[2, 5], &rules).unwrap(), Vec::<u8>::new());
    rules.tie_breaking = Some("manual".to_string());
    assert!(break_boundary_tie(&[2, 5], 9, &[2, 5], &rules).is_err());
}

#[test]
fn statuses_have_distinct_wire_names() {
    assert_eq!(CandidateStatus::Active.as_str(), "active");
    assert_eq!(CandidateStatus::Elected.as_str(), "elected");
    assert_eq!(CandidateStatus::Excluded.as_str(), "excluded");
}
