use rangepoll::poll::{Choice, Poll, PollOptions, VotesForVoter, VotingAlgorithm};
use rangepoll::matrix::build_vote_matrix;
use rangepoll::rp_error::RPError;
use rangepoll::tally::{compute_poll_result, PollResult};
use rangepoll::vote::apply_ballot;

fn choice(name: &str, voters: &[&str], scores: &[u32]) -> Choice {
    Choice {
        name: name.to_string(),
        desc: String::new(),
        description: None,
        desc_markdown: None,
        vote: scores.to_vec(),
        voter: voters.iter().map(|v| v.to_string()).collect(),
    }
}

fn poll(
    allowed: &[&str],
    choices: Vec<Choice>,
    algorithm: VotingAlgorithm,
    options: Option<PollOptions>,
) -> Poll {
    Poll {
        name: "test poll".to_string(),
        filepath: String::new(),
        filename: Some("test".to_string()),
        desc: String::new(),
        description: None,
        desc_markdown: None,
        allowed_participant: allowed.iter().map(|v| v.to_string()).collect(),
        deadline_date: 0,
        choices,
        voting_algorithm: algorithm,
        options,
    }
}

fn score_f32(r: &PollResult, i: usize) -> f32 {
    r.score[i].num as f32 / r.score[i].den as f32
}

#[test]
fn max_example_two_voters() {
    let p = poll(
        &["v1", "v2"],
        vec![choice("A", &["v1", "v2"], &[3, 5]), choice("B", &["v1", "v2"], &[4, 2])],
        VotingAlgorithm::Max,
        None,
    );
    assert!(rangepoll::poll::is_well_formed(&p));
    let r = compute_poll_result(&p).unwrap();
    assert!(!r.pending);
    assert_eq!(r.votes, vec!["A".to_string(), "B".to_string()]);
    assert_eq!(score_f32(&r, 0), 4.0);
    assert_eq!(score_f32(&r, 1), 3.0);
    assert_eq!(r.score_max, 5);
    assert_eq!(r.algorithm, "Max");
    assert_eq!(r.deadline_date, "1970-01-01");
    assert_eq!(r.voters, vec!["v1".to_string(), "v2".to_string()]);
}

#[test]
fn matrix_build_is_deterministic() {
    let p = poll(
        &["a", "b", "c"],
        vec![
            choice("X", &["b", "a"], &[2, 1]),
            choice("Y", &["c"], &[4]),
            choice("Z", &[], &[]),
        ],
        VotingAlgorithm::Max,
        None,
    );
    let (voters1, grid1) = build_vote_matrix(&p);
    let (voters2, grid2) = build_vote_matrix(&p);
    assert_eq!(voters1, voters2);
    assert_eq!(grid1, grid2);
    // Discovery order is first appearance; absent votes are zero cells.
    assert_eq!(voters1, vec!["b".to_string(), "a".to_string(), "c".to_string()]);
    assert_eq!(grid1[(0, 0)], 2);
    assert_eq!(grid1[(1, 0)], 1);
    assert_eq!(grid1[(2, 1)], 4);
    assert_eq!(grid1[(0, 1)], 0);
    assert_eq!(grid1[(2, 0)], 0);
    assert_eq!(grid1[(0, 2)], 0);
}

#[test]
fn vote_submission_is_idempotent() {
    let p = poll(
        &["v1", "v2"],
        vec![choice("A", &["v2"], &[4]), choice("B", &[], &[])],
        VotingAlgorithm::Max,
        None,
    );
    let ballot = VotesForVoter {
        name: "v1".to_string(),
        votes: vec![("A".to_string(), 2), ("B".to_string(), 5)],
    };
    let now = -100; // before the deadline
    let once = apply_ballot(&p, &ballot, now).unwrap();
    let twice = apply_ballot(&once, &ballot, now).unwrap();
    assert_eq!(once, twice);
    let t1 = compute_poll_result(&once).unwrap();
    let t2 = compute_poll_result(&twice).unwrap();
    assert_eq!(t1, t2);
}

#[test]
fn bordat_duplicate_rank_names_the_voter() {
    let p = poll(
        &["v1", "v2"],
        vec![choice("A", &["v1", "v2"], &[1, 3]), choice("B", &["v1", "v2"], &[2, 3])],
        VotingAlgorithm::Bordat,
        None,
    );
    match compute_poll_result(&p) {
        Err(RPError::DuplicateRank(who)) => assert_eq!(who, "v2"),
        other => panic!("expected DuplicateRank, got {:?}", other),
    }
}

#[test]
fn bordat_normalizes_before_summing() {
    // v1 prefers B, v2 prefers A; ranks tie both choices at 3 points.
    let p = poll(
        &["v1", "v2"],
        vec![choice("A", &["v1", "v2"], &[1, 5]), choice("B", &["v1", "v2"], &[2, 2])],
        VotingAlgorithm::Bordat,
        None,
    );
    let r = compute_poll_result(&p).unwrap();
    // Tie: declaration order is kept.
    assert_eq!(r.votes, vec!["A".to_string(), "B".to_string()]);
    assert_eq!(score_f32(&r, 0), 1.5);
    assert_eq!(score_f32(&r, 1), 1.5);
    assert_eq!(r.score_max, 5);
}

#[test]
fn condorcet_majority_winner_ranks_first() {
    let names = ["X", "Y", "Z"];
    let voters = ["v1", "v2", "v3"];
    // Rows are voters, columns the three choices.
    let raw: [[u32; 3]; 3] = [[3, 2, 1], [3, 1, 2], [1, 3, 2]];
    let p = poll(
        &voters,
        (0..3)
            .map(|c| {
                choice(names[c], &voters, &[raw[0][c], raw[1][c], raw[2][c]])
            })
            .collect(),
        VotingAlgorithm::Condorcet,
        None,
    );
    let r = compute_poll_result(&p).unwrap();

    // Recompute every duel exhaustively from the raw matrix.
    let mut duels = [0u32; 3];
    for c1 in 0..3 {
        for c2 in 0..3 {
            let wins = (0..3).filter(|&v| raw[v][c1] > raw[v][c2]).count();
            if wins > 3 / 2 {
                duels[c1] += 1;
            }
        }
    }
    assert_eq!(duels, [2, 1, 0]);
    for i in 0..3 {
        let pos = r.votes.iter().position(|n| n == names[i]).unwrap();
        assert_eq!(r.score[pos].num, duels[i] as u64);
        assert_eq!(r.score[pos].den, 1);
    }
    // The pairwise-majority winner appears first.
    assert_eq!(r.votes[0], "X");
    assert_eq!(r.score_max, 3);
}

#[test]
fn deadline_one_second_late() {
    let mk = |late: bool| {
        poll(
            &["v1"],
            vec![choice("A", &[], &[])],
            VotingAlgorithm::Max,
            Some(PollOptions {
                allow_missing_choice: false,
                allow_late_vote: late,
                show_only_complete_result: false,
            }),
        )
    };
    let ballot = VotesForVoter {
        name: "v1".to_string(),
        votes: vec![("A".to_string(), 3)],
    };
    // One second past the deadline (the deadline itself is 0).
    match apply_ballot(&mk(false), &ballot, 1) {
        Err(RPError::TimedOut(name)) => assert_eq!(name, "test poll"),
        other => panic!("expected TimedOut, got {:?}", other),
    }
    let updated = apply_ballot(&mk(true), &ballot, 1).unwrap();
    assert_eq!(updated.choices[0].voter, vec!["v1".to_string()]);
    assert_eq!(updated.choices[0].vote, vec![3]);
}

#[test]
fn incomplete_poll_shows_pending_result() {
    let opts = PollOptions {
        allow_missing_choice: false,
        allow_late_vote: false,
        show_only_complete_result: true,
    };
    let p = poll(
        &["v1", "v2"],
        vec![choice("A", &["v1"], &[3]), choice("B", &["v1"], &[4])],
        VotingAlgorithm::Max,
        Some(opts),
    );
    let r = compute_poll_result(&p).unwrap();
    assert!(r.pending);
    assert!(r.votes.is_empty());
    assert!(r.score.is_empty());
    assert_eq!(r.score_max, 0);

    // Once every allowed participant has voted everywhere, the ranking shows.
    let full = poll(
        &["v1", "v2"],
        vec![
            choice("A", &["v1", "v2"], &[3, 5]),
            choice("B", &["v1", "v2"], &[4, 2]),
        ],
        VotingAlgorithm::Max,
        Some(opts),
    );
    let r2 = compute_poll_result(&full).unwrap();
    assert!(!r2.pending);
    assert_eq!(r2.votes.len(), 2);
}

#[test]
fn explicit_zero_counts_as_missing_for_completeness() {
    let opts = PollOptions {
        allow_missing_choice: false,
        allow_late_vote: false,
        show_only_complete_result: true,
    };
    let p = poll(
        &["v1"],
        vec![choice("A", &["v1"], &[0])],
        VotingAlgorithm::Max,
        Some(opts),
    );
    let r = compute_poll_result(&p).unwrap();
    assert!(r.pending);
}

#[test]
fn binary_reports_raw_sums_and_their_maximum() {
    let p = poll(
        &["v1", "v2", "v3"],
        vec![
            choice("yes", &["v1", "v2", "v3"], &[1, 1, 0]),
            choice("no", &["v1", "v2", "v3"], &[0, 0, 1]),
        ],
        VotingAlgorithm::Binary,
        None,
    );
    let r = compute_poll_result(&p).unwrap();
    assert_eq!(r.votes, vec!["yes".to_string(), "no".to_string()]);
    assert_eq!(r.score[0].num, 2);
    assert_eq!(r.score[0].den, 1);
    assert_eq!(r.score[1].num, 1);
    assert_eq!(r.score_max, 2);
}

#[test]
fn first_choice_counts_best_cells() {
    let voters = ["v1", "v2", "v3"];
    // v1 and v2 put A first, v3 puts B first.
    let p = poll(
        &voters,
        vec![
            choice("A", &voters, &[3, 2, 1]),
            choice("B", &voters, &[1, 1, 2]),
        ],
        VotingAlgorithm::FirstChoice,
        None,
    );
    let r = compute_poll_result(&p).unwrap();
    assert_eq!(r.votes, vec!["A".to_string(), "B".to_string()]);
    assert_eq!(r.score[0].num, 2);
    assert_eq!(r.score[1].num, 1);
    assert_eq!(r.score_max, 2);
}

#[test]
fn unimplemented_algorithms_fail_explicitly() {
    let p = poll(&["v1"], vec![choice("A", &["v1"], &[1])], VotingAlgorithm::FrenchSystem, None);
    match compute_poll_result(&p) {
        Err(RPError::Unimplemented(which)) => assert_eq!(which, "FrenchSystem"),
        other => panic!("expected Unimplemented, got {:?}", other),
    }
    let q = poll(
        &["v1"],
        vec![choice("A", &["v1"], &[1])],
        VotingAlgorithm::SuccessiveElimination,
        None,
    );
    match compute_poll_result(&q) {
        Err(RPError::Unimplemented(which)) => assert_eq!(which, "SuccessiveElimination"),
        other => panic!("expected Unimplemented, got {:?}", other),
    }
}

#[test]
fn missing_choice_policy() {
    let ballot = VotesForVoter {
        name: "v1".to_string(),
        votes: vec![("A".to_string(), 2)],
    };
    let strict = poll(
        &["v1"],
        vec![choice("A", &[], &[]), choice("B", &[], &[])],
        VotingAlgorithm::Max,
        None,
    );
    match apply_ballot(&strict, &ballot, -10) {
        Err(RPError::InvalidInput(name)) => assert_eq!(name, "test poll"),
        other => panic!("expected InvalidInput, got {:?}", other),
    }
    let lenient = poll(
        &["v1"],
        vec![choice("A", &[], &[]), choice("B", &[], &[])],
        VotingAlgorithm::Max,
        Some(PollOptions {
            allow_missing_choice: true,
            allow_late_vote: false,
            show_only_complete_result: false,
        }),
    );
    let updated = apply_ballot(&lenient, &ballot, -10).unwrap();
    assert_eq!(updated.choices[0].voter, vec!["v1".to_string()]);
    assert_eq!(updated.choices[0].vote, vec![2]);
    assert!(updated.choices[1].voter.is_empty());
}

#[test]
fn overwrite_keeps_one_entry_per_voter() {
    let p = poll(
        &["v1", "v2"],
        vec![choice("A", &["v1", "v2"], &[1, 2])],
        VotingAlgorithm::Max,
        None,
    );
    let ballot = VotesForVoter {
        name: "v1".to_string(),
        votes: vec![("A".to_string(), 9)],
    };
    let updated = apply_ballot(&p, &ballot, -10).unwrap();
    assert_eq!(updated.choices[0].voter, vec!["v1".to_string(), "v2".to_string()]);
    assert_eq!(updated.choices[0].vote, vec![9, 2]);
}

#[test]
fn outsider_cannot_vote() {
    let p = poll(&["v1"], vec![choice("A", &[], &[])], VotingAlgorithm::Max, None);
    let ballot = VotesForVoter {
        name: "mallory".to_string(),
        votes: vec![("A".to_string(), 5)],
    };
    match apply_ballot(&p, &ballot, -10) {
        Err(RPError::PermissionDenied(who)) => assert_eq!(who, "mallory"),
        other => panic!("expected PermissionDenied, got {:?}", other),
    }
    match rangepoll::vote::get_poll_result(&p, &"mallory".to_string()) {
        Err(RPError::PermissionDenied(who)) => assert_eq!(who, "mallory"),
        other => panic!("expected PermissionDenied, got {:?}", other),
    }
    let ok = rangepoll::vote::get_poll_result(&p, &"v1".to_string());
    assert!(ok.is_ok());
}

#[test]
fn well_formedness_check() {
    let good = poll(
        &["v1", "v2"],
        vec![choice("A", &["v1"], &[1])],
        VotingAlgorithm::Max,
        None,
    );
    assert!(rangepoll::poll::is_well_formed(&good));
    // A duplicated voter entry within one choice breaks the invariant.
    let dup = poll(
        &["v1", "v2"],
        vec![choice("A", &["v1", "v1"], &[1, 2])],
        VotingAlgorithm::Max,
        None,
    );
    assert!(!rangepoll::poll::is_well_formed(&dup));
    // A recorded voter who is not an allowed participant breaks it too.
    let stranger = poll(
        &["v1"],
        vec![choice("A", &["v9"], &[1])],
        VotingAlgorithm::Max,
        None,
    );
    assert!(!rangepoll::poll::is_well_formed(&stranger));
    // Parallel arrays of different lengths break it.
    let skew = poll(&["v1"], vec![choice("A", &["v1"], &[1, 2])], VotingAlgorithm::Max, None);
    assert!(!rangepoll::poll::is_well_formed(&skew));
}

#[test]
fn live_submission_updates_and_tallies() {
    let far_future = chrono::Utc::now().timestamp() + 86400;
    let mut p = poll(
        &["v1", "v2"],
        vec![choice("A", &["v2"], &[4]), choice("B", &["v2"], &[1])],
        VotingAlgorithm::Max,
        None,
    );
    p.deadline_date = far_future;
    let ballot = VotesForVoter {
        name: "v1".to_string(),
        votes: vec![("A".to_string(), 2), ("B".to_string(), 3)],
    };
    let (updated, tally) = rangepoll::vote::vote_for_poll(&p, &ballot).unwrap();
    assert_eq!(updated.choices[0].voter, vec!["v2".to_string(), "v1".to_string()]);
    assert_eq!(updated.choices[0].vote, vec![4, 2]);
    let result = tally.unwrap();
    assert_eq!(result.votes, vec!["A".to_string(), "B".to_string()]);
    assert_eq!(score_f32(&result, 0), 3.0);
    assert_eq!(score_f32(&result, 1), 2.0);

    // The same submission against a long-gone deadline times out.
    let mut past = poll(&["v1"], vec![choice("A", &[], &[])], VotingAlgorithm::Max, None);
    past.deadline_date = chrono::Utc::now().timestamp() - 86400;
    let late = VotesForVoter {
        name: "v1".to_string(),
        votes: vec![("A".to_string(), 2)],
    };
    match rangepoll::vote::vote_for_poll(&past, &late) {
        Err(RPError::TimedOut(name)) => assert_eq!(name, "test poll"),
        other => panic!("expected TimedOut, got {:?}", other),
    }
}

#[test]
fn poll_without_votes_tallies_to_zero() {
    let p = poll(
        &["v1", "v2"],
        vec![choice("A", &[], &[]), choice("B", &[], &[])],
        VotingAlgorithm::Max,
        None,
    );
    let r = compute_poll_result(&p).unwrap();
    assert!(!r.pending);
    assert_eq!(r.votes, vec!["A".to_string(), "B".to_string()]);
    assert_eq!(r.score[0].num, 0);
    assert_eq!(r.score[0].den, 1);
    assert_eq!(r.score[1].num, 0);
}

#[test]
fn duplicate_ballot_keys_first_entry_wins() {
    let p = poll(&["v1"], vec![choice("A", &[], &[])], VotingAlgorithm::Max, None);
    let ballot = VotesForVoter {
        name: "v1".to_string(),
        votes: vec![("A".to_string(), 7), ("A".to_string(), 1)],
    };
    let updated = apply_ballot(&p, &ballot, -10).unwrap();
    assert_eq!(updated.choices[0].vote, vec![7]);
}
