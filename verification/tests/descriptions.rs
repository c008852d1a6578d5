use rangepoll::desc::{build_desc, find_poll_desc, get_poll_desc, get_poll_desc_list, make_poll_desc};
use rangepoll::poll::{gen_template, Choice, Poll, PollOptions, VotingAlgorithm};
use rangepoll::rp_error::RPError;

fn poll_named(stem: &str, allowed: &[&str]) -> Poll {
    Poll {
        name: format!("poll {}", stem),
        filepath: format!("polls/{}.yml", stem),
        filename: Some(stem.to_string()),
        desc: "about".to_string(),
        description: None,
        desc_markdown: None,
        allowed_participant: allowed.iter().map(|v| v.to_string()).collect(),
        deadline_date: 86400, // 1970-01-02
        choices: vec![Choice {
            name: "A".to_string(),
            desc: String::new(),
            description: Some("choice A".to_string()),
            desc_markdown: None,
            vote: vec![7],
            voter: vec![allowed[0].to_string()],
        }],
        voting_algorithm: VotingAlgorithm::Max,
        options: None,
    }
}

#[test]
fn build_desc_prefers_plain_description() {
    let r = build_desc(
        &Some("plain".to_string()),
        &Some("notes.md".to_string()),
        &Some("# ignored".to_string()),
        &"fallback".to_string(),
    );
    assert_eq!(r.unwrap(), "plain");
}

#[test]
fn build_desc_renders_markdown() {
    let r = build_desc(
        &None,
        &Some("notes.md".to_string()),
        &Some("# Hi".to_string()),
        &"fallback".to_string(),
    );
    assert_eq!(r.unwrap(), "<h1>Hi</h1>\n");
}

#[test]
fn build_desc_falls_back_to_the_path() {
    let r = build_desc(&None, &None, &None, &"polls/a.yml".to_string());
    assert_eq!(r.unwrap(), "polls/a.yml");
}

#[test]
fn build_desc_reports_unreadable_markdown() {
    match build_desc(&None, &Some("notes.md".to_string()), &None, &"fb".to_string()) {
        Err(RPError::StorageError(f)) => assert_eq!(f, "notes.md"),
        other => panic!("expected StorageError, got {:?}", other),
    }
}

#[test]
fn parsed_poll_carries_resolved_choices() {
    let p = poll_named("fruit", &["v1"]);
    let pp = get_poll_desc(&p, &vec![None]).unwrap();
    assert_eq!(pp.name, "poll fruit");
    assert_eq!(pp.filename, "fruit");
    assert_eq!(pp.deadline_date, "1970-01-02");
    assert!(!pp.deadline_near);
    assert!(!pp.missing_choice);
    assert_eq!(pp.user, "");
    assert_eq!(pp.choices.len(), 1);
    assert_eq!(pp.choices[0].desc, "choice A");
    assert_eq!(pp.choices[0].vote, vec![7]);
    assert_eq!(pp.choices[0].voter, vec!["v1".to_string()]);
}

#[test]
fn poll_listing_filters_by_membership() {
    let polls = vec![poll_named("one", &["alice"]), poll_named("two", &["bob"])];
    let now = 10;
    let rows = get_poll_desc_list(&polls, &"alice".to_string(), now);
    assert_eq!(rows.len(), 1);
    assert_eq!(rows[0].name, "poll one");
    assert_eq!(rows[0].filepath, "one");
    assert_eq!(rows[0].deadline_date, "1970-01-02");
    // Within a day of the deadline it is near but not passed.
    assert!(rows[0].deadline_near);
    assert!(!rows[0].deadline_passed);
    // One recorded voter of one allowed participant: complete.
    assert!(rows[0].complete);
}

#[test]
fn listing_flags_track_the_clock() {
    let p = poll_named("one", &["alice", "bob"]);
    let long_before = make_poll_desc(&p, p.deadline_date - 200000);
    assert!(!long_before.deadline_near && !long_before.deadline_passed);
    let just_before = make_poll_desc(&p, p.deadline_date - 10);
    assert!(just_before.deadline_near && !just_before.deadline_passed);
    let after = make_poll_desc(&p, p.deadline_date + 10);
    assert!(after.deadline_near && after.deadline_passed);
    // Two allowed participants but one recorded vote: not complete.
    assert!(!after.complete);
}

#[test]
fn find_poll_desc_matches_the_file_stem() {
    let polls = vec![poll_named("one", &["a"]), poll_named("two", &["b"])];
    let found = find_poll_desc(polls, &"two".to_string()).unwrap();
    assert_eq!(found.name, "poll two");
    let none = find_poll_desc(vec![poll_named("one", &["a"])], &"three".to_string());
    match none {
        Err(RPError::NotFound(n)) => assert_eq!(n, "three"),
        other => panic!("expected NotFound, got {:?}", other),
    }
}

#[test]
fn poll_template_is_the_fruit_example() {
    let p = gen_template(1234);
    assert_eq!(p.name, "Best fruit");
    assert_eq!(p.deadline_date, 1234);
    assert_eq!(p.voting_algorithm, VotingAlgorithm::Bordat);
    assert_eq!(
        p.allowed_participant,
        vec!["John".to_string(), "Bob".to_string(), "Isaac".to_string()]
    );
    assert_eq!(p.choices.len(), 2);
    assert_eq!(p.choices[0].name, "pear");
    assert_eq!(p.choices[0].vote, vec![3, 4]);
    assert_eq!(p.choices[1].name, "apple");
    assert_eq!(p.choices[1].vote, vec![5, 2]);
    assert!(rangepoll::poll::is_well_formed(&p));
}

#[test]
fn options_default_to_all_off() {
    let o = PollOptions::default();
    assert!(!o.allow_missing_choice && !o.allow_late_vote && !o.show_only_complete_result);
    assert_eq!(VotingAlgorithm::default(), VotingAlgorithm::Max);
}
