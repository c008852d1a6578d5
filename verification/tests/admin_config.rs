use rangepoll::admin::{get_admin, update_poll, update_voter, Admin, PollAction, VoterAction, VoterMap};
use rangepoll::config::{config_template, Config};
use rangepoll::poll::{Choice, Poll, VotingAlgorithm};
use rangepoll::rp_error::RPError;
use rangepoll::voters::Voter;

fn voter(name: &str, admin: bool) -> Voter {
    Voter {
        username: name.to_string(),
        email: Some(format!("{}@example.org", name)),
        fullname: None,
        presentation: String::new(),
        password: "pw".to_string(),
        admin,
        filename: Some(name.to_string()),
    }
}

fn sample_poll() -> Poll {
    Poll {
        name: "sample".to_string(),
        filepath: String::new(),
        filename: Some("sample".to_string()),
        desc: String::new(),
        description: None,
        desc_markdown: None,
        allowed_participant: vec!["root".to_string()],
        deadline_date: 0,
        choices: vec![Choice {
            name: "A".to_string(),
            desc: String::new(),
            description: None,
            desc_markdown: None,
            vote: vec![],
            voter: vec![],
        }],
        voting_algorithm: VotingAlgorithm::Max,
        options: None,
    }
}

fn sample_admin() -> Admin {
    get_admin(
        vec![voter("root", true), voter("bob", false)],
        vec![sample_poll()],
        &"root".to_string(),
    )
}

#[test]
fn admin_table_maps_usernames() {
    let a = sample_admin();
    assert_eq!(a.admin, "root");
    assert_eq!(a.inv_name.len(), 2);
    assert_eq!(a.inv_name[0].0, "root");
    assert_eq!(a.inv_name[1].0, "bob");
    // The username stands in for a missing full name.
    assert_eq!(a.inv_name[0].1.fullname, "root");
    assert_eq!(a.inv_name[0].1.email, "root@example.org");
    assert_eq!(a.inv_name[0].1.filestem, "root");
}

#[test]
fn voter_map_defaults() {
    let mut v = voter("carol", false);
    v.fullname = Some("Carol C".to_string());
    v.email = None;
    v.filename = None;
    let m = VoterMap::new(&v);
    assert_eq!(m.fullname, "Carol C");
    assert_eq!(m.email, "");
    assert_eq!(m.filestem, "");
}

#[test]
fn only_admins_may_manage_voters() {
    let a = sample_admin();
    match update_voter(&a, &"bob".to_string(), &"delete".to_string(), &"x".to_string(), None) {
        Err(RPError::PermissionDenied(who)) => assert_eq!(who, "bob"),
        other => panic!("expected PermissionDenied, got {:?}", other),
    }
    match update_voter(&a, &"nobody".to_string(), &"delete".to_string(), &"x".to_string(), None) {
        Err(RPError::PermissionDenied(who)) => assert_eq!(who, "nobody"),
        other => panic!("expected PermissionDenied, got {:?}", other),
    }
}

#[test]
fn voter_actions_are_decided_case_insensitively() {
    let a = sample_admin();
    match update_voter(&a, &"root".to_string(), &"DELETE".to_string(), &"bob".to_string(), None) {
        Ok(VoterAction::Delete(stem)) => assert_eq!(stem, "bob"),
        other => panic!("expected Delete, got {:?}", other),
    }
    let nv = voter("dave", false);
    match update_voter(&a, &"root".to_string(), &"Update".to_string(), &"dave".to_string(), Some(&nv)) {
        Ok(VoterAction::Update(stem, v)) => {
            assert_eq!(stem, "dave");
            assert_eq!(v.username, "dave");
        }
        other => panic!("expected Update, got {:?}", other),
    }
    match update_voter(&a, &"root".to_string(), &"update".to_string(), &"dave".to_string(), None) {
        Err(RPError::InvalidInput(who)) => assert_eq!(who, "root"),
        other => panic!("expected InvalidInput, got {:?}", other),
    }
    match update_voter(&a, &"root".to_string(), &"frobnicate".to_string(), &"x".to_string(), None) {
        Err(RPError::NotFound(action)) => assert_eq!(action, "frobnicate"),
        other => panic!("expected NotFound, got {:?}", other),
    }
}

#[test]
fn poll_actions_follow_the_request() {
    let a = sample_admin();
    let root = "root".to_string();
    match update_poll(None, &a, &root, &"delete".to_string(), &"sample".to_string(), None) {
        Ok(PollAction::Delete(stem)) => assert_eq!(stem, "sample"),
        other => panic!("expected Delete, got {:?}", other),
    }
    match update_poll(None, &a, &root, &"edit".to_string(), &"sample".to_string(), None) {
        Err(RPError::NotFound(action)) => assert_eq!(action, "edit"),
        other => panic!("expected NotFound, got {:?}", other),
    }
    let p = sample_poll();
    match update_poll(None, &a, &root, &"update".to_string(), &"sample".to_string(), Some(&p)) {
        Ok(PollAction::Update(stem, np)) => {
            assert_eq!(stem, "sample");
            assert_eq!(np.name, "sample");
        }
        other => panic!("expected Update, got {:?}", other),
    }
}

#[test]
fn membership_actions_need_a_known_voter_pair() {
    let a = sample_admin();
    let root = "root".to_string();
    match update_poll(None, &a, &root, &"del_voter".to_string(), &"sample:bob".to_string(), None) {
        Ok(PollAction::DelVoter(p, v)) => {
            assert_eq!(p, "sample");
            assert_eq!(v, "bob");
        }
        other => panic!("expected DelVoter, got {:?}", other),
    }
    match update_poll(None, &a, &root, &"add_voter".to_string(), &"sample:bob".to_string(), None) {
        Ok(PollAction::AddVoter(p, v)) => {
            assert_eq!(p, "sample");
            assert_eq!(v, "bob");
        }
        other => panic!("expected AddVoter, got {:?}", other),
    }
    // No colon, two colons, or an unknown voter are all invalid input.
    for bad in ["samplebob", "sample:bob:extra", "sample:stranger"] {
        match update_poll(None, &a, &root, &"del_voter".to_string(), &bad.to_string(), None) {
            Err(RPError::InvalidInput(who)) => assert_eq!(who, "root"),
            other => panic!("expected InvalidInput for {:?}, got {:?}", bad, other),
        }
    }
}

#[test]
fn sending_mail_needs_a_configured_server() {
    let a = sample_admin();
    let root = "root".to_string();
    let cfg = Config::new();
    match update_poll(Some(&cfg), &a, &root, &"sendemail".to_string(), &"sample".to_string(), None) {
        Ok(PollAction::SendEmail(stem)) => assert_eq!(stem, "sample"),
        other => panic!("expected SendEmail, got {:?}", other),
    }
    let mut bare = Config::new();
    bare.smtp_server = None;
    match update_poll(Some(&bare), &a, &root, &"sendemail".to_string(), &"sample".to_string(), None) {
        Err(RPError::InvalidInput(who)) => assert_eq!(who, "root"),
        other => panic!("expected InvalidInput, got {:?}", other),
    }
    match update_poll(None, &a, &root, &"sendemail".to_string(), &"sample".to_string(), None) {
        Err(RPError::InvalidInput(who)) => assert_eq!(who, "root"),
        other => panic!("expected InvalidInput, got {:?}", other),
    }
}

#[test]
fn config_defaults_and_dump() {
    let c = Config::new();
    assert_eq!(c.base_url, "http://localhost");
    assert!(!c.disable_login);
    assert!(!c.enable_admin);
    assert!(c.allow_editor);
    assert_eq!(c.smtp_server.as_deref(), Some("sendmail"));
    assert_eq!(
        c.dump(),
        "baseURL: http://localhost\ndisableLogin: false\nenableAdmin: false\nallowEditor: true\n\
         smtp: sendmail with anonymous,*** sender: no_reply@localhost\n\
         Mail subject: invite(Invitation for voting), remind(Invitation for voting (reminder))"
    );
}

#[test]
fn config_dump_uses_defaults_for_missing_fields() {
    let mut c = Config::new();
    c.smtp_server = None;
    c.smtp_sender = None;
    c.smtp_invite_subject = None;
    c.smtp_reminder_subject = None;
    assert_eq!(
        c.dump(),
        "baseURL: http://localhost\ndisableLogin: false\nenableAdmin: false\nallowEditor: true\n\
         smtp: sendmail with anonymous,*** sender: no_reply@<yourhost>\n\
         Mail subject: invite(We need you!), remind(We still need you!)"
    );
}

#[test]
fn config_template_fills_mail_placeholders() {
    let c = config_template();
    assert_eq!(c.smtp_server.as_deref(), Some("sendmail_or_your.smtp.server"));
    assert_eq!(c.smtp_port, Some(25));
    assert_eq!(c.smtp_username.as_deref(), Some("user.name"));
    assert_eq!(c.smtp_password.as_deref(), Some("super_secret"));
    assert_eq!(c.smtp_invite_subject.as_deref(), Some("We need you!"));
    assert_eq!(c.smtp_reminder_subject.as_deref(), Some("We still need you!"));
}

#[test]
fn voter_template_marks_the_first_voter_admin() {
    let first = rangepoll::voters::gen_template(true);
    assert!(first.admin);
    assert_eq!(first.username, "Isaac");
    assert_eq!(first.fullname.as_deref(), Some("Isaac Newton"));
    assert_eq!(first.email.as_deref(), Some("notinventedyet@newton.co.uk"));
    let later = rangepoll::voters::gen_template(false);
    assert!(!later.admin);
}
