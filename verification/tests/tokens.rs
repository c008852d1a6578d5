use rangepoll::poll::{Choice, Poll, VotingAlgorithm};
use rangepoll::rp_error::RPError;
use rangepoll::token::{check_token_access, decode_token, gen_voters_token, Claims, TOKEN_VALIDITY};

fn poll_with_allowed(allowed: &[&str], deadline: i64) -> Poll {
    Poll {
        name: "board vote".to_string(),
        filepath: String::new(),
        filename: Some("board".to_string()),
        desc: String::new(),
        description: None,
        desc_markdown: None,
        allowed_participant: allowed.iter().map(|v| v.to_string()).collect(),
        deadline_date: deadline,
        choices: vec![Choice {
            name: "A".to_string(),
            desc: String::new(),
            description: None,
            desc_markdown: None,
            vote: vec![],
            voter: vec![],
        }],
        voting_algorithm: VotingAlgorithm::Max,
        options: None,
    }
}

fn now() -> i64 {
    chrono::Utc::now().timestamp()
}

#[test]
fn tokens_issue_one_per_allowed_participant() {
    let p = poll_with_allowed(&["alice", "bob"], now() + 3600);
    let tokens = gen_voters_token(&"board".to_string(), &p, b"SECRET-REDACTED");
    assert_eq!(tokens.len(), 2);
    assert_eq!(tokens[0].voter, "alice");
    assert_eq!(tokens[1].voter, "bob");
    assert!(!tokens[0].token.is_empty());
    // Signing is deterministic: the same voter gets the same token again.
    let again = gen_voters_token(&"board".to_string(), &p, b"SECRET-REDACTED");
    assert_eq!(tokens[0].token, again[0].token);
    // Different voters get different tokens.
    assert_ne!(tokens[0].token, tokens[1].token);
}

#[test]
fn token_round_trip_carries_the_claims() {
    let deadline = now() + 3600;
    let p = poll_with_allowed(&["alice"], deadline);
    let tokens = gen_voters_token(&"board".to_string(), &p, b"SECRET-REDACTED");
    let claims = decode_token(&tokens[0].token, b"SECRET-REDACTED").unwrap();
    assert_eq!(claims.sub, "board");
    assert_eq!(claims.company, "alice");
    assert_eq!(claims.exp, deadline + TOKEN_VALIDITY);
}

#[test]
fn revoked_voter_is_rejected_despite_valid_token() {
    let deadline = now() + 3600;
    let p = poll_with_allowed(&["victor", "wendy"], deadline);
    let tokens = gen_voters_token(&"board".to_string(), &p, b"SECRET-REDACTED");
    let victors = tokens.iter().find(|t| t.voter == "victor").unwrap();

    // The token itself still decodes: its expiry has not elapsed.
    let claims = decode_token(&victors.token, b"SECRET-REDACTED").unwrap();
    assert_eq!(claims.company, "victor");

    // But victor was removed from the allowed list after issuance.
    let shrunk = poll_with_allowed(&["wendy"], deadline);
    match check_token_access(&shrunk, &claims) {
        Err(RPError::Unauthorized) => {}
        other => panic!("expected Unauthorized, got {:?}", other),
    }

    // An allowed voter still passes the same re-check.
    let wendys = tokens.iter().find(|t| t.voter == "wendy").unwrap();
    let wclaims = decode_token(&wendys.token, b"SECRET-REDACTED").unwrap();
    let (sub, company) = check_token_access(&shrunk, &wclaims).unwrap();
    assert_eq!(sub, "board");
    assert_eq!(company, "wendy");
}

#[test]
fn tampered_or_foreign_tokens_are_unauthorized() {
    let p = poll_with_allowed(&["alice"], now() + 3600);
    let tokens = gen_voters_token(&"board".to_string(), &p, b"SECRET-REDACTED");

    // Wrong secret.
    match decode_token(&tokens[0].token, b"other-key") {
        Err(RPError::Unauthorized) => {}
        other => panic!("expected Unauthorized, got {:?}", other),
    }
    // Not a token at all.
    match decode_token(&"definitely.not.a-token".to_string(), b"SECRET-REDACTED") {
        Err(RPError::Unauthorized) => {}
        other => panic!("expected Unauthorized, got {:?}", other),
    }
    // Tampered payload.
    let mut broken = tokens[0].token.clone();
    broken.push('x');
    match decode_token(&broken, b"SECRET-REDACTED") {
        Err(RPError::Unauthorized) => {}
        other => panic!("expected Unauthorized, got {:?}", other),
    }
}

#[test]
fn expired_token_is_unauthorized() {
    // Deadline so far in the past that deadline + 30 days is also past.
    let p = poll_with_allowed(&["alice"], now() - 2 * TOKEN_VALIDITY);
    let tokens = gen_voters_token(&"board".to_string(), &p, b"SECRET-REDACTED");
    match decode_token(&tokens[0].token, b"SECRET-REDACTED") {
        Err(RPError::Unauthorized) => {}
        other => panic!("expected Unauthorized, got {:?}", other),
    }
}

#[test]
fn claims_constructor_keeps_the_fields() {
    let c = Claims::new("p1".to_string(), "alice".to_string(), 1234567);
    assert_eq!(c.sub, "p1");
    assert_eq!(c.company, "alice");
    assert_eq!(c.exp, 1234567);
}
