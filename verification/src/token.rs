use vstd::prelude::*;
use crate::poll::{Poll, contains_name};
use crate::rp_error::{RPError, RPErrorView};

verus! {

/// One voter's invitation: the voter's name and the signed token that lets
/// the voter in.
#[derive(Debug, Clone)]
pub struct Token {
    pub voter: String,
    pub token: String,
}

pub struct TokenView {
    pub voter: Seq<char>,
    pub token: Seq<char>,
}

impl View for Token {
    type V = TokenView;

    open spec fn view(&self) -> TokenView {
        TokenView {
            voter: self.voter@,
            token: self.token@,
        }
    }
}

/// The signed claims of an invitation token: the poll id (`sub`), the
/// voter's name (`company`), and the expiry instant in UTC seconds.
#[derive(Debug, Clone)]
pub struct Claims {
    pub sub: String,
    pub company: String,
    pub exp: i64,
}

pub struct ClaimsView {
    pub sub: Seq<char>,
    pub company: Seq<char>,
    pub exp: int,
}

impl View for Claims {
    type V = ClaimsView;

    open spec fn view(&self) -> ClaimsView {
        ClaimsView {
            sub: self.sub@,
            company: self.company@,
            exp: self.exp as int,
        }
    }
}

impl Claims {
    /// Builds a claims record.  Timestamps are whole seconds throughout the
    /// crate, which is exactly the granularity of a token's `exp` claim, so
    /// no normalization is needed and the fields are taken as given.
    pub fn new(sub: String, company: String, exp: i64) -> (r: Self)
        ensures
            r@.sub == sub@,
            r@.company == company@,
            r@.exp == exp as int,
    {
        Claims { sub, company, exp }
    }
}

/// How long past its poll's deadline an invitation token stays valid:
/// 30 days, in seconds.
pub const TOKEN_VALIDITY: i64 = 2592000;

/// The compact signed token that encoding the claims (sub, company, exp)
/// under HMAC-SHA256 with the given secret produces.  The encoding is a
/// function of these values alone.
pub uninterp spec fn jwt_of(sub: Seq<char>, company: Seq<char>, exp: int, secret: Seq<u8>) -> Seq<char>;

/// Relies on jsonwebtoken::encode with the default header (HS256) and
/// jsonwebtoken::EncodingKey::from_secret: signing is deterministic in the
/// claims and the secret, and it cannot fail here.  The key and header share
/// the HMAC family; an HMAC key accepts any secret length (a long one is
/// hashed, a short one padded); HMAC signing itself is infallible; and
/// serializing the fixed header and three plain claims cannot fail.  So
/// `encode` always returns Ok for these inputs, and the token is promised.
#[verifier::external_body]
fn encode_claims(sub: &str, company: &str, exp: i64, secret: &[u8]) -> (r: String)
    ensures
        r@ == jwt_of(sub@, company@, exp as int, secret@),
{
    let mut m = serde_json::Map::new();
    m.insert("sub".to_string(), serde_json::Value::from(sub));
    m.insert("company".to_string(), serde_json::Value::from(company));
    m.insert("exp".to_string(), serde_json::Value::from(exp));
    let header = jsonwebtoken::Header::default();
    let key = jsonwebtoken::EncodingKey::from_secret(secret);
    jsonwebtoken::encode(&header, &serde_json::Value::Object(m), &key)
        .expect("HS256 signing of plain claims cannot fail")
}

/// Relies on jsonwebtoken::decode::<serde_json::Value> with
/// Validation::new(HS256): the signature is verified against the secret and
/// the `exp` claim against the real clock, so which tokens pass cannot be
/// promised; the claims of an accepted token are handed back as plain values
/// (None when any of the three claims is missing or mistyped).  What can be
/// promised is the round trip: a token that is byte-for-byte the encoding of
/// some claims carries exactly those claims, since its payload is their
/// serialization and decoding only deserializes it back.
#[verifier::external_body]
fn decode_claims(token: &str, secret: &[u8]) -> (r: Option<(String, String, i64)>)
    ensures
        r matches Some(t) ==> forall|s: Seq<char>, c: Seq<char>, e: int|
            token@ == #[trigger] jwt_of(s, c, e, secret@)
                ==> t.0@ == s && t.1@ == c && t.2 as int == e,
{
    let key = jsonwebtoken::DecodingKey::from_secret(secret);
    let validation = jsonwebtoken::Validation::new(jsonwebtoken::Algorithm::HS256);
    let data = jsonwebtoken::decode::<serde_json::Value>(token, &key, &validation).ok()?;
    let sub = data.claims.get("sub")?.as_str()?.to_string();
    let company = data.claims.get("company")?.as_str()?.to_string();
    let exp = data.claims.get("exp")?.as_i64()?;
    Some((sub, company, exp))
}

/// Issues one signed invitation per allowed participant of the poll named
/// `name` (its record's file stem), in list order: claims {sub: the poll id,
/// company: the voter, exp: deadline + 30 days}, signed with the injected
/// process-wide secret.  Issuing cannot fail, so every participant's token
/// is owed, and the result says exactly which token each one receives.
pub fn gen_voters_token(name: &String, poll: &Poll, secret: &[u8]) -> (r: Vec<Token>)
    requires
        poll@.deadline_date + TOKEN_VALIDITY <= i64::MAX,
    ensures
        r@.len() == poll@.allowed_participant.len(),
        forall|i: int| 0 <= i < r@.len() ==> {
            &&& (#[trigger] r@[i])@.voter == poll@.allowed_participant[i]
            &&& r@[i]@.token == jwt_of(
                name@,
                poll@.allowed_participant[i],
                poll@.deadline_date + TOKEN_VALIDITY,
                secret@,
            )
        },
{
    let ghost p = poll@;
    let exp = poll.deadline_date + TOKEN_VALIDITY;
    let mut out: Vec<Token> = Vec::new();
    let nv = poll.allowed_participant.len();
    for i in 0..nv
        invariant
            p == poll@,
            nv == p.allowed_participant.len(),
            exp as int == p.deadline_date + TOKEN_VALIDITY,
            out@.len() == i,
            forall|k: int| 0 <= k < i ==> {
                &&& (#[trigger] out@[k])@.voter == p.allowed_participant[k]
                &&& out@[k]@.token == jwt_of(name@, p.allowed_participant[k], p.deadline_date + TOKEN_VALIDITY, secret@)
            },
    {
        let voter = poll.allowed_participant[i].clone();
        let tok = encode_claims(name.as_str(), voter.as_str(), exp, secret);
        out.push(Token { voter, token: tok });
    }
    out
}

/// Verifies a token's signature and expiry and hands back its claims.  Any
/// failure is answered with the bare `Unauthorized`: nothing about the cause
/// leaks.  What is accepted depends on the secret and the real clock, so the
/// membership re-check in `check_token_access` is stated separately over the
/// returned claims; but an accepted token that was issued here carries
/// exactly the claims it was issued with (the round-trip clause below).
pub fn decode_token(token: &String, secret: &[u8]) -> (r: Result<Claims, RPError>)
    ensures
        r matches Err(e) ==> e@ == RPErrorView::Unauthorized,
        r matches Ok(cl) ==> forall|s: Seq<char>, c: Seq<char>, e: int|
            token@ == #[trigger] jwt_of(s, c, e, secret@)
                ==> cl@.sub == s && cl@.company == c && cl@.exp == e,
{
    match decode_claims(token.as_str(), secret) {
        Some((sub, company, exp)) => {
            let cl = Claims { sub, company, exp };
            proof {
                assert forall|s: Seq<char>, c: Seq<char>, e: int|
                    token@ == #[trigger] jwt_of(s, c, e, secret@) implies cl@.sub == s
                    && cl@.company == c && cl@.exp == e by {}
            }
            Ok(cl)
        },
        None => Err(RPError::Unauthorized),
    }
}

/// Revocation by membership: a decoded token grants access if and only if
/// its voter still stands in the poll's allowed-participant list.  A voter
/// removed after the token was issued is rejected even though the token
/// itself is still valid, and the rejection is the bare `Unauthorized`.
pub fn check_token_access(poll: &Poll, claims: &Claims) -> (r: Result<(String, String), RPError>)
    ensures
        (r is Ok) == poll@.allowed_participant.contains(claims@.company),
        r matches Ok(sc) ==> sc.0@ == claims@.sub && sc.1@ == claims@.company,
        r matches Err(e) ==> e@ == RPErrorView::Unauthorized,
{
    if !contains_name(&poll.allowed_participant, &claims.company) {
        return Err(RPError::Unauthorized);
    }
    Ok((claims.sub.clone(), claims.company.clone()))
}

} // verus!
