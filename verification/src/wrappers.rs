//! Thin wrappers around the outside crates the logic relies on. Each is
//! trusted: Verus believes its contract and does not read its body.

use vstd::prelude::*;

use crate::auth::TokenClaims;

verus! {

/// Whether `uuid::Uuid::parse_str` accepts the string.
pub uninterp spec fn uuid_accepted(s: Seq<char>) -> bool;

/// Relies on uuid::Uuid::parse_str: acceptance depends on the characters
/// alone (a hexadecimal uuid in hyphenated, simple, urn or braced form).
#[verifier::external_body]
pub fn uuid_valid(s: &str) -> (r: bool)
    ensures
        r == uuid_accepted(s@),
{
    uuid::Uuid::parse_str(s).is_ok()
}

/// Relies on uuid::Uuid::new_v4 and its hyphenated rendering: a fresh
/// random identifier, written as 36 characters, in a form parse_str
/// accepts. Nothing more is promised of a random value.
#[verifier::external_body]
pub fn new_uuid() -> (r: String)
    ensures
        r@.len() == 36,
        uuid_accepted(r@),
{
    uuid::Uuid::new_v4().to_string()
}

/// Relies on chrono::Utc::now: the clock's reading, in Unix
/// milliseconds. Nothing can be promised of a clock.
#[verifier::external_body]
pub fn chrono_now_millis() -> (r: i64) {
    chrono::Utc::now().timestamp_millis()
}

/// The clock's reading as the store takes it: negative readings, before
/// the epoch, are clamped to zero.
pub fn current_time_millis() -> (r: u64) {
    let t = chrono_now_millis();
    if t < 0 {
        0
    } else {
        t as u64
    }
}

/// Relies on jsonwebtoken::decode with its default validation: the token
/// is accepted only when it is well-formed, HS256-signed with the
/// secret, and carries an `exp` that has not passed by more than the
/// default 60-second leeway; the claims handed back are the ones the
/// token carries. Validation reads the system clock, so nothing
/// deterministic can be promised of the outcome.
#[verifier::external_body]
pub fn decode_token(token: &[u8], secret: &[u8]) -> (r: Option<TokenClaims>) {
    let key = jsonwebtoken::DecodingKey::from_secret(secret);
    let validation = jsonwebtoken::Validation::default();
    let data = match jsonwebtoken::decode::<serde_json::Value>(token, &key, &validation) {
        Ok(d) => d,
        Err(_) => return None,
    };
    let sub = data.claims.get("sub").and_then(|v| v.as_str());
    let iat = data.claims.get("iat").and_then(|v| v.as_u64());
    let exp = data.claims.get("exp").and_then(|v| v.as_u64());
    match (sub, iat, exp) {
        (Some(s), Some(i), Some(e)) => Some(TokenClaims { sub: s.to_string(), iat: i, exp: e }),
        _ => None,
    }
}

} // verus!
