//! The authorization gate, exercised with real tokens: the gateway
//! endpoints reject unauthenticated requests before the store is touched,
//! and accept properly signed, unexpired tokens.

use bank_core::auth::{authorize, claims_decision, login_decision, TokenClaims};
use bank_core::bank::Bank;
use bank_core::errors::{http_status, ErrorCode};
use bank_core::gateway::{handle_deposit, handle_history, handle_withdrawal};
use bank_core::model::AccountType;
use bank_core::oid::DocId;

const SECRET: &str = "test-signing-secret";
const AGENT_FLOAT: &str = "ffffffffffffffffffffffff";

fn hex_id(id: &DocId) -> String {
    format!("{:08x}{:016x}", id.hi, id.lo)
}

fn make_token(sub: &str, iat: i64, exp: i64, secret: &str) -> String {
    let mut claims = serde_json::Map::new();
    claims.insert(
        "sub".to_string(),
        serde_json::Value::String(sub.to_string()),
    );
    claims.insert(
        "iat".to_string(),
        serde_json::Value::Number(serde_json::Number::from(iat)),
    );
    claims.insert(
        "exp".to_string(),
        serde_json::Value::Number(serde_json::Number::from(exp)),
    );
    jsonwebtoken::encode(
        &jsonwebtoken::Header::default(),
        &serde_json::Value::Object(claims),
        &jsonwebtoken::EncodingKey::from_secret(secret.as_bytes()),
    )
    .unwrap()
}

fn fresh_token(sub: &str) -> String {
    let now = chrono::Utc::now().timestamp();
    make_token(sub, now, now + 3600, SECRET)
}

#[test]
fn valid_cookie_token_authorizes() {
    let sub = "550e8400-e29b-41d4-a716-446655440000";
    let token = fresh_token(sub);
    let r = authorize(Some(&token), None, SECRET.as_bytes());
    assert_eq!(r, Ok(sub.to_string()));
}

#[test]
fn valid_bearer_header_authorizes() {
    let sub = "550e8400-e29b-41d4-a716-446655440000";
    let header = format!("Bearer {}", fresh_token(sub));
    let r = authorize(None, Some(&header), SECRET.as_bytes());
    assert_eq!(r, Ok(sub.to_string()));
}

#[test]
fn cookie_wins_over_header() {
    let cookie_sub = "550e8400-e29b-41d4-a716-446655440000";
    let header_sub = "123e4567-e89b-42d3-a456-426614174000";
    let cookie = fresh_token(cookie_sub);
    let header = format!("Bearer {}", fresh_token(header_sub));
    let r = authorize(Some(&cookie), Some(&header), SECRET.as_bytes());
    assert_eq!(r, Ok(cookie_sub.to_string()));
}

#[test]
fn claims_decision_authenticates_the_verified_subject() {
    let verified = TokenClaims {
        sub: "550e8400-e29b-41d4-a716-446655440000".to_string(),
        iat: 1_700_000_000,
        exp: 1_700_003_600,
    };
    assert_eq!(
        claims_decision(Some(verified)),
        Ok("550e8400-e29b-41d4-a716-446655440000".to_string())
    );

    let odd_subject = TokenClaims {
        sub: "admin".to_string(),
        iat: 1_700_000_000,
        exp: 1_700_003_600,
    };
    assert_eq!(
        claims_decision(Some(odd_subject)),
        Err(ErrorCode::Unauthenticated)
    );
    assert_eq!(claims_decision(None), Err(ErrorCode::Unauthenticated));
}

#[test]
fn missing_token_is_unauthenticated() {
    assert_eq!(
        authorize(None, None, SECRET.as_bytes()),
        Err(ErrorCode::Unauthenticated)
    );
    assert_eq!(http_status(ErrorCode::Unauthenticated), 401);
}

#[test]
fn header_without_bearer_mark_is_unauthenticated() {
    let token = fresh_token("550e8400-e29b-41d4-a716-446655440000");
    assert_eq!(
        authorize(None, Some(&token), SECRET.as_bytes()),
        Err(ErrorCode::Unauthenticated)
    );
}

#[test]
fn short_or_markless_headers_carry_no_token() {
    // No bearer mark at all, a mark without a space, and a mark with an
    // empty rest: none authenticates.
    assert_eq!(
        authorize(None, Some("Token abc"), SECRET.as_bytes()),
        Err(ErrorCode::Unauthenticated)
    );
    assert_eq!(
        authorize(None, Some("Bearer"), SECRET.as_bytes()),
        Err(ErrorCode::Unauthenticated)
    );
    assert_eq!(
        authorize(None, Some("Bearer "), SECRET.as_bytes()),
        Err(ErrorCode::Unauthenticated)
    );
}

#[test]
fn expired_token_is_unauthenticated() {
    let now = chrono::Utc::now().timestamp();
    let token = make_token(
        "550e8400-e29b-41d4-a716-446655440000",
        now - 7200,
        now - 3600,
        SECRET,
    );
    assert_eq!(
        authorize(Some(&token), None, SECRET.as_bytes()),
        Err(ErrorCode::Unauthenticated)
    );
}

#[test]
fn wrong_secret_is_unauthenticated() {
    let token = fresh_token("550e8400-e29b-41d4-a716-446655440000");
    assert_eq!(
        authorize(Some(&token), None, b"another secret"),
        Err(ErrorCode::Unauthenticated)
    );
}

#[test]
fn garbled_token_is_unauthenticated() {
    assert_eq!(
        authorize(Some("not-a-token"), None, SECRET.as_bytes()),
        Err(ErrorCode::Unauthenticated)
    );
}

#[test]
fn non_uuid_subject_is_unauthenticated() {
    let token = fresh_token("admin");
    assert_eq!(
        authorize(Some(&token), None, SECRET.as_bytes()),
        Err(ErrorCode::Unauthenticated)
    );
}

#[test]
fn deposit_without_token_never_touches_store() {
    let mut bank = Bank::new();
    let u1 = bank
        .create_user(&"u1@example.com".to_string(), &"secret".to_string())
        .unwrap();
    let a1 = bank
        .create_account(&u1.uuid, AccountType::Checking, "main", 1_000)
        .unwrap();
    let a1_hex = hex_id(&a1);

    let r = handle_deposit(
        &mut bank,
        None,
        None,
        SECRET.as_bytes(),
        AGENT_FLOAT,
        &a1_hex,
        10000,
        true,
        2_000,
    );
    assert_eq!(r, Err(ErrorCode::Unauthenticated));
    assert_eq!(http_status(ErrorCode::Unauthenticated), 401);
    assert_eq!(bank.read_balance(&a1_hex), Ok(0));
    assert!(bank.get_transaction_history(&a1_hex).unwrap().is_empty());
}

#[test]
fn withdrawal_and_history_without_token_rejected() {
    let mut bank = Bank::new();
    let u1 = bank
        .create_user(&"u1@example.com".to_string(), &"secret".to_string())
        .unwrap();
    let a1 = bank
        .create_account(&u1.uuid, AccountType::Checking, "main", 1_000)
        .unwrap();
    let a1_hex = hex_id(&a1);

    let w = handle_withdrawal(&mut bank, None, None, SECRET.as_bytes(), &a1_hex, 100, 2_000);
    assert_eq!(w, Err(ErrorCode::Unauthenticated));
    let h = handle_history(&bank, None, None, SECRET.as_bytes(), &a1_hex);
    assert_eq!(h, Err(ErrorCode::Unauthenticated));
    assert_eq!(bank.read_balance(&a1_hex), Ok(0));
}

#[test]
fn authenticated_deposit_reaches_engine() {
    let mut bank = Bank::new();
    let u1 = bank
        .create_user(&"u1@example.com".to_string(), &"secret".to_string())
        .unwrap();
    let a1 = bank
        .create_account(&u1.uuid, AccountType::Checking, "main", 1_000)
        .unwrap();
    let a1_hex = hex_id(&a1);
    let token = fresh_token(&u1.uuid);

    let r = handle_deposit(
        &mut bank,
        Some(&token),
        None,
        SECRET.as_bytes(),
        AGENT_FLOAT,
        &a1_hex,
        10000,
        true,
        2_000,
    );
    assert_eq!(r, Ok(()));
    assert_eq!(bank.read_balance(&a1_hex), Ok(10000));

    let w = handle_withdrawal(
        &mut bank,
        Some(&token),
        None,
        SECRET.as_bytes(),
        &a1_hex,
        2500,
        3_000,
    );
    assert!(w.is_ok());
    let h = handle_history(&bank, Some(&token), None, SECRET.as_bytes(), &a1_hex).unwrap();
    assert_eq!(h.len(), 2);
    assert_eq!(bank.read_balance(&a1_hex), Ok(7500));
}

#[test]
fn login_issues_hour_long_claims() {
    let mut bank = Bank::new();
    let user = bank
        .create_user(&"u1@example.com".to_string(), &"right horse".to_string())
        .unwrap();

    let granted = login_decision(&user, &"right horse".to_string(), 1_700_000_000);
    let claims = granted.unwrap();
    assert_eq!(claims.sub, user.uuid);
    assert_eq!(claims.iat, 1_700_000_000);
    assert_eq!(claims.exp, 1_700_003_600);

    let denied = login_decision(&user, &"wrong battery".to_string(), 1_700_000_000);
    assert!(denied.is_none());
}

#[test]
fn issued_claims_round_trip_through_the_gate() {
    let mut bank = Bank::new();
    let user = bank
        .create_user(&"u1@example.com".to_string(), &"pw".to_string())
        .unwrap();
    let now = chrono::Utc::now().timestamp() as u64;
    let claims = login_decision(&user, &"pw".to_string(), now).unwrap();
    let token = make_token(&claims.sub, claims.iat as i64, claims.exp as i64, SECRET);
    let r = authorize(Some(&token), None, SECRET.as_bytes());
    assert_eq!(r, Ok(user.uuid));
}

#[test]
fn clock_reads_a_current_instant() {
    // 2020-01-01T00:00:00Z in milliseconds; any current clock is past it.
    let t = bank_core::wrappers::current_time_millis();
    assert!(t > 1_577_836_800_000);
}
