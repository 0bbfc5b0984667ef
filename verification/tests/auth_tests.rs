use watchlist_core::authgate::{auth_gate, AuthDecision, JWTMiddleware};
use watchlist_core::errors::{ApiError, ErrorResponse};
use watchlist_core::token::{verify, TokenError};

const SECRET: &[u8] = b"service-shared-secret";
const NOW: u64 = 1_700_000_000;
const FUTURE_EXP: u64 = 4_102_444_800;

fn make_token(user_id: i64, username: &str, exp: u64, secret: &[u8]) -> String {
    let mut m = serde_json::Map::new();
    m.insert("user_id".to_string(), serde_json::Value::from(user_id));
    m.insert("username".to_string(), serde_json::Value::from(username));
    m.insert("exp".to_string(), serde_json::Value::from(exp));
    jsonwebtoken::encode(
        &jsonwebtoken::Header::default(),
        &serde_json::Value::Object(m),
        &jsonwebtoken::EncodingKey::from_secret(secret),
    )
    .unwrap()
}

fn b64url(data: &[u8]) -> String {
    const ALPHABET: &[u8] =
        b"ABCDEFGHIJKLMNOPQRSTUVWXYZabcdefghijklmnopqrstuvwxyz0123456789-_";
    let mut out = String::new();
    for chunk in data.chunks(3) {
        let b0 = chunk[0] as u32;
        let b1 = if chunk.len() > 1 { chunk[1] as u32 } else { 0 };
        let b2 = if chunk.len() > 2 { chunk[2] as u32 } else { 0 };
        let n = (b0 << 16) | (b1 << 8) | b2;
        out.push(ALPHABET[(n >> 18) as usize] as char);
        out.push(ALPHABET[((n >> 12) & 63) as usize] as char);
        if chunk.len() > 1 {
            out.push(ALPHABET[((n >> 6) & 63) as usize] as char);
        }
        if chunk.len() > 2 {
            out.push(ALPHABET[(n & 63) as usize] as char);
        }
    }
    out
}

#[test]
fn valid_token_yields_matching_claims() {
    let tok = make_token(7, "alice", FUTURE_EXP, SECRET);
    let claims = verify(&tok, SECRET, NOW).unwrap();
    assert_eq!(claims.user_id, 7);
    assert_eq!(claims.username, "alice");
    assert_eq!(claims.exp, FUTURE_EXP);
}

#[test]
fn gate_forwards_valid_token_with_claims() {
    let tok = make_token(42, "bob", FUTURE_EXP, SECRET);
    let header = format!("Bearer {}", tok);
    match auth_gate("/api/v1/watchlistgroup", Some(&header), SECRET, NOW) {
        AuthDecision::Forward(claims) => {
            assert_eq!(claims.user_id, 42);
            assert_eq!(claims.username, "bob");
            assert_eq!(claims.exp, FUTURE_EXP);
        }
        other => panic!("expected Forward, got {:?}", other),
    }
}

#[test]
fn gate_rejects_missing_header_with_401() {
    match auth_gate("/api/v1/watchlistgroup", None, SECRET, NOW) {
        AuthDecision::Reject(e) => {
            assert!(matches!(e, ApiError::MissingAuthorizationHeader));
            assert_eq!(e.status_code(), 401);
        }
        other => panic!("expected Reject, got {:?}", other),
    }
}

#[test]
fn missing_header_body_names_the_missing_token() {
    match auth_gate("/api/v1/watchlistgroup", None, SECRET, NOW) {
        AuthDecision::Reject(e) => {
            assert_eq!(e.status_code(), 401);
            let body = ErrorResponse::new(vec![e.message()]).to_bytes();
            assert_eq!(body, b"{\"errors\":[\"Missing Token\"]}".to_vec());
        }
        other => panic!("expected Reject, got {:?}", other),
    }
}

#[test]
fn wrong_signature_is_invalid_token_401() {
    let tok = make_token(7, "alice", FUTURE_EXP, b"another-secret");
    assert!(matches!(verify(&tok, SECRET, NOW), Err(TokenError::InvalidSignature)));
    let header = format!("Bearer {}", tok);
    match auth_gate("/api/v1/watchlistgroup", Some(&header), SECRET, NOW) {
        AuthDecision::Reject(e) => {
            assert!(matches!(e, ApiError::InvalidToken));
            assert_eq!(e.status_code(), 401);
        }
        other => panic!("expected Reject, got {:?}", other),
    }
}

#[test]
fn expired_token_is_expired_signature_401() {
    let tok = make_token(7, "alice", NOW - 60, SECRET);
    assert!(matches!(verify(&tok, SECRET, NOW), Err(TokenError::Expired)));
    let header = format!("Bearer {}", tok);
    match auth_gate("/api/v1/watchlistgroup", Some(&header), SECRET, NOW) {
        AuthDecision::Reject(e) => {
            assert!(matches!(e, ApiError::ExpiredSignature));
            assert_eq!(e.status_code(), 401);
        }
        other => panic!("expected Reject, got {:?}", other),
    }
}

#[test]
fn structurally_broken_tokens_are_malformed() {
    assert!(matches!(verify("nodots", SECRET, NOW), Err(TokenError::Malformed)));
    assert!(matches!(verify("a.b", SECRET, NOW), Err(TokenError::Malformed)));
    assert!(matches!(verify("a.b.c.d", SECRET, NOW), Err(TokenError::Malformed)));
    assert!(matches!(verify("!!.??.##", SECRET, NOW), Err(TokenError::Malformed)));
    let header = "Token abc";
    match auth_gate("/api/v1/watchlist", Some(header), SECRET, NOW) {
        AuthDecision::Reject(e) => {
            assert!(matches!(e, ApiError::MalformedAuthorizationToken));
            assert_eq!(e.status_code(), 401);
        }
        other => panic!("expected Reject, got {:?}", other),
    }
    match auth_gate("/api/v1/watchlist", Some("Bearer x.y"), SECRET, NOW) {
        AuthDecision::Reject(e) => {
            assert!(matches!(e, ApiError::MalformedAuthorizationToken));
        }
        other => panic!("expected Reject, got {:?}", other),
    }
}

#[test]
fn other_algorithm_is_invalid_token() {
    let header = b64url(b"{\"alg\":\"none\"}");
    let payload = b64url(b"{\"user_id\":7,\"username\":\"alice\",\"exp\":4102444800}");
    let tok = format!("{}.{}.{}", header, payload, "AAAA");
    assert!(matches!(verify(&tok, SECRET, NOW), Err(TokenError::InvalidSignature)));
}

#[test]
fn exempt_path_forwards_without_identity() {
    match auth_gate("/health", None, SECRET, NOW) {
        AuthDecision::ForwardExempt => {}
        other => panic!("expected ForwardExempt, got {:?}", other),
    }
}

#[test]
fn middleware_stage_applies_the_gate() {
    let mw = JWTMiddleware::new(String::from_utf8(SECRET.to_vec()).unwrap());
    let stage = mw.transform(());
    let tok = make_token(9, "carol", FUTURE_EXP, SECRET);
    let header = format!("Bearer {}", tok);
    match stage.decide("/api/v1/watchlist", Some(&header), NOW) {
        AuthDecision::Forward(claims) => assert_eq!(claims.user_id, 9),
        other => panic!("expected Forward, got {:?}", other),
    }
    match stage.decide("/health", None, NOW) {
        AuthDecision::ForwardExempt => {}
        other => panic!("expected ForwardExempt, got {:?}", other),
    }
}

#[test]
fn expiry_equal_to_now_is_still_valid() {
    let tok = make_token(7, "alice", NOW, SECRET);
    let claims = verify(&tok, SECRET, NOW).unwrap();
    assert_eq!(claims.exp, NOW);
}

#[test]
fn claim_fields_parse_in_any_order() {
    let header = b64url(b"{\"typ\":\"JWT\",\"alg\":\"HS256\"}");
    let payload = b64url(b"{\"user_id\":7,\"username\":\"alice\",\"exp\":4102444800}");
    let msg = format!("{}.{}", header, payload);
    let sig = jsonwebtoken::crypto::sign(
        msg.as_bytes(),
        &jsonwebtoken::EncodingKey::from_secret(SECRET),
        jsonwebtoken::Algorithm::HS256,
    )
    .unwrap();
    let tok = format!("{}.{}", msg, sig);
    let claims = verify(&tok, SECRET, NOW).unwrap();
    assert_eq!(claims.user_id, 7);
    assert_eq!(claims.username, "alice");
}

#[test]
fn extra_claim_fields_are_malformed() {
    let header = b64url(b"{\"typ\":\"JWT\",\"alg\":\"HS256\"}");
    let payload = b64url(
        b"{\"user_id\":7,\"username\":\"alice\",\"exp\":4102444800,\"iat\":1}",
    );
    let msg = format!("{}.{}", header, payload);
    let sig = jsonwebtoken::crypto::sign(
        msg.as_bytes(),
        &jsonwebtoken::EncodingKey::from_secret(SECRET),
        jsonwebtoken::Algorithm::HS256,
    )
    .unwrap();
    let tok = format!("{}.{}", msg, sig);
    assert!(matches!(verify(&tok, SECRET, NOW), Err(TokenError::Malformed)));
}

