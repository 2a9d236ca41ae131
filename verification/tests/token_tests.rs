use auth_framework::collections::StringMap;
use auth_framework::error::AuthError;
use auth_framework::hasher::PBKDF2Hasher;
use auth_framework::json::JsonValue;
use auth_framework::jwt::SimpleJWTGenerator;
use auth_framework::model::{TokenType, User};
use auth_framework::opaque::OpaqueTokenGenerator;
use auth_framework::storage::{InMemoryStorage, StorageBackend};
use auth_framework::tokens::TokenGenerator;
use base64::Engine;
use std::time::{SystemTime, UNIX_EPOCH};

fn now_nanos() -> u128 {
    SystemTime::now().duration_since(UNIX_EPOCH).unwrap().as_nanos()
}

fn now_secs() -> u64 {
    SystemTime::now().duration_since(UNIX_EPOCH).unwrap().as_secs()
}

fn b64url(bytes: &[u8]) -> String {
    base64::engine::general_purpose::URL_SAFE_NO_PAD.encode(bytes)
}

fn sign(secret: &str, header: &str, claims: &str) -> String {
    let h = b64url(header.as_bytes());
    let c = b64url(claims.as_bytes());
    let message = format!("{}.{}", h, c);
    let key = ring::hmac::Key::new(ring::hmac::HMAC_SHA256, secret.as_bytes());
    let tag = ring::hmac::sign(&key, message.as_bytes());
    format!("{}.{}", message, b64url(tag.as_ref()))
}

#[test]
fn pbkdf2_hasher() {
    let hasher = PBKDF2Hasher::new();
    let password = "secure_password_123";

    let hashed = hasher.hash(password).unwrap();
    assert!(hashed.starts_with("pbkdf2_sha256$"));
    assert!(hasher.verify(password, &hashed).unwrap());
    assert!(!hasher.verify("wrong_password", &hashed).unwrap());

    let hashed2 = hasher.hash(password).unwrap();
    assert_ne!(hashed, hashed2);
    assert!(hasher.verify(password, &hashed2).unwrap());
}

#[test]
fn pbkdf2_known_salt_and_format() {
    let hasher = PBKDF2Hasher::new();
    let salt = [7u8; 32];
    let h = hasher.hash_with_salt("pw", &salt);
    let parts: Vec<&str> = h.split('$').collect();
    assert_eq!(parts.len(), 4);
    assert_eq!(parts[0], "pbkdf2_sha256");
    assert_eq!(parts[1], "100000");
    assert_eq!(parts[2], base64::engine::general_purpose::STANDARD.encode(salt));
    let mut expected = [0u8; 32];
    ring::pbkdf2::derive(
        ring::pbkdf2::PBKDF2_HMAC_SHA256,
        std::num::NonZeroU32::new(100_000).unwrap(),
        &salt,
        b"pw",
        &mut expected,
    );
    assert_eq!(parts[3], base64::engine::general_purpose::STANDARD.encode(expected));
    assert!(hasher.verify("pw", &h).unwrap());
}

#[test]
fn pbkdf2_malformed_hashes() {
    let hasher = PBKDF2Hasher::new();
    assert!(!hasher.verify("pw", "not-a-hash").unwrap());
    assert!(!hasher.verify("pw", "md5$1$AAAA$AAAA").unwrap());
    assert!(matches!(hasher.verify("pw", "pbkdf2_sha256$abc$AAAA$AAAA"), Err(AuthError::InvalidHashFormat)));
    assert!(matches!(hasher.verify("pw", "pbkdf2_sha256$10$!!!$AAAA"), Err(AuthError::Base64(_))));
    assert!(!hasher.verify("pw", "pbkdf2_sha256$10$AAAA$AAAA").unwrap());
}

#[test]
fn simple_jwt_generator() {
    let mut generator = SimpleJWTGenerator::new("test_secret_key");
    let mut user = User::new("user123", "alice");
    user.roles.insert("admin".to_string());

    let token = generator.generate(&user, 3600).unwrap();
    assert_eq!(token.token_type, TokenType::JWT);
    assert_eq!(token.user_id, "user123");
    assert!(!token.is_expired());

    let verified = generator.verify(&token.value).unwrap();
    assert!(verified.is_some());
    assert_eq!(verified.unwrap().user_id, "user123");
}

#[test]
fn jwt_rejects_invalid_and_expired() {
    let mut generator = SimpleJWTGenerator::new("test_secret_key");

    assert!(generator.verify("invalid.token.here").unwrap().is_none());

    let user = User::new("user123", "alice");
    let token = generator.generate(&user, -1).unwrap();
    assert!(generator.verify(&token.value).unwrap().is_none());
}

#[test]
fn jwt_claims_round_trip() {
    let mut generator = SimpleJWTGenerator::new("k")
        .with_issuer("iss1")
        .with_audience("aud1")
        .with_expected_issuer("iss1")
        .with_expected_audience("aud1")
        .with_key_id("kid1");
    let mut user = User::new("u9", "zoe");
    user.roles.insert("r1".to_string());
    user.permissions.insert("p1".to_string());
    user.tenant_id = Some("t1".to_string());
    let token = generator.generate_refresh(&user, 60, "fam1").unwrap();
    assert_eq!(token.token_type, TokenType::Refresh);
    let v = generator.verify(&token.value).unwrap().unwrap();
    assert_eq!(v.token_type, TokenType::Refresh);
    assert_eq!(v.user_id, "u9");
    assert_eq!(v.expires_at - v.issued_at, 60_000_000_000);
    assert!(matches!(v.metadata.get("username"), Some(JsonValue::Str(s)) if s == "zoe"));
    assert!(matches!(v.metadata.get("tenant_id"), Some(JsonValue::Str(s)) if s == "t1"));
    assert!(matches!(v.metadata.get("fid"), Some(JsonValue::Str(s)) if s == "fam1"));
    let parts: Vec<&str> = token.value.split('.').collect();
    assert_eq!(parts.len(), 3);
    let header = base64::engine::general_purpose::URL_SAFE_NO_PAD.decode(parts[0]).unwrap();
    assert_eq!(String::from_utf8(header).unwrap(), r#"{"alg":"HS256","kid":"kid1","typ":"JWT"}"#);
}

#[test]
fn jwt_wrong_secret_issuer_audience_kid_or_alg_refused() {
    let mut issuing = SimpleJWTGenerator::new("secret-a").with_issuer("a").with_audience("x");
    let user = User::new("u", "n");
    let token = issuing.generate(&user, 600).unwrap();
    assert!(SimpleJWTGenerator::new("secret-b").verify(&token.value).unwrap().is_none());
    assert!(SimpleJWTGenerator::new("secret-a").with_expected_issuer("b").verify(&token.value).unwrap().is_none());
    assert!(SimpleJWTGenerator::new("secret-a").with_expected_audience("y").verify(&token.value).unwrap().is_none());
    assert!(SimpleJWTGenerator::new("secret-a").with_key_id("k").verify(&token.value).unwrap().is_none());
    assert!(SimpleJWTGenerator::new("secret-a")
        .with_allowed_algorithms(vec!["HS512".to_string()])
        .verify(&token.value)
        .unwrap()
        .is_none());
    assert!(SimpleJWTGenerator::new("secret-a").with_expected_issuer("a").verify(&token.value).unwrap().is_some());
}

#[test]
fn jwt_missing_fields_are_errors() {
    let g = SimpleJWTGenerator::new("s");
    let exp = now_secs() + 600;
    let no_alg = sign("s", r#"{"typ":"JWT"}"#, r#"{"jti":"j"}"#);
    assert!(matches!(g.verify(&no_alg), Err(AuthError::InvalidToken)));
    let hdr = r#"{"alg":"HS256","typ":"JWT"}"#;
    let no_user = sign("s", hdr, &format!(r#"{{"exp":{},"iat":1,"jti":"j"}}"#, exp));
    assert!(matches!(g.verify(&no_user), Err(AuthError::MissingField(f)) if f == "user_id"));
    let no_iat = sign("s", hdr, &format!(r#"{{"exp":{},"jti":"j","user_id":"u"}}"#, exp));
    assert!(matches!(g.verify(&no_iat), Err(AuthError::MissingField(f)) if f == "iat"));
    let no_exp = sign("s", hdr, r#"{"iat":1,"jti":"j","user_id":"u"}"#);
    assert!(matches!(g.verify(&no_exp), Err(AuthError::MissingField(f)) if f == "exp"));
    let no_jti = sign("s", hdr, &format!(r#"{{"exp":{},"iat":1,"user_id":"u"}}"#, exp));
    assert!(g.verify(&no_jti).unwrap().is_none());
    let huge = sign("s", hdr, r#"{"exp":18446744073709551615,"iat":1,"jti":"j","user_id":"u"}"#);
    assert!(matches!(g.verify(&huge), Err(AuthError::TimeError)));
    let ok = sign("s", hdr, &format!(r#"{{"exp":{},"iat":1,"jti":"j","user_id":"u"}}"#, exp));
    let t = g.verify(&ok).unwrap().unwrap();
    assert_eq!(t.user_id, "u");
    assert_eq!(t.token_type, TokenType::JWT);
    assert_eq!(t.issued_at, 1_000_000_000);
}

#[test]
fn jwt_revocation_and_family() {
    let mut g = SimpleJWTGenerator::new("s");
    let user = User::new("u", "n");
    let t = g.generate(&user, 600).unwrap();
    assert!(!g.is_revoked(&t.value));
    g.revoke(&t.value);
    assert!(g.is_revoked(&t.value));

    let mut storage = InMemoryStorage::new();
    storage.set("refresh_family:fam", "active".to_string());
    storage.set("refresh:abc", r#"{"metadata":{"fid":"fam"}}"#.to_string());
    storage.set("refresh:def", r#"{"metadata":{"fid":"other"}}"#.to_string());
    let mut g2 = SimpleJWTGenerator::new("s").with_storage(storage);
    let r = g2.generate_refresh(&user, 600, "fam").unwrap();
    g2.revoke(&r.value);
    assert!(g2.is_revoked(&r.value));
    assert!(g2.storage_get("refresh_family:fam").is_none());
    assert!(g2.storage_get("refresh:abc").is_none());
    assert!(g2.storage_get("refresh:def").is_some());
}

#[test]
fn opaque_token_generator() {
    let mut generator = OpaqueTokenGenerator::new();
    let user = User::new("user123", "alice");

    let token = generator.generate(&user, 3600).unwrap();
    assert_eq!(token.token_type, TokenType::Opaque);
    assert_eq!(token.user_id, "user123");
    assert_eq!(token.value.len(), 43);

    let verified = generator.verify(&token.value).unwrap();
    assert!(verified.is_some());

    generator.revoke(&token.value);
    assert!(generator.verify(&token.value).unwrap().is_none());
}

#[test]
fn opaque_refresh_tokens_and_expiry() {
    let mut g = OpaqueTokenGenerator::new();
    let mut user = User::new("u1", "amy");
    user.roles.insert("r".to_string());
    let r = g.generate_refresh(&user, 600, "famX").unwrap();
    assert_eq!(r.token_type, TokenType::Refresh);
    assert!(g.storage_get(&format!("refresh:{}", r.value)).is_some());
    let v = g.verify(&r.value).unwrap().unwrap();
    assert_eq!(v.token_type, TokenType::Refresh);
    assert_eq!(v.user_id, "u1");
    assert!(matches!(v.metadata.get("fid"), Some(JsonValue::Str(s)) if s == "famX"));

    let expired = g.generate(&user, 0).unwrap();
    assert!(g.verify(&expired.value).unwrap().is_none());
    assert!(g.verify("no-such-token").unwrap().is_none());
}

#[test]
fn opaque_verify_at_exact_instants() {
    let mut g = OpaqueTokenGenerator::new();
    let user = User::new("u", "n");
    let now = (now_nanos() / 1_000_000_000) * 1_000_000_000;
    let t = g.generate_opaque_at(&user, 10, TokenType::Opaque, None, now, "fixed".to_string()).unwrap();
    assert_eq!(t.value, "fixed");
    assert_eq!(t.expires_at, now + 10_000_000_000);
    assert!(g.verify_at("fixed", now + 10_000_000_000).unwrap().is_some());
    assert!(g.verify_at("fixed", now + 10_000_000_001).unwrap().is_none());
}

#[test]
fn opaque_corrupt_record_is_serialization_error() {
    let mut storage = InMemoryStorage::new();
    storage.set("opaque:bad", "not json".to_string());
    let g = OpaqueTokenGenerator::new().with_storage(storage);
    assert!(matches!(g.verify("bad"), Err(AuthError::Serialization(_))));
    let mut storage2 = InMemoryStorage::new();
    storage2.set("opaque:odd", r#"{"token_type":"Other","expires_at":1}"#.to_string());
    let g2 = OpaqueTokenGenerator::new().with_storage(storage2);
    assert!(g2.verify("odd").unwrap().is_none());
}

#[test]
fn storage_backend_basics() {
    let mut s = InMemoryStorage::new();
    assert!(s.set("a:1", "x".to_string()));
    assert_eq!(s.get("a:1").as_deref(), Some("x"));
    assert!(s.has("a:1"));
    s.set("a:2", "y".to_string());
    s.set("b:1", "z".to_string());
    let mut keys = s.keys("a:");
    keys.sort();
    assert_eq!(keys, vec!["a:1".to_string(), "a:2".to_string()]);
    assert!(s.delete("a:1"));
    assert!(!s.delete("a:1"));
    assert!(s.get("a:1").is_none());
    let copy = s.clone();
    s.clear();
    assert!(s.keys("").is_empty());
    assert_eq!(copy.get("b:1").as_deref(), Some("z"));
}

#[test]
fn json_duplicate_copies_values() {
    let mut m = StringMap::new();
    m.insert("a".to_string(), JsonValue::UInt(1));
    m.insert("b".to_string(), JsonValue::Array(vec![JsonValue::Str("x".to_string()), JsonValue::Null]));
    let v = JsonValue::Object(m);
    let d = v.duplicate();
    assert!(JsonValue::Null.is_null());
    assert!(!d.is_null());
    assert!(matches!(d.get("a"), Some(JsonValue::UInt(1))));
    assert!(matches!(d.get("b"), Some(JsonValue::Array(items)) if items.len() == 2));
}

#[test]
fn pbkdf2_zero_iterations_is_a_format_error() {
    let hasher = PBKDF2Hasher::new();
    let salt = [7u8; 16];
    let key = [9u8; 32];
    let std = base64::engine::general_purpose::STANDARD;
    let hashed = format!(
        "pbkdf2_sha256$0${}${}",
        base64::Engine::encode(&std, salt),
        base64::Engine::encode(&std, key)
    );
    assert!(PBKDF2Hasher::zero_iteration_hash(&hashed));
    assert!(matches!(hasher.verify_stored("pw", &hashed), Err(AuthError::InvalidHashFormat)));
    let good = hasher.hash("pw").unwrap();
    assert!(!PBKDF2Hasher::zero_iteration_hash(&good));
    assert_eq!(hasher.verify_stored("pw", &good).unwrap(), true);
    assert_eq!(hasher.verify_stored("other", &good).unwrap(), false);
}

#[test]
fn jwt_header_and_claims_on_given_documents() {
    let generator = SimpleJWTGenerator::new("secret").with_key_id("k1");
    let mut header: StringMap<JsonValue> = StringMap::new();
    header.insert("alg".to_string(), JsonValue::Str("HS256".to_string()));
    header.insert("kid".to_string(), JsonValue::Str("k1".to_string()));
    assert_eq!(generator.header_accepted(&JsonValue::Object(header)).unwrap(), true);
    let mut other_kid: StringMap<JsonValue> = StringMap::new();
    other_kid.insert("alg".to_string(), JsonValue::Str("HS256".to_string()));
    other_kid.insert("kid".to_string(), JsonValue::Str("k2".to_string()));
    assert_eq!(generator.header_accepted(&JsonValue::Object(other_kid)).unwrap(), false);
    let mut no_alg: StringMap<JsonValue> = StringMap::new();
    no_alg.insert("kid".to_string(), JsonValue::Str("k1".to_string()));
    assert!(matches!(generator.header_accepted(&JsonValue::Object(no_alg)), Err(AuthError::InvalidToken)));

    let mut claims: StringMap<JsonValue> = StringMap::new();
    claims.insert("jti".to_string(), JsonValue::Str("j1".to_string()));
    claims.insert("user_id".to_string(), JsonValue::Str("u1".to_string()));
    claims.insert("iat".to_string(), JsonValue::UInt(10));
    claims.insert("exp".to_string(), JsonValue::UInt(20));
    let doc = JsonValue::Object(claims);
    let t = generator.token_from_claims_doc("v", doc.duplicate(), 20_000_000_000).unwrap().unwrap();
    assert_eq!(t.user_id, "u1");
    assert_eq!(t.token_type, TokenType::JWT);
    assert_eq!(t.expires_at, 20_000_000_000);
    assert!(generator.token_from_claims_doc("v", doc, 20_000_000_001).unwrap().is_none());
}
