use auth_framework::collections::{StringMap, StringSet};
use auth_framework::error::AuthError;
use auth_framework::model::{Session, Token, TokenType, User};
use std::time::{SystemTime, UNIX_EPOCH};

fn now_nanos() -> u128 {
    SystemTime::now().duration_since(UNIX_EPOCH).unwrap().as_nanos()
}

const SEC: u128 = 1_000_000_000;

fn set_of(items: &[&str]) -> StringSet {
    StringSet::from_vec(items.iter().map(|s| s.to_string()).collect())
}

#[test]
fn user_creation_and_checks() {
    let user = User {
        id: "user123".to_string(),
        username: "alice".to_string(),
        email: Some("alice@example.com".to_string()),
        roles: set_of(&["admin", "user"]),
        permissions: set_of(&["read:documents"]),
        metadata: StringMap::new(),
        tenant_id: Some("tenant1".to_string()),
    };

    assert_eq!(user.id, "user123");
    assert!(user.has_role("admin"));
    assert!(!user.has_role("viewer"));
    assert!(user.has_any_role(&["admin", "viewer"]));
    assert!(user.has_all_roles(&["admin", "user"]));
    assert!(!user.has_all_roles(&["admin", "viewer"]));
    assert!(user.has_permission("read:documents"));
    assert!(!user.has_permission("delete:documents"));
}

#[test]
fn token_expiry() {
    let now = now_nanos();
    let expired = Token {
        value: "token123".to_string(),
        token_type: TokenType::JWT,
        user_id: "user123".to_string(),
        expires_at: now - 3600 * SEC,
        issued_at: now - 7200 * SEC,
        metadata: StringMap::new(),
    };
    let valid = Token {
        value: "token456".to_string(),
        token_type: TokenType::JWT,
        user_id: "user123".to_string(),
        expires_at: now + 3600 * SEC,
        issued_at: now,
        metadata: StringMap::new(),
    };

    assert!(expired.is_expired());
    assert!(!valid.is_expired());
}

#[test]
fn session_expiry_and_touch() {
    let now = now_nanos();
    let expired = Session {
        id: "session123".to_string(),
        user_id: "user123".to_string(),
        device_id: None,
        ip_address: None,
        user_agent: None,
        created_at: now - 7200 * SEC,
        last_activity: now - 7200 * SEC,
        expires_at: Some(now - 3600 * SEC),
        metadata: StringMap::new(),
    };
    let mut valid = Session {
        id: "session456".to_string(),
        user_id: "user123".to_string(),
        device_id: None,
        ip_address: None,
        user_agent: None,
        created_at: now,
        last_activity: now,
        expires_at: Some(now + 3600 * SEC),
        metadata: StringMap::new(),
    };

    assert!(expired.is_expired());
    assert!(!valid.is_expired());

    let before = valid.last_activity;
    valid.touch_at(before + 10_000_000);
    assert!(valid.last_activity > before);
    valid.touch();
    assert!(valid.last_activity >= now);
}

#[test]
fn user_new_is_bare() {
    let user = User::new("u1", "bob");
    assert_eq!(user.id, "u1");
    assert_eq!(user.username, "bob");
    assert!(user.email.is_none());
    assert_eq!(user.roles.len(), 0);
    assert_eq!(user.permissions.len(), 0);
    assert!(user.tenant_id.is_none());
    assert!(!user.has_any_role(&[]));
    assert!(user.has_all_roles(&[]));
}

#[test]
fn user_clone_keeps_everything() {
    let mut user = User::new("u1", "bob");
    user.roles.insert("admin".to_string());
    user.permissions.insert("read:x".to_string());
    user.tenant_id = Some("t".to_string());
    user.email = Some("b@example.com".to_string());
    let copy = user.clone();
    assert_eq!(copy.id, "u1");
    assert_eq!(copy.username, "bob");
    assert!(copy.has_role("admin"));
    assert!(copy.has_permission("read:x"));
    assert_eq!(copy.tenant_id.as_deref(), Some("t"));
    assert_eq!(copy.email.as_deref(), Some("b@example.com"));
}

#[test]
fn session_expiry_boundary_and_no_expiry() {
    let s = Session {
        id: "s".to_string(),
        user_id: "u".to_string(),
        device_id: None,
        ip_address: None,
        user_agent: None,
        created_at: 0,
        last_activity: 0,
        expires_at: Some(100),
        metadata: StringMap::new(),
    };
    assert!(!s.is_expired_at(100));
    assert!(s.is_expired_at(101));
    let forever = Session { expires_at: None, ..s };
    assert!(!forever.is_expired_at(u128::MAX));
    assert!(!forever.is_expired());
}

#[test]
fn token_expiry_boundary() {
    let t = Token {
        value: "v".to_string(),
        token_type: TokenType::Opaque,
        user_id: "u".to_string(),
        expires_at: 50,
        issued_at: 0,
        metadata: StringMap::new(),
    };
    assert!(!t.is_expired_at(50));
    assert!(t.is_expired_at(51));
}

#[test]
fn error_messages() {
    assert_eq!(AuthError::InvalidCredentials.message(), "invalid credentials");
    assert_eq!(AuthError::InvalidToken.message(), "invalid token");
    assert_eq!(AuthError::InvalidSignature.message(), "invalid token signature");
    assert_eq!(AuthError::TokenExpired.message(), "token expired");
    assert_eq!(AuthError::UnknownProvider("x".to_string()).message(), "unknown provider: x");
    assert_eq!(AuthError::InvalidHashFormat.message(), "invalid password hash format");
    assert_eq!(AuthError::Serialization("m".to_string()).message(), "serialization error: m");
    assert_eq!(AuthError::Base64("m".to_string()).message(), "base64 error: m");
    assert_eq!(AuthError::Crypto("m".to_string()).message(), "cryptographic error: m");
    assert_eq!(AuthError::TimeError.message(), "system time error");
    assert_eq!(AuthError::MissingField("f".to_string()).message(), "missing field: f");
    assert_eq!(AuthError::InvalidSecret.message(), "invalid secret");
}

#[test]
fn string_collections() {
    let mut set = StringSet::new();
    assert!(set.insert("a".to_string()));
    assert!(!set.insert("a".to_string()));
    assert!(set.insert("b".to_string()));
    assert_eq!(set.len(), 2);
    assert_eq!(set.get(0), "a");
    assert!(set.contains("b"));
    let from = StringSet::from_vec(vec!["x".to_string(), "y".to_string(), "x".to_string()]);
    assert_eq!(from.len(), 2);

    let mut map: StringMap<u32> = StringMap::new();
    assert!(map.is_empty());
    assert_eq!(map.insert("k".to_string(), 1), None);
    assert_eq!(map.insert("k".to_string(), 2), Some(1));
    assert_eq!(map.len(), 1);
    assert_eq!(map.get("k"), Some(&2));
    assert!(map.contains_key("k"));
    assert_eq!(map.remove("k"), Some(2));
    assert!(map.get("k").is_none());
}
