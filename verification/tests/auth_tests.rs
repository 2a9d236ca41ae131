use auth_framework::auth::{Auth, AuthConfig, Provider};
use auth_framework::policy::PolicyRule;
use auth_framework::collections::StringMap;
use auth_framework::error::AuthError;
use auth_framework::model::{TokenType, User};
use auth_framework::providers::{APIKeyAuthProvider, AuthProvider, LocalAuthProvider};
use auth_framework::jwt::SimpleJWTGenerator;
use auth_framework::storage::{InMemoryStorage, StorageBackend};
use auth_framework::tokens::TokenGenerator;

fn alice_creds() -> StringMap<String> {
    let mut creds = StringMap::new();
    creds.insert("username".to_string(), "alice".to_string());
    creds.insert("password".to_string(), "secure_password".to_string());
    creds
}

fn auth_with_alice(token_type: TokenType) -> Auth {
    let mut auth = Auth::new("test_secret", token_type, None).unwrap();
    let mut provider = LocalAuthProvider::new();
    provider
        .register_user("alice", "secure_password", None, None, None, None)
        .unwrap();
    auth.add_provider("local", Provider::Local(provider));
    auth
}

#[test]
fn auth_login_flow() {
    let mut auth = auth_with_alice(TokenType::JWT);
    let creds = alice_creds();

    let result = auth.login("local", &creds, true, 3600).unwrap();
    assert!(result.is_some());
    let result = result.unwrap();
    assert_eq!(result.user.username, "alice");
    assert!(!result.access_token.is_empty());
    assert!(!result.refresh_token.is_empty());
    assert!(result.session_id.is_some());
}

#[test]
fn auth_token_verification_and_revocation() {
    let mut auth = auth_with_alice(TokenType::JWT);
    let creds = alice_creds();

    let result = auth.login("local", &creds, false, 3600).unwrap().unwrap();
    let token = auth.verify_token(&result.access_token).unwrap();
    assert!(token.is_some());

    auth.revoke_token(&result.access_token);
    assert!(auth.verify_token(&result.access_token).unwrap().is_none());
}

#[test]
fn auth_refresh_token() {
    let mut auth = auth_with_alice(TokenType::JWT);
    let creds = alice_creds();

    let result = auth.login("local", &creds, false, 3600).unwrap().unwrap();

    let new_tokens = auth.refresh_token(&result.refresh_token, 3600).unwrap();
    assert!(new_tokens.is_some());
    let new_tokens = new_tokens.unwrap();
    assert!(!new_tokens.access_token.is_empty());
    assert_ne!(new_tokens.access_token, result.access_token);
}

#[test]
fn auth_check_permission() {
    let mut auth = Auth::new("test_secret", TokenType::JWT, None).unwrap();
    auth.policy_engine.add_role_permission("admin", "read:*");

    let mut user = User::new("user123", "alice");
    user.roles.insert("admin".to_string());

    assert!(auth.check_permission(&user, "read", "document:123", None));
    assert!(!auth.check_permission(&user, "write", "document:123", None));
}

#[test]
fn auth_opaque_tokens() {
    let mut auth = auth_with_alice(TokenType::Opaque);
    let creds = alice_creds();

    let result = auth.login("local", &creds, false, 3600).unwrap().unwrap();
    let token = auth.verify_token(&result.access_token).unwrap();
    assert!(token.is_some());
    assert_eq!(token.unwrap().token_type, TokenType::Opaque);
}

#[test]
fn empty_secret_is_refused() {
    assert!(matches!(Auth::new("", TokenType::JWT, None), Err(AuthError::InvalidSecret)));
}

#[test]
fn unknown_provider_is_an_error() {
    let mut auth = auth_with_alice(TokenType::JWT);
    assert!(matches!(auth.authenticate("ldap", &alice_creds()), Err(AuthError::UnknownProvider(n)) if n == "ldap"));
    assert!(matches!(auth.login("ldap", &alice_creds(), false, 60), Err(AuthError::UnknownProvider(_))));
}

#[test]
fn wrong_password_gives_no_login() {
    let mut auth = auth_with_alice(TokenType::JWT);
    let mut creds = alice_creds();
    creds.insert("password".to_string(), "nope".to_string());
    assert!(auth.login("local", &creds, true, 60).unwrap().is_none());
}

#[test]
fn login_result_shape_and_session_details() {
    let mut auth = auth_with_alice(TokenType::JWT);
    let mut creds = alice_creds();
    creds.insert("device_id".to_string(), "phone".to_string());
    creds.insert("ip_address".to_string(), "10.0.0.1".to_string());
    let r = auth.login("local", &creds, true, 120).unwrap().unwrap();
    assert_eq!(r.token_type, "Bearer");
    assert_eq!(r.expires_in, 120);
    assert_eq!(r.family_id.as_ref().unwrap().len(), 22);
    let sid = r.session_id.unwrap();
    let s = auth.session_manager.get_session(&sid).unwrap();
    assert_eq!(s.user_id, r.user.id);
    assert_eq!(s.device_id.as_deref(), Some("phone"));
    assert_eq!(s.ip_address.as_deref(), Some("10.0.0.1"));
    assert!(s.user_agent.is_none());
    let refresh = auth.verify_token(&r.refresh_token).unwrap().unwrap();
    assert_eq!(refresh.token_type, TokenType::Refresh);
    assert_eq!(refresh.expires_at - refresh.issued_at, 120 * 24 * 1_000_000_000);
}

#[test]
fn refresh_rotation_and_reuse_detection() {
    for kind in [TokenType::JWT, TokenType::Opaque] {
        let mut auth = auth_with_alice(kind);
        let first = auth.login("local", &alice_creds(), false, 3600).unwrap().unwrap();
        let second = auth.refresh_tokens(&first.refresh_token).unwrap().unwrap();
        assert_eq!(second.family_id, first.family_id);
        assert_eq!(second.expires_in, 3600);
        assert_eq!(second.token_type, "Bearer");
        assert_ne!(second.refresh_token, first.refresh_token);
        assert!(auth.verify_token(&second.access_token).unwrap().is_some());
        // The rotated token is dead.
        assert!(auth.refresh_tokens(&first.refresh_token).unwrap().is_none());
        assert!(auth.verify_token(&first.refresh_token).unwrap().is_none());
        // The new one still rotates.
        let third = auth.refresh_tokens(&second.refresh_token).unwrap().unwrap();
        assert_eq!(third.family_id, first.family_id);
    }
}

#[test]
fn non_active_refresh_token_is_reuse() {
    let mut auth = auth_with_alice(TokenType::JWT);
    let first = auth.login("local", &alice_creds(), false, 3600).unwrap().unwrap();
    // An access token is no refresh token.
    assert!(auth.refresh_tokens(&first.access_token).unwrap().is_none());
    assert!(auth.refresh_tokens("not-a-token").unwrap().is_none());
    // A validly signed refresh token whose family has another active token
    // is treated as reuse: refused and revoked.
    let mut outside = SimpleJWTGenerator::new("test_secret");
    let stray = outside.generate_refresh(&first.user, 3600, first.family_id.as_ref().unwrap()).unwrap();
    assert!(auth.verify_token(&stray.value).unwrap().is_some());
    assert!(matches!(auth.refresh_tokens(&stray.value), Err(AuthError::InvalidToken)));
    assert!(auth.verify_token(&stray.value).unwrap().is_none());
    // Revoking a member revoked the family: the active token no longer rotates.
    assert!(matches!(auth.refresh_tokens(&first.refresh_token), Err(AuthError::InvalidToken)));
}

#[test]
fn auth_with_config_and_storage() {
    let mut storage = InMemoryStorage::new();
    storage.set("session:old", "{}".to_string());
    let config = AuthConfig {
        issuer: Some("me".to_string()),
        audience: Some("you".to_string()),
        key_id: Some("k1".to_string()),
        allowed_algorithms: vec!["HS256".to_string()],
    };
    let mut auth = Auth::new_with_config("s3cret", TokenType::JWT, config, Some(storage)).unwrap();
    let mut keys = APIKeyAuthProvider::new();
    let key = keys.create_api_key(&User::new("u1", "svc")).unwrap();
    auth.add_provider("keys", Provider::ApiKey(keys));
    let mut creds = StringMap::new();
    creds.insert("api_key".to_string(), key);
    let r = auth.login("keys", &creds, false, 60).unwrap().unwrap();
    assert_eq!(r.user.id, "u1");
    let t = auth.verify_token(&r.access_token).unwrap().unwrap();
    assert_eq!(t.user_id, "u1");
    assert!(matches!(t.metadata.get("username"), Some(auth_framework::json::JsonValue::Str(s)) if s == "svc"));
}

#[test]
fn default_config() {
    let c = AuthConfig::default();
    assert!(c.issuer.is_none() && c.audience.is_none() && c.key_id.is_none());
    assert_eq!(c.allowed_algorithms, vec!["HS256".to_string()]);
}

#[test]
fn auth_policy_methods_grant_and_deny() {
    let mut auth = Auth::new("test_secret", TokenType::JWT, None).unwrap();
    let mut user = User::new("user123", "alice");
    user.roles.insert("editor".to_string());

    assert!(!auth.check_permission(&user, "write", "document:1", None));
    auth.add_role_permission("editor", "write:*");
    assert!(auth.check_permission(&user, "write", "document:1", None));

    auth.add_rule(PolicyRule::new("role:editor", "write", "document:secret").with_effect("deny"));
    assert!(!auth.check_permission(&user, "write", "document:secret", None));
    assert!(auth.check_permission(&user, "write", "document:1", None));
}

#[test]
fn login_at_uses_the_given_family() {
    let mut auth = auth_with_alice(TokenType::JWT);
    let user = auth.authenticate("local", &alice_creds()).unwrap().unwrap();
    let result = auth
        .login_at(user, &alice_creds(), false, 600, "family-1".to_string())
        .unwrap();
    assert_eq!(result.family_id.as_deref(), Some("family-1"));
    assert_eq!(result.expires_in, 600);
    assert_eq!(result.token_type, "Bearer");
    assert!(result.session_id.is_none());
    let refresh = auth.verify_token(&result.refresh_token).unwrap().unwrap();
    assert_eq!(refresh.token_type, TokenType::Refresh);
    assert_eq!(refresh.expires_at - refresh.issued_at, 600 * 24 * 1_000_000_000);
}

#[test]
fn login_refusal_and_errors_change_nothing() {
    let mut auth = auth_with_alice(TokenType::Opaque);
    let mut bad = StringMap::new();
    bad.insert("username".to_string(), "alice".to_string());
    bad.insert("password".to_string(), "wrong".to_string());
    assert!(auth.login("local", &bad, true, 3600).unwrap().is_none());
    assert!(matches!(auth.login("nowhere", &bad, true, 3600), Err(AuthError::UnknownProvider(_))));
    let family = auth.login("local", &alice_creds(), false, 3600).unwrap().unwrap().family_id.unwrap();
    assert_eq!(family.len(), 22);
}

#[test]
fn refresh_at_fixed_instants() {
    let mut auth = auth_with_alice(TokenType::JWT);
    let result = auth.login("local", &alice_creds(), false, 60).unwrap().unwrap();
    let refresh = auth.verify_token(&result.refresh_token).unwrap().unwrap();
    let after_expiry = refresh.expires_at + 2_000_000_000;

    assert!(auth.refresh_token_at(&result.refresh_token, 60, after_expiry).unwrap().is_none());
    assert!(auth.refresh_tokens_at(&result.refresh_token, after_expiry).unwrap().is_none());

    let fresh = auth.refresh_token_at(&result.refresh_token, 60, refresh.issued_at).unwrap().unwrap();
    assert_eq!(fresh.expires_in, 60);
    let rotated = auth.refresh_tokens_at(&result.refresh_token, refresh.issued_at).unwrap().unwrap();
    assert_eq!(rotated.family_id, result.family_id);
    assert!(auth.refresh_tokens_at(&result.refresh_token, refresh.issued_at).unwrap().is_none());
}

struct FixedProvider;

impl AuthProvider for FixedProvider {
    fn answers(&self, credentials: &StringMap<String>, r: Result<Option<User>, AuthError>) -> bool {
        let expected = credentials.get("token").map(|t| t == "let-me-in").unwrap_or(false);
        match r {
            Ok(Some(u)) => expected && u.id == "u-42",
            Ok(None) => !expected,
            Err(_) => false,
        }
    }

    fn authenticate(&self, credentials: &StringMap<String>) -> Result<Option<User>, AuthError> {
        match credentials.get("token") {
            Some(t) if t == "let-me-in" => Ok(Some(User::new("u-42", "bob"))),
            _ => Ok(None),
        }
    }
}

#[test]
fn custom_provider_plugs_in() {
    let mut auth = Auth::new("test_secret", TokenType::JWT, None).unwrap();
    auth.add_provider("fixed", Provider::Custom(Box::new(FixedProvider)));
    let mut creds = StringMap::new();
    creds.insert("token".to_string(), "let-me-in".to_string());
    let result = auth.login("fixed", &creds, false, 3600).unwrap().unwrap();
    assert_eq!(result.user.id, "u-42");
    let mut wrong = StringMap::new();
    wrong.insert("token".to_string(), "nope".to_string());
    assert!(auth.login("fixed", &wrong, false, 3600).unwrap().is_none());
}
