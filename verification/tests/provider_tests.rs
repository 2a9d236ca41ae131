use auth_framework::collections::{StringMap, StringSet};
use auth_framework::error::AuthError;
use auth_framework::model::User;
use auth_framework::providers::{APIKeyAuthProvider, AuthProvider, LocalAuthProvider};

fn creds(pairs: &[(&str, &str)]) -> StringMap<String> {
    let mut m = StringMap::new();
    for (k, v) in pairs {
        m.insert(k.to_string(), v.to_string());
    }
    m
}

#[test]
fn local_auth_provider() {
    let mut provider = LocalAuthProvider::new();
    let roles = StringSet::from_vec(vec!["admin".to_string()]);
    let permissions = StringSet::from_vec(vec!["read:all".to_string()]);

    let user = provider
        .register_user(
            "alice",
            "secure_password",
            Some("alice@example.com"),
            Some(&roles),
            Some(&permissions),
            None,
        )
        .unwrap();
    assert_eq!(user.username, "alice");

    let mut creds = StringMap::new();
    creds.insert("username".to_string(), "alice".to_string());
    creds.insert("password".to_string(), "secure_password".to_string());

    let authenticated = provider.authenticate(&creds).unwrap();
    assert!(authenticated.is_some());
    assert_eq!(authenticated.unwrap().username, "alice");

    creds.insert("password".to_string(), "wrong_password".to_string());
    assert!(provider.authenticate(&creds).unwrap().is_none());

    creds.insert("username".to_string(), "bob".to_string());
    assert!(provider.authenticate(&creds).unwrap().is_none());
}

#[test]
fn api_key_auth_provider() {
    let mut provider = APIKeyAuthProvider::new();
    let user = User::new("user123", "alice");

    let api_key = provider.create_api_key(&user).unwrap();
    assert!(api_key.starts_with("ak_"));

    let mut creds = StringMap::new();
    creds.insert("api_key".to_string(), api_key);
    assert!(provider.authenticate(&creds).unwrap().is_some());

    provider.revoke_api_key(creds.get("api_key").unwrap());
    assert!(provider.authenticate(&creds).unwrap().is_none());
}

#[test]
fn registered_user_details_come_back() {
    let mut provider = LocalAuthProvider::new();
    let roles = StringSet::from_vec(vec!["r1".to_string(), "r2".to_string()]);
    let user = provider
        .register_user("bob", "pw", Some("bob@example.com"), Some(&roles), None, Some("tenant9"))
        .unwrap();
    assert_eq!(user.id.len(), 22);
    assert_eq!(user.email.as_deref(), Some("bob@example.com"));
    assert_eq!(user.tenant_id.as_deref(), Some("tenant9"));
    assert_eq!(user.permissions.len(), 0);
    let got = provider.authenticate(&creds(&[("username", "bob"), ("password", "pw")])).unwrap().unwrap();
    assert_eq!(got.id, user.id);
    assert!(got.has_role("r1") && got.has_role("r2"));
    assert_eq!(got.tenant_id.as_deref(), Some("tenant9"));
    assert_eq!(got.email.as_deref(), Some("bob@example.com"));
}

#[test]
fn empty_credentials_give_no_user() {
    let mut provider = LocalAuthProvider::new();
    provider.register_user("carl", "pw", None, None, None, None).unwrap();
    assert!(provider.authenticate(&creds(&[])).unwrap().is_none());
    assert!(provider.authenticate(&creds(&[("username", "carl")])).unwrap().is_none());
    assert!(provider.authenticate(&creds(&[("username", "carl"), ("password", "")])).unwrap().is_none());
    assert!(provider.authenticate(&creds(&[("username", ""), ("password", "pw")])).unwrap().is_none());
}

#[test]
fn re_registering_replaces_the_account() {
    let mut provider = LocalAuthProvider::new();
    let first = provider.register_user("dana", "old", None, None, None, None).unwrap();
    let second = provider.register_user("dana", "new", None, None, None, None).unwrap();
    assert_ne!(first.id, second.id);
    assert!(provider.authenticate(&creds(&[("username", "dana"), ("password", "old")])).unwrap().is_none());
    let got = provider.authenticate(&creds(&[("username", "dana"), ("password", "new")])).unwrap().unwrap();
    assert_eq!(got.id, second.id);
}

#[test]
fn api_keys_are_distinct_and_carry_the_user() {
    let mut provider = APIKeyAuthProvider::new();
    let mut user = User::new("u7", "eve");
    user.roles.insert("ops".to_string());
    let k1 = provider.create_api_key(&user).unwrap();
    let k2 = provider.create_api_key(&user).unwrap();
    assert_ne!(k1, k2);
    assert_eq!(k1.len(), 3 + 43);
    let got = provider.authenticate(&creds(&[("api_key", k2.as_str())])).unwrap().unwrap();
    assert_eq!(got.id, "u7");
    assert!(got.has_role("ops"));
    assert!(provider.authenticate(&creds(&[("api_key", "ak_nope")])).unwrap().is_none());
    assert!(provider.authenticate(&creds(&[("username", "eve")])).unwrap().is_none());
    let _: Option<AuthError> = None;
}
