use auth_framework::collections::StringMap;
use auth_framework::json::JsonValue;
use auth_framework::session::session_from_document;
use auth_framework::session::SessionManager;
use auth_framework::storage::{InMemoryStorage, StorageBackend};

#[test]
fn session_manager_lifecycle() {
    let mut manager = SessionManager::new(3600);

    let session = manager
        .create_session("user123", Some("device1"), Some("192.168.1.1"), None, 0)
        .unwrap();
    assert_eq!(session.user_id, "user123");

    let retrieved = manager.get_session(&session.id);
    assert!(retrieved.is_some());

    manager.revoke_session(&session.id);
    assert!(manager.get_session(&session.id).is_none());

    let s1 = manager.create_session("user123", None, None, None, 0).unwrap();
    let s2 = manager.create_session("user123", None, None, None, 0).unwrap();
    let s3 = manager.create_session("user456", None, None, None, 0).unwrap();

    manager.revoke_user_sessions("user123");
    assert!(manager.get_session(&s1.id).is_none());
    assert!(manager.get_session(&s2.id).is_none());
    assert!(manager.get_session(&s3.id).is_some());

    let expired = manager.create_session("user123", None, None, None, -1).unwrap();
    assert!(manager.get_session(&expired.id).is_none());
    manager.cleanup_expired();
}

#[test]
fn session_fields_read_back() {
    let mut manager = SessionManager::new(60);
    let now: u128 = 1_700_000_000_500_000_000;
    let s = manager
        .create_session_at("u1", Some("dev"), None, Some("agent/1"), 0, now, "sid1".to_string())
        .unwrap();
    assert_eq!(s.expires_at, Some(now + 60_000_000_000));
    let got = manager.get_session_at("sid1", now + 1_000_000_000).unwrap();
    assert_eq!(got.id, "sid1");
    assert_eq!(got.user_id, "u1");
    assert_eq!(got.device_id.as_deref(), Some("dev"));
    assert!(got.ip_address.is_none());
    assert_eq!(got.user_agent.as_deref(), Some("agent/1"));
    assert_eq!(got.created_at, 1_700_000_000_000_000_000);
    assert_eq!(got.last_activity, now + 1_000_000_000);
    assert_eq!(got.expires_at, Some(1_700_000_060_000_000_000));
    assert!(manager.get_session_at("sid1", 1_700_000_060_000_000_001).is_none());
    assert!(manager.get_session_at("missing", now).is_none());
}

#[test]
fn sessions_index_and_cleanup() {
    let mut storage = InMemoryStorage::new();
    storage.set("keep:me", "1".to_string());
    let mut manager = SessionManager::new_with_storage(3600, storage);
    let now: u128 = 1_700_000_000_000_000_000;
    manager.create_session_at("u", None, None, None, 10, now, "a".to_string()).unwrap();
    manager.create_session_at("u", None, None, None, 1000, now, "b".to_string()).unwrap();
    manager.create_session_at("v", None, None, None, 10, now, "c".to_string()).unwrap();
    manager.cleanup_expired_at(now + 100_000_000_000);
    assert!(manager.get_session_at("a", now).is_none());
    assert!(manager.get_session_at("c", now).is_none());
    assert!(manager.get_session_at("b", now).is_some());
    manager.revoke_user_sessions("u");
    assert!(manager.get_session_at("b", now).is_none());
}

#[test]
fn default_lifetime_is_used_for_zero() {
    let mut manager = SessionManager::default();
    let now: u128 = 2_000_000_000_000_000_000;
    let s = manager.create_session_at("u", None, None, None, 0, now, "x".to_string()).unwrap();
    assert_eq!(s.expires_at, Some(now + 3600 * 1_000_000_000));
    let e = manager.create_session_at("u", None, None, None, -5, now, "y".to_string()).unwrap();
    assert_eq!(e.expires_at, Some(now - 1_000_000_000));
}

#[test]
fn session_record_reads_from_document() {
    let mut m: StringMap<JsonValue> = StringMap::new();
    m.insert("id".to_string(), JsonValue::Str("s1".to_string()));
    m.insert("user_id".to_string(), JsonValue::Str("u1".to_string()));
    m.insert("device_id".to_string(), JsonValue::Null);
    m.insert("ip_address".to_string(), JsonValue::Str("10.0.0.1".to_string()));
    m.insert("created_at".to_string(), JsonValue::UInt(100));
    m.insert("last_activity".to_string(), JsonValue::UInt(150));
    m.insert("expires_at".to_string(), JsonValue::UInt(200));
    let s = session_from_document(JsonValue::Object(m)).unwrap();
    assert_eq!(s.id, "s1");
    assert_eq!(s.user_id, "u1");
    assert_eq!(s.device_id, None);
    assert_eq!(s.ip_address.as_deref(), Some("10.0.0.1"));
    assert_eq!(s.user_agent, None);
    assert_eq!(s.created_at, 100_000_000_000);
    assert_eq!(s.last_activity, 150_000_000_000);
    assert_eq!(s.expires_at, Some(200_000_000_000));
    assert!(s.metadata.is_empty());

    let mut no_user: StringMap<JsonValue> = StringMap::new();
    no_user.insert("id".to_string(), JsonValue::Str("s1".to_string()));
    no_user.insert("created_at".to_string(), JsonValue::UInt(100));
    no_user.insert("last_activity".to_string(), JsonValue::UInt(100));
    assert!(session_from_document(JsonValue::Object(no_user)).is_none());
}
