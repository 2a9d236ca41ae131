use auth_framework::collections::{StringMap, StringSet};
use auth_framework::model::User;
use auth_framework::policy::{PolicyEngine, PolicyRule};

#[test]
fn policy_rule_matching() {
    let rule = PolicyRule::new("user:alice", "read", "document:123");

    assert!(rule.matches("user:alice", "read", "document:123", None));
    assert!(!rule.matches("user:bob", "read", "document:123", None));
    assert!(!rule.matches("user:alice", "write", "document:123", None));
}

#[test]
fn policy_rule_wildcard_and_conditions() {
    let rule = PolicyRule::new("role:admin", "*", "document:*");
    let mut conditions = StringMap::new();
    conditions.insert("tenant".to_string(), "tenant1".to_string());
    let rule2 = PolicyRule::new("user:alice", "read", "document:*").with_conditions(conditions);

    assert!(rule.matches("role:admin", "read", "document:123", None));
    assert!(rule.matches("role:admin", "write", "document:456", None));
    assert!(!rule.matches("role:user", "read", "document:123", None));

    let mut context = StringMap::new();
    context.insert("tenant".to_string(), "tenant1".to_string());
    assert!(rule2.matches("user:alice", "read", "document:123", Some(&context)));

    context.insert("tenant".to_string(), "tenant2".to_string());
    assert!(!rule2.matches("user:alice", "read", "document:123", Some(&context)));
}

#[test]
fn policy_engine_checks() {
    let mut engine = PolicyEngine::new();

    let mut user = User::new("user123", "alice");
    user.permissions.insert("read:document:123".to_string());

    assert!(engine.check(&user, "read", "document:123", None));
    assert!(!engine.check(&user, "write", "document:123", None));

    engine.add_role_permission("admin", "read:*");
    user.roles.insert("admin".to_string());
    assert!(engine.check(&user, "read", "document:123", None));

    engine.add_rule(PolicyRule::new("user:alice", "write", "document:*"));
    assert!(engine.check(&user, "write", "document:123", None));

    engine.add_rule(PolicyRule::new("user:alice", "delete", "document:*").with_effect("deny"));
    assert!(!engine.check(&user, "delete", "document:123", None));
}

#[test]
fn deny_rule_overrides_direct_permission() {
    let mut engine = PolicyEngine::new();
    let mut user = User::new("u1", "carol");
    user.permissions.insert("write:doc".to_string());
    assert!(engine.check(&user, "write", "doc", None));
    engine.add_rule(PolicyRule::new("user:carol", "write", "doc").with_effect("deny"));
    assert!(!engine.check(&user, "write", "doc", None));
}

#[test]
fn role_and_wildcard_subject_rules() {
    let mut engine = PolicyEngine::new();
    let mut user = User::new("u1", "dave");
    user.roles.insert("editor".to_string());
    engine.add_rule(PolicyRule::new("role:editor", "edit", "page:*"));
    assert!(engine.check(&user, "edit", "page:home", None));
    assert!(!engine.check(&user, "edit", "post:home", None));
    engine.add_rule(PolicyRule::new("*", "view", "*"));
    assert!(engine.check(&user, "view", "anything", None));
    let other = User::new("u2", "erin");
    assert!(engine.check(&other, "view", "anything", None));
    assert!(!engine.check(&other, "edit", "page:home", None));
}

#[test]
fn conditions_need_a_context() {
    let mut conditions = StringMap::new();
    conditions.insert("region".to_string(), "eu".to_string());
    let rule = PolicyRule::new("*", "read", "*").with_conditions(conditions);
    assert!(!rule.matches("user:x", "read", "doc", None));
    let mut ctx = StringMap::new();
    ctx.insert("region".to_string(), "eu".to_string());
    ctx.insert("other".to_string(), "1".to_string());
    assert!(rule.matches("user:x", "read", "doc", Some(&ctx)));
    let empty: StringMap<String> = StringMap::new();
    assert!(!rule.matches("user:x", "read", "doc", Some(&empty)));
}

#[test]
fn wildcard_patterns() {
    let rule = PolicyRule::new("user:*", "read", "doc:*:v1");
    assert!(rule.matches("user:zed", "read", "doc:42:v1", None));
    assert!(!rule.matches("user:zed", "read", "doc:42:v2", None));
    assert!(!rule.matches("admin:zed", "read", "doc:42:v1", None));
    let exact = PolicyRule::new("user:a", "read", "doc");
    assert!(!exact.matches("user:a", "read", "doc2", None));
}

#[test]
fn role_permission_action_wildcard() {
    let mut engine = PolicyEngine::new();
    engine.add_role_permission("ops", "restart:*");
    let mut user = User::new("u", "ops1");
    user.roles.insert("ops".to_string());
    assert!(engine.check(&user, "restart", "server:1", None));
    assert!(!engine.check(&user, "stop", "server:1", None));
    let _unused: StringSet = StringSet::new();
}

#[test]
fn question_mark_matches_one_character() {
    let rule = PolicyRule::new("user:?ob", "read", "doc");
    assert!(rule.matches("user:bob", "read", "doc", None));
    assert!(rule.matches("user:rob", "read", "doc", None));
    assert!(!rule.matches("user:ob", "read", "doc", None));
}

#[test]
fn role_permissions_only_widen_access() {
    let mut engine = PolicyEngine::new();
    engine.add_role_permission("viewer", "read:doc:1");
    let mut user = User::new("u1", "carol");
    user.roles.insert("viewer".to_string());
    assert!(engine.check(&user, "read", "doc:1", None));
    assert!(!engine.check(&user, "read", "doc:2", None));

    engine.add_role_permission("viewer", "read:*");
    assert!(engine.check(&user, "read", "doc:1", None));
    assert!(engine.check(&user, "read", "doc:2", None));
    assert!(!engine.check(&user, "write", "doc:2", None));
}
