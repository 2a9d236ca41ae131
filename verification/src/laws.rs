//! Properties that relate several operations of the framework.

use vstd::prelude::*;
use crate::crypto::{base64_url, base64_url_decoded, hmac_sha256, within_input_limit};
use crate::hasher::utf8;
use crate::json::{JsonValue, json_get, json_str, json_strings, json_text, json_u64};
use crate::jwt::{
    JwtCheck, SimpleJWTGenerator, decoded_json, header_key_id, jwt_check, jwt_claims_match, jwt_header_matches,
    jwt_issued, jwt_reads_back, jwt_fits, jwt_compact,
};
use crate::model::{TokenType, Token, User};
use crate::strings::{split_on, lemma_split_join, lemma_split_single};
use crate::tokens::{
    MAX_INSTANT, NANOS_PER_SEC, secs_of, secs_representable, token_type_name, representable, expiry_after,
    stored_token_type, stored_secs, token_doc_matches, metadata_matches,
};
use crate::opaque::{opaque_key, opaque_record, opaque_verify_outcome};
use crate::storage::{revoked_key, token_key, refresh_token_key};
use crate::collections::StringMap;
use crate::error::AuthError;
use crate::auth::{
    TokenIssuer, refresh_tokens_outcome, rotation, tokens_issued, logged_in, Auth, LoginResult, default_issuer,
    configured_issuer, AuthConfig,
};
use crate::jwt::after_jwt_revoke;
use crate::opaque::{after_opaque_revoke, without_family_tokens};
use crate::session::{
    session_created, session_fetched, session_revoked, user_sessions_revoked, listed_ids, stored_session_doc,
    session_doc_readable, doc_expiry, session_doc_matches, index_dropped,
};
use crate::storage::{session_key, user_sessions_key, StorageBackend};
use crate::model::{Session, session_expired_at};
use crate::providers::{local_auth_outcome, api_key_outcome, account_user, LocalUserRecord};
use crate::hasher::{PasswordCheck, password_check, password_verified};
use crate::strings::opt_view;
use crate::collections::{string_views, StringSet};
use crate::policy::{PolicyEngine, PolicyRule, access_granted, some_rule_applies, permission_name, role_grants, role_permission_added};

verus! {

/// A signed token splits on `.` into its three parts.
proof fn lemma_compact_parts(a: Seq<char>, b: Seq<char>, c: Seq<char>)
    requires
        !a.contains('.'),
        !b.contains('.'),
        !c.contains('.'),
    ensures
        split_on(a + seq!['.'] + b + seq!['.'] + c, '.') == seq![a, b, c],
{
    lemma_split_single(a, '.');
    lemma_split_single(b, '.');
    lemma_split_single(c, '.');
    lemma_split_join(a, b, '.');
    lemma_split_join(a + seq!['.'] + b, c, '.');
    assert(split_on(a + seq!['.'] + b + seq!['.'] + c, '.') =~= seq![a, b, c]);
}

/// A token issued by a JWT generator is accepted by that generator until its
/// expiry (in whole seconds), provided the generator allows HS256 and
/// requires no issuer or audience other than the ones it writes; the
/// accepted claims name the token's user and type.
pub proof fn lemma_jwt_issued_verifies(
    g: SimpleJWTGenerator,
    user: User,
    expires_in: i64,
    token_type: TokenType,
    family_id: Option<Seq<char>>,
    t: Token,
    now: u128,
)
    requires
        jwt_issued(g, user, expires_in, token_type, family_id, t),
        g.algorithms().contains("HS256"@),
        g.required_issuer() is None || g.required_issuer() == g.issuer_claim(),
        g.required_audience() is None || g.required_audience() == g.audience_claim(),
        now <= secs_of(t.expires_at) * NANOS_PER_SEC,
    ensures
        g.check(t.value@, now) matches JwtCheck::Accept(p) && json_str(json_get(p, "user_id"@)) == Some(user.id@)
            && json_str(json_get(p, "token_type"@)) == Some(token_type_name(token_type))
            && json_str(json_get(p, "username"@)) == Some(user.username@)
            && json_strings(json_get(p, "roles"@)) == Some(user.roles.elems())
            && json_strings(json_get(p, "permissions"@)) == Some(user.permissions.elems()),
{
    let (h, p, jti) = choose|h: JsonValue, p: JsonValue, jti: Seq<char>| {
        &&& jwt_header_matches(h, g.key_id_claim()) && crate::json::json_canonical(h)
        &&& jwt_claims_match(p, &user, secs_of(t.issued_at), secs_of(t.expires_at), jti, token_type,
            g.issuer_claim(), g.audience_claim(), family_id)
        &&& crate::json::json_canonical(p)
        &&& jwt_fits(h, p)
        &&& jwt_reads_back(g.key(), h, p)
        &&& t.value@ == jwt_compact(g.key(), h, p)
        &&& crate::tokens::metadata_matches(t.metadata, user.username@, user.roles.elems(), user.permissions.elems(),
            crate::strings::opt_view(user.tenant_id), Some(jti), family_id)
    };
    let ht = json_text(h);
    let pt = json_text(p);
    let a = base64_url(ht);
    let b = base64_url(pt);
    let sig = hmac_sha256(g.key(), utf8(a + seq!['.'] + b));
    let c = base64_url(sig);
    assert(t.value@ =~= a + seq!['.'] + b + seq!['.'] + c);
    lemma_compact_parts(a, b, c);
    let parts = split_on(t.value@, '.');
    assert(parts[0] == a && parts[1] == b && parts[2] == c);
    assert(decoded_json(a) == Some(h));
    assert(decoded_json(b) == Some(p));
    assert(parts[0] + seq!['.'] + parts[1] == a + seq!['.'] + b);
    assert(secs_representable(secs_of(t.issued_at)));
    assert(secs_representable(secs_of(t.expires_at)));
    assert(json_u64(json_get(p, "exp"@)) == Some(secs_of(t.expires_at)));
    if let Some(k) = g.key_id_claim() {
        assert(header_key_id(h) == k);
    }
    crate::json::lemma_string_array(json_get(p, "roles"@)->Some_0, user.roles.elems());
    crate::json::lemma_string_array(json_get(p, "permissions"@)->Some_0, user.permissions.elems());
}

/// The stored type name of a token reads back as its type.
proof fn lemma_type_name_reads(tt: TokenType, doc: JsonValue)
    requires
        json_str(json_get(doc, "token_type"@)) == Some(token_type_name(tt)),
    ensures
        stored_token_type(doc) == Some(tt),
{
    reveal_strlit("JWT");
    reveal_strlit("Opaque");
    reveal_strlit("Refresh");
    assert("JWT"@.len() != "Opaque"@.len() && "JWT"@.len() != "Refresh"@.len() && "Opaque"@.len() != "Refresh"@.len());
}

/// An opaque token whose record is in storage, and that is not revoked,
/// checks out as the stored token until its expiry (in whole seconds): same
/// value, user and type. A refresh token needs no access record under the
/// same value, which would be read first.
pub proof fn lemma_opaque_issued_verifies(
    c: Map<Seq<char>, Seq<char>>,
    value: Seq<char>,
    token_type: TokenType,
    user: User,
    expires_at: u128,
    issued_at: u128,
    family_id: Option<Seq<char>>,
    now: u128,
    r: Result<Option<Token>, AuthError>,
)
    requires
        c.dom().contains(opaque_key(token_type, value)),
        opaque_record(c[opaque_key(token_type, value)], value, token_type, &user, expires_at, issued_at, family_id),
        !c.dom().contains(revoked_key(value)),
        token_type is Refresh ==> !c.dom().contains(token_key(value)),
        expires_at <= MAX_INSTANT,
        issued_at <= MAX_INSTANT,
        now <= secs_of(expires_at) * NANOS_PER_SEC,
        opaque_verify_outcome(c, value, now, r),
    ensures
        r matches Ok(Some(t)) && t.value@ == value && t.user_id@ == user.id@ && t.token_type == token_type,
{
    crate::tokens::lemma_revoke_keys_distinct(value);
    let (doc, m) = choose|doc: JsonValue, m: StringMap<JsonValue>| {
        &&& crate::json::json_parse(utf8(c[opaque_key(token_type, value)])) == Some(doc)
        &&& token_doc_matches(doc, value, token_type, user.id@, secs_of(expires_at), secs_of(issued_at), m)
        &&& metadata_matches(m, user.username@, user.roles.elems(), user.permissions.elems(),
            crate::strings::opt_view(user.tenant_id), None, family_id)
    };
    lemma_type_name_reads(token_type, doc);
    assert(stored_secs(doc, "expires_at"@) == secs_of(expires_at));
    assert(stored_secs(doc, "issued_at"@) == secs_of(issued_at));
}

/// Revoking a value in storage `c` records it as revoked, and keeps every
/// value already recorded as revoked.
pub proof fn lemma_revocation_sticks(c: Map<Seq<char>, Seq<char>>, v: Seq<char>, w: Seq<char>)
    ensures
        after_jwt_revoke(c, v).dom().contains(revoked_key(v)),
        after_opaque_revoke(c, v).dom().contains(revoked_key(v)),
        c.dom().contains(revoked_key(w)) ==> after_jwt_revoke(c, v).dom().contains(revoked_key(w)),
        c.dom().contains(revoked_key(w)) ==> after_opaque_revoke(c, v).dom().contains(revoked_key(w)),
{
    crate::tokens::lemma_revoke_keys_distinct(v);
    crate::tokens::lemma_revoke_keys_distinct(w);
    reveal_strlit("revoked:");
    reveal_strlit("refresh:");
    reveal_strlit("opaque:");
    reveal_strlit("refresh_family:");
    assert forall|x: Seq<char>, y: Seq<char>| #[trigger] revoked_key(x) != #[trigger] refresh_token_key(y) by {
        assert(revoked_key(x)[2] != refresh_token_key(y)[2]);
    }
    assert forall|x: Seq<char>, y: Seq<char>| #[trigger] revoked_key(x) != #[trigger] token_key(y) by {
        assert(revoked_key(x)[0] != token_key(y)[0]);
    }
}

/// Issuing a token adds storage entries and removes none.
proof fn lemma_issue_keeps(
    i: TokenIssuer,
    i2: TokenIssuer,
    user: User,
    expires_in: i64,
    token_type: TokenType,
    family_id: Option<Seq<char>>,
    t: Token,
    k: Seq<char>,
)
    requires
        i.issued(i2, user, expires_in, token_type, family_id, t),
        i.stored().dom().contains(k),
    ensures
        i2.stored().dom().contains(k),
{
}

/// A refresh token that has been rotated is refused from then on: once
/// rotating `v` succeeded, rotating `v` again gives nothing and changes
/// nothing.
pub proof fn lemma_rotated_refresh_token_refused(
    i0: TokenIssuer,
    i1: TokenIssuer,
    i2: TokenIssuer,
    v: Seq<char>,
    r1: Result<Option<crate::auth::LoginResult>, AuthError>,
    r2: Result<Option<crate::auth::LoginResult>, AuthError>,
)
    requires
        refresh_tokens_outcome(i0, i1, v, r1),
        r1 is Ok && r1->Ok_0 is Some,
        refresh_tokens_outcome(i1, i2, v, r2),
    ensures
        r2 matches Ok(None),
        i2 == i1,
{
    let (now, rv) = choose|now: u128, rv: Result<Option<Token>, AuthError>| #[trigger] i0.verify_outcome(v, now, rv)
        && rotation(i0, i1, v, rv, r1);
    let lr = r1->Ok_0->Some_0;
    let t = rv->Ok_0->Some_0;
    let f = crate::auth::meta_str(t, "fid"@)->Some_0;
    let access_ttl = crate::auth::rotated_access_ttl(crate::auth::token_lifetime(t));
    let mid = choose|mid: TokenIssuer| mid.stored() == i0.after_revoke(v) && mid.same_settings(i0)
        && #[trigger] tokens_issued(mid, i1, lr.user, access_ttl, (access_ttl * 24) as i64, f,
            lr.access_token@, lr.refresh_token@);
    lemma_revocation_sticks(i0.stored(), v, v);
    assert(mid.stored().dom().contains(revoked_key(v)));
    let (m1, m2, a, rt) = choose|m1: TokenIssuer, m2: TokenIssuer, a: Token, rt: Token| {
        &&& mid.issued(m1, lr.user, access_ttl, crate::auth::access_type(mid), None, a)
        &&& m1.issued(m2, lr.user, (access_ttl * 24) as i64, TokenType::Refresh, Some(f), rt)
        &&& a.value@ == lr.access_token@
        &&& rt.value@ == lr.refresh_token@
        &&& i1.same_settings(m2)
        &&& i1.stored() == m2.stored().insert(crate::storage::refresh_family_key(f), lr.refresh_token@)
    };
    lemma_issue_keeps(mid, m1, lr.user, access_ttl, crate::auth::access_type(mid), None, a, revoked_key(v));
    lemma_issue_keeps(m1, m2, lr.user, (access_ttl * 24) as i64, TokenType::Refresh, Some(f), rt, revoked_key(v));
    assert(i1.stored().dom().contains(revoked_key(v)));
}

/// A created session is read back until it expires (expiry in whole
/// seconds): same id, user, device, address, agent and metadata, creation and
/// expiry in whole seconds, and activity at the reading instant.
pub proof fn lemma_created_session_reads_back(
    c: Map<Seq<char>, Seq<char>>,
    c2: Map<Seq<char>, Seq<char>>,
    x: Session,
    user_id: Seq<char>,
    device_id: Option<Seq<char>>,
    ip_address: Option<Seq<char>>,
    user_agent: Option<Seq<char>>,
    lifetime: i64,
    now: u128,
    c3: Map<Seq<char>, Seq<char>>,
    later: u128,
    r: Option<Session>,
)
    requires
        session_created(c, c2, x, user_id, device_id, ip_address, user_agent, lifetime, now),
        session_fetched(c2, c3, x.id@, later, r),
        later <= secs_of(x.expires_at->Some_0) * NANOS_PER_SEC,
    ensures
        r matches Some(y) && {
            &&& y.id@ == x.id@
            &&& y.user_id@ == user_id
            &&& opt_view(y.device_id) == device_id
            &&& opt_view(y.ip_address) == ip_address
            &&& opt_view(y.user_agent) == user_agent
            &&& y.created_at == secs_of(x.created_at) * NANOS_PER_SEC
            &&& y.expires_at == Some((secs_of(x.expires_at->Some_0) * NANOS_PER_SEC) as u128)
            &&& y.last_activity == later
            &&& y.metadata == x.metadata
        },
{
    let doc = crate::json::json_parse(utf8(c2[session_key(x.id@)]))->Some_0;
    assert(session_doc_matches(doc, x));
    assert(secs_representable(secs_of(x.created_at)));
    assert(secs_representable(secs_of(x.expires_at->Some_0)));
    assert(session_doc_readable(doc));
    assert(stored_session_doc(c2, x.id@) == Some(doc));
    assert(doc_expiry(doc) == Some((secs_of(x.expires_at->Some_0) * NANOS_PER_SEC) as u128));
}

/// A revoked session is not read back.
pub proof fn lemma_revoked_session_gone(
    c: Map<Seq<char>, Seq<char>>,
    c2: Map<Seq<char>, Seq<char>>,
    id: Seq<char>,
    c3: Map<Seq<char>, Seq<char>>,
    now: u128,
    r: Option<Session>,
)
    requires
        session_revoked(c, c2, id),
        session_fetched(c2, c3, id, now, r),
    ensures
        r is None,
        c3 == c2,
{
    reveal_strlit("session:");
    reveal_strlit("user_sessions:");
    assert forall|u: Seq<char>| session_key(id) != #[trigger] user_sessions_key(u) by {
        assert(session_key(id)[0] != user_sessions_key(u)[0]);
    }
    if let Some(u) = crate::session::session_owner(c, id) {
        crate::session::lemma_index_dropped_frame(c.remove(session_key(id)), c2, user_sessions_key(u), id);
    }
    assert(!c2.dom().contains(session_key(id)));
}

/// After the sessions of a user are revoked, none that the user's index
/// listed is read back.
pub proof fn lemma_user_sessions_gone(
    c: Map<Seq<char>, Seq<char>>,
    c2: Map<Seq<char>, Seq<char>>,
    user_id: Seq<char>,
    id: Seq<char>,
    c3: Map<Seq<char>, Seq<char>>,
    now: u128,
    r: Option<Session>,
)
    requires
        user_sessions_revoked(c, c2, user_id),
        listed_ids(c, user_sessions_key(user_id)).contains(id),
        session_fetched(c2, c3, id, now, r),
    ensures
        r is None,
        c3 == c2,
{
    let l = listed_ids(c, user_sessions_key(user_id));
    let j = l.index_of(id);
    assert(crate::session::listed_session_keys(l).contains(session_key(l[j])));
    assert(!c2.dom().contains(session_key(id)));
}

/// A registered account authenticates with its username and password: the
/// provider hands out the account's user.
pub proof fn lemma_registered_account_authenticates(
    accounts: Map<Seq<char>, LocalUserRecord>,
    credentials: &StringMap<String>,
    r: Result<Option<User>, AuthError>,
)
    requires
        crate::providers::credential(credentials, "username"@).len() > 0,
        crate::providers::credential(credentials, "password"@).len() > 0,
        accounts.dom().contains(crate::providers::credential(credentials, "username"@)),
        password_check(crate::providers::credential(credentials, "password"@),
            accounts[crate::providers::credential(credentials, "username"@)].password@) == PasswordCheck::Verdict(true),
        local_auth_outcome(accounts, credentials, r),
    ensures
        r matches Ok(Some(u)) && account_user(u, accounts[crate::providers::credential(credentials, "username"@)]),
        r matches Ok(Some(u)) && {
            let rec = accounts[crate::providers::credential(credentials, "username"@)];
            &&& u.id@ == rec.id@
            &&& u.username@ == rec.username@
            &&& u.roles.elems() == rec.roles.elems()
            &&& u.permissions.elems() == rec.permissions.elems()
            &&& opt_view(u.tenant_id) == opt_view(rec.tenant_id)
        },
{
}

/// An API key authenticates as the user it was created for until it is
/// revoked, and not after.
pub proof fn lemma_api_key_authenticates(
    keys: Map<Seq<char>, User>,
    credentials: &StringMap<String>,
    key: Seq<char>,
    r: Result<Option<User>, AuthError>,
    r2: Result<Option<User>, AuthError>,
)
    requires
        credentials.to_map().dom().contains("api_key"@),
        credentials.to_map()["api_key"@]@ == key,
        keys.dom().contains(key),
        api_key_outcome(keys, credentials, r),
        api_key_outcome(keys.remove(key), credentials, r2),
    ensures
        r matches Ok(Some(u)) && crate::model::same_user(keys[key], u),
        r2 matches Ok(None),
{
}

/// A value stored under a key is what reading the key gives back, and a
/// deleted key reads as absent.
pub proof fn lemma_storage_reads_back(
    before: Map<Seq<char>, Seq<char>>,
    key: Seq<char>,
    value: Seq<char>,
    r: Option<String>,
    r2: bool,
)
    requires
        match r {
            Some(v) => before.insert(key, value).dom().contains(key) && v@ == before.insert(key, value)[key],
            None => !before.insert(key, value).dom().contains(key),
        },
        r2 == before.insert(key, value).remove(key).dom().contains(key),
    ensures
        r matches Some(v) && v@ == value,
        !r2,
{
}

/// An applicable deny rule refuses access, whatever the user's permissions,
/// roles and allow rules say.
pub proof fn lemma_deny_overrides(
    rules: Seq<PolicyRule>,
    role_permissions: StringMap<StringSet>,
    user: &User,
    action: Seq<char>,
    resource: Seq<char>,
    context: Option<&StringMap<String>>,
)
    requires
        some_rule_applies(rules, "deny"@, user, action, resource, context),
    ensures
        !access_granted(rules, role_permissions, user, action, resource, context),
{
}

/// Without an applicable deny rule, holding the permission `action:resource`
/// grants access; adding an allow or deny rule that does not apply changes
/// nothing.
pub proof fn lemma_direct_permission_grants(
    rules: Seq<PolicyRule>,
    role_permissions: StringMap<StringSet>,
    user: &User,
    action: Seq<char>,
    resource: Seq<char>,
    context: Option<&StringMap<String>>,
    extra: PolicyRule,
)
    requires
        !some_rule_applies(rules, "deny"@, user, action, resource, context),
        user.permissions.members().contains(permission_name(action, resource)),
        !crate::policy::rule_applies(extra, user, action, resource, context),
    ensures
        access_granted(rules, role_permissions, user, action, resource, context),
        access_granted(rules.push(extra), role_permissions, user, action, resource, context)
            == access_granted(rules, role_permissions, user, action, resource, context),
{
    let r2 = rules.push(extra);
    assert forall|e: Seq<char>| some_rule_applies(r2, e, user, action, resource, context)
        == some_rule_applies(rules, e, user, action, resource, context) by {
        if some_rule_applies(r2, e, user, action, resource, context) {
            let i = choose|i: int| 0 <= i < r2.len() && #[trigger] r2[i].effect@ == e
                && crate::policy::rule_applies(r2[i], user, action, resource, context);
            assert(i < rules.len());
            assert(rules[i] == r2[i]);
        }
        if some_rule_applies(rules, e, user, action, resource, context) {
            let i = choose|i: int| 0 <= i < rules.len() && #[trigger] rules[i].effect@ == e
                && crate::policy::rule_applies(rules[i], user, action, resource, context);
            assert(r2[i] == rules[i]);
        }
    }
}

/// The issuer is a JWT generator that accepts its own tokens: it allows
/// HS256 and requires no issuer or audience other than the ones it writes.
pub open spec fn accepts_own_tokens(i: TokenIssuer) -> bool {
    i matches TokenIssuer::Jwt(g) && {
        &&& g.algorithms().contains("HS256"@)
        &&& g.required_issuer() is None || g.required_issuer() == g.issuer_claim()
        &&& g.required_audience() is None || g.required_audience() == g.audience_claim()
    }
}

/// The JWT issuer `i` accepts `v` at `now` as a token of user `user_id`.
pub open spec fn jwt_accepts(i: TokenIssuer, v: Seq<char>, now: u128, user_id: Seq<char>) -> bool {
    match i {
        TokenIssuer::Jwt(g) => match g.check(v, now) {
            JwtCheck::Accept(p) => json_str(json_get(p, "user_id"@)) == Some(user_id),
            _ => false,
        },
        _ => false,
    }
}

/// After a login at an instance whose JWT issuer accepts its own tokens, the
/// access token is accepted as a token of the logged-in user until its
/// expiry (in whole seconds).
pub proof fn lemma_login_access_token_verifies(
    a: Auth,
    a2: Auth,
    provider_name: Seq<char>,
    credentials: &StringMap<String>,
    create_session: bool,
    ttl: i64,
    lr: LoginResult,
)
    requires
        logged_in(a, a2, provider_name, credentials, create_session, ttl, lr),
        accepts_own_tokens(a.issuer()),
    ensures
        exists|t: Token| {
            &&& t.value@ == lr.access_token@
            &&& t.token_type == TokenType::JWT
            &&& t.user_id@ == lr.user.id@
            &&& forall|now: u128| now <= secs_of(t.expires_at) * NANOS_PER_SEC
                ==> #[trigger] jwt_accepts(a2.issuer(), lr.access_token@, now, lr.user.id@)
        },
{
    let f = lr.family_id->Some_0;
    let (m1, m2, at, rt) = choose|m1: TokenIssuer, m2: TokenIssuer, at: Token, rt: Token| {
        &&& a.issuer().issued(m1, lr.user, ttl, crate::auth::access_type(a.issuer()), None, at)
        &&& m1.issued(m2, lr.user, (ttl * 24) as i64, TokenType::Refresh, Some(f@), rt)
        &&& at.value@ == lr.access_token@
        &&& rt.value@ == lr.refresh_token@
        &&& a2.issuer().same_settings(m2)
        &&& a2.issuer().stored() == m2.stored().insert(crate::storage::refresh_family_key(f@), lr.refresh_token@)
    };
    let g = a.issuer()->Jwt_0;
    let g2 = a2.issuer()->Jwt_0;
    assert(jwt_issued(g, lr.user, ttl, TokenType::JWT, None, at));
    let (h, p, jti) = choose|h: JsonValue, p: JsonValue, jti: Seq<char>| {
        &&& jwt_header_matches(h, g.key_id_claim()) && crate::json::json_canonical(h)
        &&& jwt_claims_match(p, &lr.user, secs_of(at.issued_at), secs_of(at.expires_at), jti, TokenType::JWT,
            g.issuer_claim(), g.audience_claim(), None)
        &&& crate::json::json_canonical(p)
        &&& jwt_fits(h, p)
        &&& jwt_reads_back(g.key(), h, p)
        &&& at.value@ == jwt_compact(g.key(), h, p)
        &&& crate::tokens::metadata_matches(at.metadata, lr.user.username@, lr.user.roles.elems(),
            lr.user.permissions.elems(), crate::strings::opt_view(lr.user.tenant_id), Some(jti), None)
    };
    assert(jwt_issued(g2, lr.user, ttl, TokenType::JWT, None, at));
    assert forall|now: u128| now <= secs_of(at.expires_at) * NANOS_PER_SEC
        implies #[trigger] jwt_accepts(a2.issuer(), lr.access_token@, now, lr.user.id@) by {
        lemma_jwt_issued_verifies(g2, lr.user, ttl, TokenType::JWT, None, at, now);
    }
}

/// A revoked token value is refused by every later check: revoking records
/// it, and revoking other values keeps the record.
pub proof fn lemma_revoked_token_refused(i: TokenIssuer, v: Seq<char>, w: Seq<char>)
    ensures
        i.after_revoke(v).dom().contains(revoked_key(v)),
        i.stored().dom().contains(revoked_key(w)) ==> i.after_revoke(v).dom().contains(revoked_key(w)),
{
    lemma_revocation_sticks(i.stored(), v, w);
}

/// A new instance with a JWT issuer accepts its own tokens, under the default
/// configuration and under any configuration that allows HS256.
pub proof fn lemma_new_instances_accept_own_tokens(i: TokenIssuer, secret: Seq<char>, config: AuthConfig)
    ensures
        default_issuer(i, secret, TokenType::JWT) ==> accepts_own_tokens(i),
        configured_issuer(i, secret, TokenType::JWT, config)
            && string_views(config.allowed_algorithms@).contains("HS256"@) ==> accepts_own_tokens(i),
{
    if default_issuer(i, secret, TokenType::JWT) {
        let g = i->Jwt_0;
        assert(g.algorithms()[0] == "HS256"@);
    }
}

/// A password checks out against a hash made of it: hashing then verifying
/// the same password answers yes.
pub proof fn lemma_hash_then_verify(password: Seq<char>, hashed: Seq<char>, r: Result<bool, AuthError>)
    requires
        password_check(password, hashed) == PasswordCheck::Verdict(true),
        password_verified(password, hashed, r),
    ensures
        r matches Ok(true),
{
}

/// Granting a permission to a role only widens access: every request that
/// was granted stays granted, and a user holding the role is granted
/// `action` on `resource` when the permission is `action:resource` or
/// `action:*` and no deny rule applies.
pub proof fn lemma_role_permission_widens(
    p: PolicyEngine,
    p2: PolicyEngine,
    role: Seq<char>,
    permission: Seq<char>,
    user: &User,
    action: Seq<char>,
    resource: Seq<char>,
    context: Option<&StringMap<String>>,
)
    requires
        role_permission_added(p, p2, role, permission),
    ensures
        access_granted(p.rule_list(), p.role_table(), user, action, resource, context)
            ==> access_granted(p2.rule_list(), p2.role_table(), user, action, resource, context),
        user.roles.members().contains(role)
            && !some_rule_applies(p.rule_list(), "deny"@, user, action, resource, context)
            && (permission == permission_name(action, resource) || permission == action + ":*"@)
            ==> access_granted(p2.rule_list(), p2.role_table(), user, action, resource, context),
{
    let t = p.role_table();
    let t2 = p2.role_table();
    if role_grants(t, user, action, resource) {
        let i = choose|i: int| 0 <= i < user.roles.elems().len() && {
            let r = #[trigger] user.roles.elems()[i];
            &&& t.to_map().dom().contains(r)
            &&& {
                ||| t.to_map()[r].members().contains(permission_name(action, resource))
                ||| t.to_map()[r].members().contains(action + ":*"@)
            }
        };
        let r = user.roles.elems()[i];
        assert(t2.to_map().dom().contains(r));
        if r == role {
            assert(t2.to_map()[r].members().contains(permission_name(action, resource))
                || t2.to_map()[r].members().contains(action + ":*"@));
        } else {
            assert(t2.to_map()[r] == t.to_map()[r]);
        }
        assert(role_grants(t2, user, action, resource));
    }
    if user.roles.members().contains(role)
        && (permission == permission_name(action, resource) || permission == action + ":*"@) {
        let i = user.roles.elems().index_of(role);
        assert(user.roles.elems()[i] == role);
        assert(t2.to_map().dom().contains(role));
        assert(t2.to_map()[role].members().contains(permission));
        assert(role_grants(t2, user, action, resource));
    }
}

/// After a login at an instance whose JWT issuer accepts its own tokens, the
/// refresh token is accepted as a refresh token of the logged-in user until
/// its expiry (in whole seconds), which lies `ttl * 24` seconds after its
/// issue when that is positive.
pub proof fn lemma_login_refresh_token_verifies(
    a: Auth,
    a2: Auth,
    provider_name: Seq<char>,
    credentials: &StringMap<String>,
    create_session: bool,
    ttl: i64,
    lr: LoginResult,
)
    requires
        logged_in(a, a2, provider_name, credentials, create_session, ttl, lr),
        accepts_own_tokens(a.issuer()),
    ensures
        exists|t: Token| {
            &&& t.value@ == lr.refresh_token@
            &&& t.token_type == TokenType::Refresh
            &&& t.user_id@ == lr.user.id@
            &&& t.expires_at == expiry_after(t.issued_at, (ttl * 24) as i64)
            &&& forall|now: u128| now <= secs_of(t.expires_at) * NANOS_PER_SEC
                ==> #[trigger] jwt_accepts(a2.issuer(), lr.refresh_token@, now, lr.user.id@)
                    && (a2.issuer()->Jwt_0.check(lr.refresh_token@, now) matches JwtCheck::Accept(p)
                        && json_str(json_get(p, "token_type"@)) == Some("Refresh"@))
        },
{
    let f = lr.family_id->Some_0;
    let (m1, m2, at, rt) = choose|m1: TokenIssuer, m2: TokenIssuer, at: Token, rt: Token| {
        &&& a.issuer().issued(m1, lr.user, ttl, crate::auth::access_type(a.issuer()), None, at)
        &&& m1.issued(m2, lr.user, (ttl * 24) as i64, TokenType::Refresh, Some(f@), rt)
        &&& at.value@ == lr.access_token@
        &&& rt.value@ == lr.refresh_token@
        &&& a2.issuer().same_settings(m2)
        &&& a2.issuer().stored() == m2.stored().insert(crate::storage::refresh_family_key(f@), lr.refresh_token@)
    };
    let g = a.issuer()->Jwt_0;
    let g1 = m1->Jwt_0;
    let g2 = a2.issuer()->Jwt_0;
    assert(g1 == g);
    assert(jwt_issued(g1, lr.user, (ttl * 24) as i64, TokenType::Refresh, Some(f@), rt));
    let (h, p, jti) = choose|h: JsonValue, p: JsonValue, jti: Seq<char>| {
        &&& jwt_header_matches(h, g1.key_id_claim()) && crate::json::json_canonical(h)
        &&& jwt_claims_match(p, &lr.user, secs_of(rt.issued_at), secs_of(rt.expires_at), jti, TokenType::Refresh,
            g1.issuer_claim(), g1.audience_claim(), Some(f@))
        &&& crate::json::json_canonical(p)
        &&& jwt_fits(h, p)
        &&& jwt_reads_back(g1.key(), h, p)
        &&& rt.value@ == jwt_compact(g1.key(), h, p)
        &&& crate::tokens::metadata_matches(rt.metadata, lr.user.username@, lr.user.roles.elems(),
            lr.user.permissions.elems(), crate::strings::opt_view(lr.user.tenant_id), Some(jti), Some(f@))
    };
    assert(jwt_issued(g2, lr.user, (ttl * 24) as i64, TokenType::Refresh, Some(f@), rt));
    assert forall|now: u128| now <= secs_of(rt.expires_at) * NANOS_PER_SEC
        implies #[trigger] jwt_accepts(a2.issuer(), lr.refresh_token@, now, lr.user.id@)
            && (a2.issuer()->Jwt_0.check(lr.refresh_token@, now) matches JwtCheck::Accept(p)
                && json_str(json_get(p, "token_type"@)) == Some("Refresh"@)) by {
        lemma_jwt_issued_verifies(g2, lr.user, (ttl * 24) as i64, TokenType::Refresh, Some(f@), rt, now);
    }
}

/// Keys of different kinds never coincide, and access records of different
/// values are under different keys.
proof fn lemma_keys_apart(x: Seq<char>, y: Seq<char>)
    ensures
        token_key(x) != revoked_key(y),
        token_key(x) != refresh_token_key(y),
        token_key(x) != crate::storage::refresh_family_key(y),
        refresh_token_key(x) != revoked_key(y),
        refresh_token_key(x) != crate::storage::refresh_family_key(y),
        revoked_key(x) != crate::storage::refresh_family_key(y),
        x != y ==> token_key(x) != token_key(y),
{
    reveal_strlit("revoked:");
    reveal_strlit("opaque:");
    reveal_strlit("refresh_family:");
    reveal_strlit("refresh:");
    assert(token_key(x)[0] != revoked_key(y)[0]);
    assert(token_key(x)[0] != refresh_token_key(y)[0]);
    assert(token_key(x)[0] != crate::storage::refresh_family_key(y)[0]);
    assert(refresh_token_key(x)[2] != revoked_key(y)[2]);
    assert(refresh_token_key(x)[7] != crate::storage::refresh_family_key(y)[7]);
    assert(revoked_key(x)[2] != crate::storage::refresh_family_key(y)[2]);
    if x != y && token_key(x) == token_key(y) {
        assert(token_key(x).subrange(7, token_key(x).len() as int) =~= x);
        assert(token_key(y).subrange(7, token_key(y).len() as int) =~= y);
    }
}

/// After a login at an instance that issues opaque tokens, both tokens check
/// out until their expiry (in whole seconds), `ttl` and `ttl * 24` seconds
/// after their issue when positive: the access token as an opaque token of
/// the user and the refresh token as a refresh token of the user. This holds
/// where neither value was recorded as revoked before, the two values
/// differ, and the refresh value had no access record.
pub proof fn lemma_login_opaque_tokens_read_back(
    a: Auth,
    a2: Auth,
    provider_name: Seq<char>,
    credentials: &StringMap<String>,
    create_session: bool,
    ttl: i64,
    lr: LoginResult,
)
    requires
        logged_in(a, a2, provider_name, credentials, create_session, ttl, lr),
        a.issuer() is Opaque,
        !a.issuer().stored().dom().contains(revoked_key(lr.access_token@)),
        !a.issuer().stored().dom().contains(revoked_key(lr.refresh_token@)),
        !a.issuer().stored().dom().contains(token_key(lr.refresh_token@)),
        lr.access_token@ != lr.refresh_token@,
    ensures
        exists|ia: u128, ir: u128| {
            &&& ia <= MAX_INSTANT && ir <= MAX_INSTANT
            &&& representable(#[trigger] expiry_after(ia, ttl)) && representable(#[trigger] expiry_after(ir, (ttl * 24) as i64))
            &&& forall|now: u128, r: Result<Option<Token>, AuthError>|
                now <= secs_of(expiry_after(ia, ttl) as u128) * NANOS_PER_SEC
                && #[trigger] opaque_verify_outcome(a2.issuer().stored(), lr.access_token@, now, r)
                ==> (r matches Ok(Some(t)) && t.value@ == lr.access_token@ && t.user_id@ == lr.user.id@
                    && t.token_type == TokenType::Opaque)
            &&& forall|now: u128, r: Result<Option<Token>, AuthError>|
                now <= secs_of(expiry_after(ir, (ttl * 24) as i64) as u128) * NANOS_PER_SEC
                && #[trigger] opaque_verify_outcome(a2.issuer().stored(), lr.refresh_token@, now, r)
                ==> (r matches Ok(Some(t)) && t.value@ == lr.refresh_token@ && t.user_id@ == lr.user.id@
                    && t.token_type == TokenType::Refresh)
        },
{
    let f = lr.family_id->Some_0;
    let (m1, m2, at, rt) = choose|m1: TokenIssuer, m2: TokenIssuer, at: Token, rt: Token| {
        &&& a.issuer().issued(m1, lr.user, ttl, crate::auth::access_type(a.issuer()), None, at)
        &&& m1.issued(m2, lr.user, (ttl * 24) as i64, TokenType::Refresh, Some(f@), rt)
        &&& at.value@ == lr.access_token@
        &&& rt.value@ == lr.refresh_token@
        &&& a2.issuer().same_settings(m2)
        &&& a2.issuer().stored() == m2.stored().insert(crate::storage::refresh_family_key(f@), lr.refresh_token@)
    };
    let av = lr.access_token@;
    let rv = lr.refresh_token@;
    let c0 = a.issuer().stored();
    let c1 = m1.stored();
    let c2 = m2.stored();
    let c3 = a2.issuer().stored();
    let ka = token_key(av);
    let kr = refresh_token_key(rv);
    let kf = crate::storage::refresh_family_key(f@);
    assert(crate::opaque::opaque_issued(c0, c1, lr.user, ttl, TokenType::Opaque, None, at));
    assert(crate::opaque::opaque_issued(c1, c2, lr.user, (ttl * 24) as i64, TokenType::Refresh, Some(f@), rt));
    lemma_keys_apart(av, av);
    lemma_keys_apart(av, rv);
    lemma_keys_apart(rv, av);
    lemma_keys_apart(rv, rv);
    lemma_keys_apart(av, f@);
    lemma_keys_apart(rv, f@);
    assert(opaque_key(TokenType::Opaque, at.value@) == ka);
    assert(opaque_key(TokenType::Refresh, rt.value@) == kr);
    assert(c1.dom().contains(ka));
    assert(c2[ka] == c1[ka]);
    assert(c3[ka] == c1[ka]);
    assert(c3.dom().contains(ka));
    assert(c3.dom().contains(kr) && c3[kr] == c2[kr]);
    assert(!c3.dom().contains(revoked_key(av)));
    assert(!c3.dom().contains(revoked_key(rv)));
    assert(!c3.dom().contains(token_key(rv)));
    assert forall|now: u128, r: Result<Option<Token>, AuthError>|
        now <= secs_of(expiry_after(at.issued_at, ttl) as u128) * NANOS_PER_SEC
        && #[trigger] opaque_verify_outcome(c3, av, now, r)
        implies r matches Ok(Some(t)) && t.value@ == av && t.user_id@ == lr.user.id@ && t.token_type == TokenType::Opaque by {
        lemma_opaque_issued_verifies(c3, av, TokenType::Opaque, lr.user, at.expires_at, at.issued_at, None, now, r);
    }
    assert forall|now: u128, r: Result<Option<Token>, AuthError>|
        now <= secs_of(expiry_after(rt.issued_at, (ttl * 24) as i64) as u128) * NANOS_PER_SEC
        && #[trigger] opaque_verify_outcome(c3, rv, now, r)
        implies r matches Ok(Some(t)) && t.value@ == rv && t.user_id@ == lr.user.id@ && t.token_type == TokenType::Refresh by {
        lemma_opaque_issued_verifies(c3, rv, TokenType::Refresh, lr.user, rt.expires_at, rt.issued_at, Some(f@), now, r);
    }
    assert(at.issued_at <= MAX_INSTANT && rt.issued_at <= MAX_INSTANT);
}

/// A session's stored record reads back as the session with its instants
/// cut to whole seconds: same id, user, device, address, agent and metadata,
/// and the same presence of an expiry.
pub proof fn lemma_session_record_round_trip(x: Session, doc: JsonValue, y: Session)
    requires
        crate::session::session_times_fit(x),
        session_doc_matches(doc, x),
        crate::session::session_doc_reads(doc, y, crate::session::doc_last_activity(doc)),
    ensures
        session_doc_readable(doc),
        y.id@ == x.id@,
        y.user_id@ == x.user_id@,
        opt_view(y.device_id) == opt_view(x.device_id),
        opt_view(y.ip_address) == opt_view(x.ip_address),
        opt_view(y.user_agent) == opt_view(x.user_agent),
        y.metadata == x.metadata,
        y.created_at == secs_of(x.created_at) * NANOS_PER_SEC,
        y.last_activity == secs_of(x.last_activity) * NANOS_PER_SEC,
        y.expires_at == (match x.expires_at {
            Some(e) => Some((secs_of(e) * NANOS_PER_SEC) as u128),
            None => None,
        }),
{
    assert(secs_representable(secs_of(x.created_at)));
    assert(secs_representable(secs_of(x.last_activity)));
    if let Some(e) = x.expires_at {
        assert(secs_representable(secs_of(e)));
    }
}

/// A token's stored record reads back, under any value `v`, as the token
/// with its instants cut to whole seconds until its expiry, and as nothing
/// after it.
pub proof fn lemma_token_record_round_trip(t: Token, doc: JsonValue, v: Seq<char>, now: u128, r: Result<Option<Token>, AuthError>)
    requires
        t.expires_at <= MAX_INSTANT,
        t.issued_at <= MAX_INSTANT,
        token_doc_matches(doc, t.value@, t.token_type, t.user_id@, secs_of(t.expires_at), secs_of(t.issued_at), t.metadata),
        crate::tokens::token_read(v, doc, now, r),
    ensures
        now <= secs_of(t.expires_at) * NANOS_PER_SEC ==> (r matches Ok(Some(t2)) && {
            &&& t2.value@ == v
            &&& t2.token_type == t.token_type
            &&& t2.user_id@ == t.user_id@
            &&& t2.metadata.to_map() == t.metadata.to_map()
            &&& t2.expires_at == secs_of(t.expires_at) * NANOS_PER_SEC
            &&& t2.issued_at == secs_of(t.issued_at) * NANOS_PER_SEC
        }),
        now > secs_of(t.expires_at) * NANOS_PER_SEC ==> r matches Ok(None),
{
    lemma_type_name_reads(t.token_type, doc);
    assert(stored_secs(doc, "expires_at"@) == secs_of(t.expires_at));
    assert(stored_secs(doc, "issued_at"@) == secs_of(t.issued_at));
    assert(secs_representable(secs_of(t.expires_at)));
    assert(secs_representable(secs_of(t.issued_at)));
}

/// A JWT issued for `user` and checked before its expiry reads back as a
/// token whose metadata lists exactly the user's name, roles and
/// permissions, and the user rebuilt from it has exactly those roles and
/// permissions (each once).
pub proof fn lemma_verified_jwt_user(
    g: SimpleJWTGenerator,
    user: User,
    expires_in: i64,
    token_type: TokenType,
    family_id: Option<Seq<char>>,
    t0: Token,
    now: u128,
    t: Token,
    u: User,
)
    requires
        jwt_issued(g, user, expires_in, token_type, family_id, t0),
        g.algorithms().contains("HS256"@),
        g.required_issuer() is None || g.required_issuer() == g.issuer_claim(),
        g.required_audience() is None || g.required_audience() == g.audience_claim(),
        now <= secs_of(t0.expires_at) * NANOS_PER_SEC,
        crate::jwt::jwt_verify_outcome(g.check(t0.value@, now), t0.value@, Ok(Some(t))),
        crate::auth::token_user(t, u),
    ensures
        t.value@ == t0.value@,
        t.user_id@ == user.id@,
        u.id@ == user.id@,
        u.username@ == user.username@,
        u.roles.members() == user.roles.members(),
        u.permissions.members() == user.permissions.members(),
{
    lemma_jwt_issued_verifies(g, user, expires_in, token_type, family_id, t0, now);
    let p = g.check(t0.value@, now)->Accept_0;
    let (roles, permissions) = choose|roles: Seq<Seq<char>>, permissions: Seq<Seq<char>>| {
        &&& crate::collections::no_duplicates(roles) && roles.to_set() == crate::jwt::claim_set(p, "roles"@)
        &&& crate::collections::no_duplicates(permissions)
            && permissions.to_set() == crate::jwt::claim_set(p, "permissions"@)
        &&& metadata_matches(
            t.metadata,
            match json_str(json_get(p, "username"@)) { Some(n) => n, None => Seq::empty() },
            roles,
            permissions,
            json_str(json_get(p, "tenant_id"@)),
            json_str(json_get(p, "jti"@)),
            json_str(json_get(p, "fid"@)),
        )
    };
    let meta = JsonValue::Object(t.metadata);
    let mm = t.metadata.to_map();
    crate::json::lemma_string_array(mm["roles"@], roles);
    crate::json::lemma_string_array(mm["permissions"@], permissions);
    assert(crate::jwt::claim_set(meta, "roles"@) == roles.to_set());
    assert(crate::jwt::claim_set(meta, "permissions"@) == permissions.to_set());
    assert(user.roles.members() == user.roles.elems().to_set());
}

/// Refreshing with a JWT that was issued for `user` and checks out issues an
/// access token for a user with the same id, name, roles and permissions.
pub proof fn lemma_refresh_keeps_user(
    g: SimpleJWTGenerator,
    user: User,
    expires_in: i64,
    token_type: TokenType,
    family_id: Option<Seq<char>>,
    t0: Token,
    now: u128,
    t: Token,
    i2: TokenIssuer,
    ttl: i64,
    rr: crate::auth::RefreshResult,
)
    requires
        jwt_issued(g, user, expires_in, token_type, family_id, t0),
        g.algorithms().contains("HS256"@),
        g.required_issuer() is None || g.required_issuer() == g.issuer_claim(),
        g.required_audience() is None || g.required_audience() == g.audience_claim(),
        now <= secs_of(t0.expires_at) * NANOS_PER_SEC,
        crate::jwt::jwt_verify_outcome(g.check(t0.value@, now), t0.value@, Ok(Some(t))),
        crate::auth::refreshed(TokenIssuer::Jwt(g), i2, Ok(Some(t)), ttl, Ok(Some(rr))),
    ensures
        rr.expires_in == ttl,
        exists|u: User, a: Token| {
            &&& TokenIssuer::Jwt(g).issued(i2, u, ttl, TokenType::JWT, None, a)
            &&& a.value@ == rr.access_token@
            &&& u.id@ == user.id@
            &&& u.username@ == user.username@
            &&& u.roles.members() == user.roles.members()
            &&& u.permissions.members() == user.permissions.members()
        },
{
    let (u, a) = choose|u: User, a: Token| #[trigger] TokenIssuer::Jwt(g).issued(i2, u, ttl, crate::auth::access_type(TokenIssuer::Jwt(g)), None, a)
        && crate::auth::token_user(t, u) && a.value@ == rr.access_token@;
    lemma_verified_jwt_user(g, user, expires_in, token_type, family_id, t0, now, t, u);
}

/// The access token of a rotation lives the refresh token's lifetime in
/// whole seconds divided by 24, at least one second, and an hour when that
/// lifetime is zero; the new refresh token lives 24 times as long.
pub proof fn lemma_rotation_lifetimes(
    i: TokenIssuer,
    i2: TokenIssuer,
    v: Seq<char>,
    t: Token,
    lr: LoginResult,
)
    requires
        rotation(i, i2, v, Ok(Some(t)), Ok(Some(lr))),
        t.issued_at <= t.expires_at,
        t.expires_at - t.issued_at <= MAX_INSTANT,
    ensures
        ({
            let life = (t.expires_at - t.issued_at) / (NANOS_PER_SEC as int);
            &&& life >= 48 ==> lr.expires_in * 24 <= life < (lr.expires_in + 1) * 24
            &&& 0 < life < 48 ==> lr.expires_in == 1
            &&& life == 0 ==> lr.expires_in == 3600
        }),
        exists|mid: TokenIssuer| mid.stored() == i.after_revoke(v) && #[trigger] tokens_issued(mid, i2, lr.user,
            lr.expires_in, (lr.expires_in * 24) as i64, lr.family_id->Some_0@, lr.access_token@, lr.refresh_token@),
{
    let life = (t.expires_at - t.issued_at) / (NANOS_PER_SEC as int);
    assert(0 <= life <= 9_223_372_036_854_775_807) by (nonlinear_arith)
        requires
            life == (t.expires_at - t.issued_at) / (NANOS_PER_SEC as int),
            0 <= t.expires_at - t.issued_at <= MAX_INSTANT,
            NANOS_PER_SEC == 1_000_000_000,
            MAX_INSTANT == 9_223_372_036_854_775_807_999_999_999,
    ;
    assert(crate::auth::token_lifetime(t) == life);
}

/// A session created with a positive lifetime `ttl` expires exactly `ttl`
/// seconds after its creation, whatever the manager's default; with a
/// negative one it is already expired (a second before its creation); only a
/// zero `ttl` takes the manager's default.
pub proof fn lemma_session_lives_requested_ttl(
    m: crate::session::SessionManager,
    c2: Map<Seq<char>, Seq<char>>,
    x: Session,
    user_id: Seq<char>,
    device_id: Option<Seq<char>>,
    ip_address: Option<Seq<char>>,
    user_agent: Option<Seq<char>>,
    ttl: i64,
    now: u128,
)
    requires
        session_created(m.stored(), c2, x, user_id, device_id, ip_address, user_agent,
            crate::session::session_lifetime(m.ttl(), ttl), now),
    ensures
        x.created_at == now,
        ttl > 0 ==> x.expires_at == Some((now + ttl * 1_000_000_000) as u128),
        ttl < 0 ==> x.expires_at == Some((now - 1_000_000_000) as u128),
        ttl == 0 && m.ttl() > 0 ==> x.expires_at == Some((now + m.ttl() * 1_000_000_000) as u128),
{
}

/// A successful local authentication with the right password for an account
/// gives a user with the account's id, name, e-mail, tenant, roles and
/// permissions.
pub proof fn lemma_local_user_keeps_account(
    accounts: Map<Seq<char>, LocalUserRecord>,
    credentials: &StringMap<String>,
    r: Result<Option<User>, AuthError>,
)
    requires
        local_auth_outcome(accounts, credentials, r),
        r is Ok && r->Ok_0 is Some,
    ensures
        ({
            let name = crate::providers::credential(credentials, "username"@);
            let u = r->Ok_0->Some_0;
            &&& accounts.dom().contains(name)
            &&& u.id@ == accounts[name].id@
            &&& u.username@ == accounts[name].username@
            &&& opt_view(u.email) == opt_view(accounts[name].email)
            &&& opt_view(u.tenant_id) == opt_view(accounts[name].tenant_id)
            &&& u.roles.elems() == accounts[name].roles.elems()
            &&& u.permissions.elems() == accounts[name].permissions.elems()
        }),
{
}

/// An issued token belongs to the user it was issued for, has the type asked
/// for, and expires `expires_in` seconds after its issue when that is
/// positive (a second before its issue otherwise).
pub proof fn lemma_issued_token_lifetime(
    i: TokenIssuer,
    i2: TokenIssuer,
    user: User,
    expires_in: i64,
    token_type: TokenType,
    family_id: Option<Seq<char>>,
    t: Token,
)
    requires
        i.issued(i2, user, expires_in, token_type, family_id, t),
    ensures
        t.user_id@ == user.id@,
        t.token_type == token_type,
        expires_in > 0 ==> t.expires_at == t.issued_at + expires_in * 1_000_000_000,
        expires_in <= 0 ==> t.expires_at + 1_000_000_000 == t.issued_at,
{
}

} // verus!
