//! What tokens carry: their metadata, their stored JSON form, and the
//! interface of token generators.

use vstd::prelude::*;
use crate::collections::{StringMap, StringSet};
use crate::error::AuthError;
use crate::json::{
    JsonValue, json_canonical, json_get, json_str, json_u64, is_string_array, keys_sorted, push_field,
    seq_char_lt, lemma_object_within, canonical_within, lemma_string_array_within,
    lemma_canonical_flat_scalar,
};
use crate::model::{Token, TokenType, User};

verus! {

/// Nanoseconds in a second.
pub const NANOS_PER_SEC: u128 = 1_000_000_000;

/// The latest instant the system clock can represent, in nanoseconds since
/// the Unix epoch.
pub const MAX_INSTANT: u128 = 9_223_372_036_854_775_807_999_999_999;

/// The name of a token type in stored and signed token data.
pub open spec fn token_type_name(t: TokenType) -> Seq<char> {
    match t {
        TokenType::JWT => "JWT"@,
        TokenType::Opaque => "Opaque"@,
        TokenType::Refresh => "Refresh"@,
    }
}

/// The name of a token type.
pub fn token_type_str(t: TokenType) -> (r: &'static str)
    ensures
        r@ == token_type_name(t),
{
    match t {
        TokenType::JWT => "JWT",
        TokenType::Opaque => "Opaque",
        TokenType::Refresh => "Refresh",
    }
}

/// The keys of token metadata.
pub open spec fn metadata_keys(has_tenant: bool, has_jti: bool, has_fid: bool) -> Set<Seq<char>> {
    let base = set!["username"@, "roles"@, "permissions"@];
    let with_tenant = if has_tenant { base.insert("tenant_id"@) } else { base };
    let with_jti = if has_jti { with_tenant.insert("jti"@) } else { with_tenant };
    if has_fid { with_jti.insert("fid"@) } else { with_jti }
}

/// A value holds the string `s`.
pub open spec fn is_str(v: JsonValue, s: Seq<char>) -> bool {
    v matches JsonValue::Str(x) && x@ == s
}

/// `m` is token metadata for a user with the given name, roles, permissions
/// and tenant, with an optional token id (`jti`) and refresh family (`fid`):
/// exactly those entries, as strings and string arrays, keys in order.
pub open spec fn metadata_matches(
    m: StringMap<JsonValue>,
    username: Seq<char>,
    roles: Seq<Seq<char>>,
    permissions: Seq<Seq<char>>,
    tenant_id: Option<Seq<char>>,
    jti: Option<Seq<char>>,
    fid: Option<Seq<char>>,
) -> bool {
    let mm = m.to_map();
    &&& mm.dom() == metadata_keys(tenant_id is Some, jti is Some, fid is Some)
    &&& is_str(mm["username"@], username)
    &&& is_string_array(mm["roles"@], roles)
    &&& is_string_array(mm["permissions"@], permissions)
    &&& (tenant_id matches Some(t) ==> is_str(mm["tenant_id"@], t))
    &&& (jti matches Some(j) ==> is_str(mm["jti"@], j))
    &&& (fid matches Some(f) ==> is_str(mm["fid"@], f))
    &&& keys_sorted(m.keys())
}

/// The order of the metadata keys.
proof fn lemma_metadata_key_order()
    ensures
        seq_char_lt(Seq::<char>::empty(), "fid"@),
        seq_char_lt("fid"@, "jti"@),
        seq_char_lt("jti"@, "permissions"@),
        seq_char_lt("permissions"@, "roles"@),
        seq_char_lt("roles"@, "tenant_id"@),
        seq_char_lt("tenant_id"@, "username"@),
        "fid"@ != "jti"@ && "fid"@ != "permissions"@ && "fid"@ != "roles"@ && "fid"@ != "tenant_id"@ && "fid"@ != "username"@,
        "jti"@ != "permissions"@ && "jti"@ != "roles"@ && "jti"@ != "tenant_id"@ && "jti"@ != "username"@,
        "permissions"@ != "roles"@ && "permissions"@ != "tenant_id"@ && "permissions"@ != "username"@,
        "roles"@ != "tenant_id"@ && "roles"@ != "username"@,
        "tenant_id"@ != "username"@,
{
    reveal_strlit("fid");
    reveal_strlit("jti");
    reveal_strlit("permissions");
    reveal_strlit("roles");
    reveal_strlit("tenant_id");
    reveal_strlit("username");
    assert("fid"@[0] != "jti"@[0]);
    assert("fid"@[0] != "permissions"@[0]);
    assert("fid"@[0] != "roles"@[0]);
    assert("fid"@[0] != "tenant_id"@[0]);
    assert("fid"@[0] != "username"@[0]);
    assert("jti"@[0] != "permissions"@[0]);
    assert("jti"@[0] != "roles"@[0]);
    assert("jti"@[0] != "tenant_id"@[0]);
    assert("jti"@[0] != "username"@[0]);
    assert("permissions"@[0] != "roles"@[0]);
    assert("permissions"@[0] != "tenant_id"@[0]);
    assert("permissions"@[0] != "username"@[0]);
    assert("roles"@[0] != "tenant_id"@[0]);
    assert("roles"@[0] != "username"@[0]);
    assert("tenant_id"@[0] != "username"@[0]);
}

/// Builds token metadata: the user's name, roles, permissions and tenant, and
/// optionally a token id and a refresh family.
pub fn token_metadata(
    username: &String,
    roles: &StringSet,
    permissions: &StringSet,
    tenant_id: Option<&String>,
    jti: Option<&String>,
    fid: Option<&str>,
) -> (m: StringMap<JsonValue>)
    ensures
        metadata_matches(
            m,
            username@,
            roles.elems(),
            permissions.elems(),
            match tenant_id { Some(t) => Some(t@), None => None },
            match jti { Some(j) => Some(j@), None => None },
            match fid { Some(f) => Some(f@), None => None },
        ),
{
    proof { lemma_metadata_key_order(); }
    let mut m: StringMap<JsonValue> = StringMap::new();
    match fid {
        Some(f) => push_field(&mut m, "fid", JsonValue::Str(f.to_owned()), Ghost(Seq::<char>::empty())),
        None => {},
    }
    match jti {
        Some(j) => push_field(&mut m, "jti", JsonValue::Str(j.clone()), Ghost("fid"@)),
        None => {
            assert(forall|i: int| 0 <= i < m.keys().len() ==> crate::json::seq_char_le(#[trigger] m.keys()[i], "jti"@)) by {
                assert forall|i: int| 0 <= i < m.keys().len() implies crate::json::seq_char_le(#[trigger] m.keys()[i], "jti"@) by {
                    if m.keys()[i] != "fid"@ {
                        crate::json::lemma_char_lt_transitive(m.keys()[i], "fid"@, "jti"@);
                    }
                }
            }
        },
    }
    push_field(&mut m, "permissions", JsonValue::from_string_set(permissions), Ghost("jti"@));
    push_field(&mut m, "roles", JsonValue::from_string_set(roles), Ghost("permissions"@));
    match tenant_id {
        Some(t) => push_field(&mut m, "tenant_id", JsonValue::Str(t.clone()), Ghost("roles"@)),
        None => {},
    }
    assert forall|i: int| 0 <= i < m.keys().len() implies crate::json::seq_char_le(#[trigger] m.keys()[i], "tenant_id"@) by {
        if m.keys()[i] != "tenant_id"@ && m.keys()[i] != "roles"@ {
            crate::json::lemma_char_lt_transitive(m.keys()[i], "roles"@, "tenant_id"@);
        }
    }
    push_field(&mut m, "username", JsonValue::Str(username.clone()), Ghost("tenant_id"@));
    assert(m.to_map().dom() =~= metadata_keys(tenant_id is Some, jti is Some, fid is Some));
    m
}

/// `doc` is the stored form of a token: exactly its value, type, user id,
/// expiry and issue time in whole seconds, and metadata, keys in order.
pub open spec fn token_doc_matches(
    doc: JsonValue,
    value: Seq<char>,
    token_type: TokenType,
    user_id: Seq<char>,
    expires_secs: u64,
    issued_secs: u64,
    metadata: StringMap<JsonValue>,
) -> bool {
    &&& doc matches JsonValue::Object(o) && keys_sorted(o.keys())
        && o.to_map().dom() == set!["expires_at"@, "issued_at"@, "metadata"@, "token_type"@, "user_id"@, "value"@]
    &&& json_get(doc, "expires_at"@) == Some(JsonValue::UInt(expires_secs))
    &&& json_get(doc, "issued_at"@) == Some(JsonValue::UInt(issued_secs))
    &&& json_get(doc, "metadata"@) == Some(JsonValue::Object(metadata))
    &&& json_str(json_get(doc, "token_type"@)) == Some(token_type_name(token_type))
    &&& json_str(json_get(doc, "user_id"@)) == Some(user_id)
    &&& json_str(json_get(doc, "value"@)) == Some(value)
}

proof fn lemma_token_doc_key_order()
    ensures
        seq_char_lt(Seq::<char>::empty(), "expires_at"@),
        seq_char_lt("expires_at"@, "issued_at"@),
        seq_char_lt("issued_at"@, "metadata"@),
        seq_char_lt("metadata"@, "token_type"@),
        seq_char_lt("token_type"@, "user_id"@),
        seq_char_lt("user_id"@, "value"@),
        "expires_at"@ != "issued_at"@ && "expires_at"@ != "metadata"@ && "expires_at"@ != "token_type"@
            && "expires_at"@ != "user_id"@ && "expires_at"@ != "value"@,
        "issued_at"@ != "metadata"@ && "issued_at"@ != "token_type"@ && "issued_at"@ != "user_id"@ && "issued_at"@ != "value"@,
        "metadata"@ != "token_type"@ && "metadata"@ != "user_id"@ && "metadata"@ != "value"@,
        "token_type"@ != "user_id"@ && "token_type"@ != "value"@,
        "user_id"@ != "value"@,
{
    reveal_strlit("expires_at");
    reveal_strlit("issued_at");
    reveal_strlit("metadata");
    reveal_strlit("token_type");
    reveal_strlit("user_id");
    reveal_strlit("value");
    assert("expires_at"@[0] == 'e' && "issued_at"@[0] == 'i' && "metadata"@[0] == 'm');
    assert("token_type"@[0] == 't' && "user_id"@[0] == 'u' && "value"@[0] == 'v');
}

/// The stored form of a token.
pub fn token_document(
    value: &String,
    token_type: TokenType,
    user_id: &String,
    expires_secs: u64,
    issued_secs: u64,
    metadata: StringMap<JsonValue>,
) -> (r: JsonValue)
    ensures
        token_doc_matches(r, value@, token_type, user_id@, expires_secs, issued_secs, metadata),
        canonical_within(JsonValue::Object(metadata), 31) ==> json_canonical(r),
{
    proof { lemma_token_doc_key_order(); }
    let ghost meta = metadata;
    let mut m: StringMap<JsonValue> = StringMap::new();
    push_field(&mut m, "expires_at", JsonValue::UInt(expires_secs), Ghost(Seq::<char>::empty()));
    push_field(&mut m, "issued_at", JsonValue::UInt(issued_secs), Ghost("expires_at"@));
    push_field(&mut m, "metadata", JsonValue::Object(metadata), Ghost("issued_at"@));
    push_field(&mut m, "token_type", JsonValue::Str(String::from_str(token_type_str(token_type))), Ghost("metadata"@));
    push_field(&mut m, "user_id", JsonValue::Str(user_id.clone()), Ghost("token_type"@));
    push_field(&mut m, "value", JsonValue::Str(value.clone()), Ghost("user_id"@));
    proof {
        assert(m.to_map().dom() =~= set!["expires_at"@, "issued_at"@, "metadata"@, "token_type"@, "user_id"@, "value"@]);
        if canonical_within(JsonValue::Object(meta), 31) {
            assert forall|k: Seq<char>| #![auto] m.to_map().dom().contains(k) implies canonical_within(m.to_map()[k], 31) by {
                if k != "metadata"@ {
                    lemma_canonical_flat_scalar(m.to_map()[k], 31);
                }
            }
            lemma_object_within(m, 32);
        }
    }
    JsonValue::Object(m)
}

/// The token type named in a stored token, if it is one of the known names.
pub open spec fn stored_token_type(doc: JsonValue) -> Option<TokenType> {
    let name = json_str(json_get(doc, "token_type"@));
    if name == Some("JWT"@) {
        Some(TokenType::JWT)
    } else if name == Some("Opaque"@) {
        Some(TokenType::Opaque)
    } else if name == Some("Refresh"@) {
        Some(TokenType::Refresh)
    } else {
        None
    }
}

/// Whole seconds stored under `key`, zero (the epoch) when absent.
pub open spec fn stored_secs(doc: JsonValue, key: Seq<char>) -> u64 {
    match json_u64(json_get(doc, key)) {
        Some(s) => s,
        None => 0,
    }
}

/// Seconds that the clock can represent.
pub open spec fn secs_representable(secs: u64) -> bool {
    secs <= 9_223_372_036_854_775_807u64
}

/// The metadata stored with a token; empty when absent.
pub open spec fn stored_metadata(doc: JsonValue) -> Map<Seq<char>, JsonValue> {
    match json_get(doc, "metadata"@) {
        Some(JsonValue::Object(m)) => m.to_map(),
        _ => Map::empty(),
    }
}

/// The user id stored with a token; empty when absent.
pub open spec fn stored_user_id(doc: JsonValue) -> Seq<char> {
    match json_str(json_get(doc, "user_id"@)) {
        Some(s) => s,
        None => Seq::empty(),
    }
}

/// What reading the stored token `doc` under `value` at instant `now` gives:
/// nothing for an unknown type or an expired token, a time error for times
/// the clock cannot hold, else the token with the stored fields.
pub open spec fn token_read(value: Seq<char>, doc: JsonValue, now: u128, r: Result<Option<Token>, AuthError>) -> bool {
    match stored_token_type(doc) {
        None => r matches Ok(None),
        Some(tt) => if !secs_representable(stored_secs(doc, "expires_at"@)) || !secs_representable(stored_secs(doc, "issued_at"@)) {
            r matches Err(AuthError::TimeError)
        } else if now > stored_secs(doc, "expires_at"@) * NANOS_PER_SEC {
            r matches Ok(None)
        } else {
            r matches Ok(Some(t)) && {
                &&& t.value@ == value
                &&& t.token_type == tt
                &&& t.user_id@ == stored_user_id(doc)
                &&& t.expires_at == stored_secs(doc, "expires_at"@) * NANOS_PER_SEC
                &&& t.issued_at == stored_secs(doc, "issued_at"@) * NANOS_PER_SEC
                &&& t.metadata.to_map() == stored_metadata(doc)
            }
        },
    }
}

/// Seconds since the epoch as an instant; an error past what the clock holds.
pub(crate) fn instant_from_secs(secs: u64) -> (r: Result<u128, AuthError>)
    ensures
        match r {
            Ok(t) => secs_representable(secs) && t == secs * NANOS_PER_SEC,
            Err(e) => !secs_representable(secs) && e is TimeError,
        },
{
    if secs > 9_223_372_036_854_775_807u64 {
        Err(AuthError::TimeError)
    } else {
        Ok(secs as u128 * NANOS_PER_SEC)
    }
}

/// Reads a stored token under the token value `value` at instant `now`.
pub fn token_from_document(value: &str, doc: JsonValue, now: u128) -> (r: Result<Option<Token>, AuthError>)
    ensures
        token_read(value@, doc, now, r),
{
    let ghost d = doc;
    let token_type = match doc.get("token_type") {
        Some(v) => match v.as_str() {
            Some(name) => if crate::strings::str_eq(name.as_str(), "JWT") {
                TokenType::JWT
            } else if crate::strings::str_eq(name.as_str(), "Opaque") {
                TokenType::Opaque
            } else if crate::strings::str_eq(name.as_str(), "Refresh") {
                TokenType::Refresh
            } else {
                return Ok(None);
            },
            None => return Ok(None),
        },
        None => return Ok(None),
    };
    let user_id = match doc.get("user_id") {
        Some(v) => match v.as_str() {
            Some(s) => s.clone(),
            None => String::new(),
        },
        None => String::new(),
    };
    let expires_secs: u64 = match doc.get("expires_at") {
        Some(v) => match v.as_u64() {
            Some(n) => n,
            None => 0,
        },
        None => 0,
    };
    let issued_secs: u64 = match doc.get("issued_at") {
        Some(v) => match v.as_u64() {
            Some(n) => n,
            None => 0,
        },
        None => 0,
    };
    let expires_at = instant_from_secs(expires_secs)?;
    let issued_at = instant_from_secs(issued_secs)?;
    let metadata = match doc {
        JsonValue::Object(mut fields) => match fields.remove("metadata") {
            Some(JsonValue::Object(m)) => m,
            _ => StringMap::new(),
        },
        _ => StringMap::new(),
    };
    if now > expires_at {
        return Ok(None);
    }
    Ok(Some(Token { value: value.to_owned(), token_type, user_id, expires_at, issued_at, metadata }))
}

/// `t` is the refresh token made of the token `g` for the refresh family
/// `family_id`: the same value, user and times, of the refresh type, with the
/// family added to its metadata under `fid`.
pub open spec fn refresh_of(g: Token, t: Token, family_id: Seq<char>) -> bool {
    &&& t.value == g.value
    &&& t.user_id == g.user_id
    &&& t.issued_at == g.issued_at
    &&& t.expires_at == g.expires_at
    &&& t.token_type == TokenType::Refresh
    &&& exists|v: JsonValue| is_str(v, family_id) && t.metadata.to_map() == g.metadata.to_map().insert("fid"@, v)
}

/// Token generators: issue tokens for users, check token values, and revoke them.
pub trait TokenGenerator {
    /// `r` is what issuing a token for `user` that lives `expires_in` seconds
    /// may give, with this generator before the call and `after` after it.
    spec fn issues(&self, after: &Self, user: User, expires_in: i64, r: Result<Token, AuthError>) -> bool;

    /// Issues a token for `user` that expires `expires_in` seconds from now
    /// (one second ago when `expires_in` is not positive).
    fn generate(&mut self, user: &User, expires_in: i64) -> (r: Result<Token, AuthError>)
        ensures
            old(self).issues(&*final(self), *user, expires_in, r);

    /// Issues a refresh token for `user` in the refresh family `family_id`.
    /// By default: the token that [`TokenGenerator::generate`] issues, made
    /// a refresh token of the family; its error when it fails.
    fn generate_refresh(&mut self, user: &User, expires_in: i64, family_id: &str) -> (r: Result<Token, AuthError>)
        default_ensures
            match r {
                Ok(t) => exists|g: Token| #[trigger] old(self).issues(&*final(self), *user, expires_in, Ok(g))
                    && refresh_of(g, t, family_id@),
                Err(e) => old(self).issues(&*final(self), *user, expires_in, Err(e)),
            },
    {
        let mut token = match self.generate(user, expires_in) {
            Ok(t) => t,
            Err(e) => return Err(e),
        };
        let ghost g = token;
        token.token_type = TokenType::Refresh;
        let fid = JsonValue::Str(family_id.to_owned());
        let ghost v = fid;
        token.metadata.insert(String::from_str("fid"), fid);
        proof {
            reveal_strlit("fid");
            assert(is_str(v, family_id@));
            assert(refresh_of(g, token, family_id@));
        }
        Ok(token)
    }

    /// The token that a token value stands for, if it is valid now.
    fn verify(&self, token_value: &str) -> Result<Option<Token>, AuthError>;

    /// Revokes a token value.
    fn revoke(&mut self, token_value: &str);

    /// Whether a token value has been revoked.
    fn is_revoked(&self, token_value: &str) -> bool;
}

/// The instant `expires_in` seconds after `now`, or one second before `now`
/// when `expires_in` is not positive.
pub open spec fn expiry_after(now: u128, expires_in: i64) -> int {
    if expires_in > 0 {
        now + expires_in * NANOS_PER_SEC
    } else {
        now - NANOS_PER_SEC
    }
}

/// An instant the clock can represent.
pub open spec fn representable(t: int) -> bool {
    0 <= t <= MAX_INSTANT
}

/// The expiry of a token issued at `now` for `expires_in` seconds; a time
/// error when the clock cannot represent it.
pub fn expiry_instant(now: u128, expires_in: i64) -> (r: Result<u128, AuthError>)
    requires
        now <= MAX_INSTANT,
    ensures
        match r {
            Ok(t) => representable(expiry_after(now, expires_in)) && t == expiry_after(now, expires_in),
            Err(e) => !representable(expiry_after(now, expires_in)) && e is TimeError,
        },
{
    if expires_in > 0 {
        let add = (expires_in as u128) * NANOS_PER_SEC;
        if add > MAX_INSTANT - now {
            Err(AuthError::TimeError)
        } else {
            Ok(now + add)
        }
    } else if now >= NANOS_PER_SEC {
        Ok(now - NANOS_PER_SEC)
    } else {
        Err(AuthError::TimeError)
    }
}

/// Whole seconds of an instant.
pub open spec fn secs_of(t: u128) -> u64 {
    (t / NANOS_PER_SEC) as u64
}

/// Whole seconds of an instant the clock can represent.
pub fn whole_secs(t: u128) -> (r: u64)
    requires
        t <= MAX_INSTANT,
    ensures
        r == secs_of(t),
        secs_representable(r),
{
    (t / NANOS_PER_SEC) as u64
}

/// Token metadata is canonical, nested one level inside a stored token.
pub proof fn lemma_metadata_canonical(
    m: StringMap<JsonValue>,
    username: Seq<char>,
    roles: Seq<Seq<char>>,
    permissions: Seq<Seq<char>>,
    tenant_id: Option<Seq<char>>,
    jti: Option<Seq<char>>,
    fid: Option<Seq<char>>,
)
    requires
        metadata_matches(m, username, roles, permissions, tenant_id, jti, fid),
    ensures
        canonical_within(JsonValue::Object(m), 31),
{
    lemma_metadata_key_order();
    assert forall|k: Seq<char>| #![auto] m.to_map().dom().contains(k) implies canonical_within(m.to_map()[k], 30) by {
        if k == "roles"@ {
            lemma_string_array_within(m.to_map()[k], roles, 30);
        } else if k == "permissions"@ {
            lemma_string_array_within(m.to_map()[k], permissions, 30);
        } else {
            lemma_canonical_flat_scalar(m.to_map()[k], 30);
        }
    }
    lemma_object_within(m, 31);
}

/// The storage keys that revoking a token value touches are distinct.
pub proof fn lemma_revoke_keys_distinct(value: Seq<char>)
    ensures
        crate::storage::revoked_key(value) != crate::storage::refresh_token_key(value),
        crate::storage::revoked_key(value) != crate::storage::token_key(value),
        crate::storage::refresh_token_key(value) != crate::storage::token_key(value),
        forall|f: Seq<char>| crate::storage::revoked_key(value) != #[trigger] crate::storage::refresh_family_key(f),
        !has_prefix_refresh(crate::storage::revoked_key(value)),
        !has_prefix_refresh(crate::storage::token_key(value)),
        has_prefix_refresh(crate::storage::refresh_token_key(value)),
        forall|f: Seq<char>| !has_prefix_refresh(#[trigger] crate::storage::refresh_family_key(f)),
{
    reveal_strlit("revoked:");
    reveal_strlit("refresh:");
    reveal_strlit("opaque:");
    reveal_strlit("refresh_family:");
    assert(crate::storage::revoked_key(value)[2] != crate::storage::refresh_token_key(value)[2]);
    assert(crate::storage::revoked_key(value)[0] != crate::storage::token_key(value)[0]);
    assert(crate::storage::refresh_token_key(value)[0] != crate::storage::token_key(value)[0]);
    assert forall|f: Seq<char>| crate::storage::revoked_key(value) != #[trigger] crate::storage::refresh_family_key(f) by {
        assert(crate::storage::revoked_key(value)[2] != crate::storage::refresh_family_key(f)[2]);
    }
    assert(crate::storage::revoked_key(value).subrange(0, 8)[2] != "refresh:"@[2]);
    assert(!has_prefix_refresh(crate::storage::token_key(value))) by {
        let k = crate::storage::token_key(value);
        if k.len() >= 8 {
            assert(k.subrange(0, 8)[0] == k[0]);
            assert(k[0] != "refresh:"@[0]);
        }
    }
    assert(crate::storage::refresh_token_key(value).subrange(0, 8) =~= "refresh:"@);
    assert forall|f: Seq<char>| !has_prefix_refresh(#[trigger] crate::storage::refresh_family_key(f)) by {
        assert(crate::storage::refresh_family_key(f).subrange(0, 8)[7] != "refresh:"@[7]);
    }
}

/// The key begins with `refresh:`.
pub open spec fn has_prefix_refresh(k: Seq<char>) -> bool {
    crate::strings::has_prefix(k, "refresh:"@)
}

} // verus!
