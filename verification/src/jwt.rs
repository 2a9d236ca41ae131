//! JSON Web Tokens signed with HMAC-SHA256.

use vstd::prelude::*;
use crate::collections::{StringMap, StringSet, string_views, no_duplicates};
use crate::crypto::{
    base64_url, base64_url_decoded, decode_base64_url, encode_base64_url, hmac_check, hmac_sha256, hmac_sign,
    input_len_ok, random_id, within_input_limit, is_base64_url_char,
};
use crate::error::AuthError;
use crate::hasher::utf8;
use crate::json::{
    JsonValue, json_canonical, json_get, json_parse, json_str, json_strings, json_text, json_u64, keys_sorted,
    parse_json, push_field, seq_char_le, seq_char_lt, write_json, lemma_char_lt_transitive, is_string_array,
};
use crate::model::{Token, TokenType, User};
use crate::opaque::{stored_family, without_family_tokens};
use crate::storage::{InMemoryStorage, StorageBackend, revoked_key, refresh_family_key, storage_revoked_key, storage_refresh_family_key};
use crate::strings::{concat3, opt_view, opt_str_view, split_char, split_on, str_eq, has_prefix};
use crate::tokens::{
    TokenGenerator, MAX_INSTANT, NANOS_PER_SEC, expiry_after, expiry_instant, representable, secs_of, whole_secs,
    secs_representable, metadata_matches, token_metadata, token_type_name, token_type_str, is_str,
};
use crate::clock::current_time;

verus! {

/// Every key is at most `b`, and `b` is before `x`: every key is at most `x`.
proof fn lemma_keys_le_weaken(keys: Seq<Seq<char>>, b: Seq<char>, x: Seq<char>)
    requires
        forall|i: int| 0 <= i < keys.len() ==> seq_char_le(#[trigger] keys[i], b),
        seq_char_lt(b, x),
    ensures
        forall|i: int| 0 <= i < keys.len() ==> seq_char_le(#[trigger] keys[i], x),
{
    assert forall|i: int| 0 <= i < keys.len() implies seq_char_le(#[trigger] keys[i], x) by {
        if keys[i] != b {
            lemma_char_lt_transitive(keys[i], b, x);
        }
    }
}

/// The order of the header and claim keys.
proof fn lemma_jwt_key_order()
    ensures
        seq_char_lt(Seq::<char>::empty(), "alg"@),
        seq_char_lt("alg"@, "kid"@),
        seq_char_lt("kid"@, "typ"@),
        seq_char_lt(Seq::<char>::empty(), "aud"@),
        seq_char_lt("aud"@, "exp"@),
        seq_char_lt("exp"@, "fid"@),
        seq_char_lt("fid"@, "iat"@),
        seq_char_lt("iat"@, "iss"@),
        seq_char_lt("iss"@, "jti"@),
        seq_char_lt("jti"@, "permissions"@),
        seq_char_lt("permissions"@, "roles"@),
        seq_char_lt("roles"@, "tenant_id"@),
        seq_char_lt("tenant_id"@, "token_type"@),
        seq_char_lt("token_type"@, "user_id"@),
        seq_char_lt("user_id"@, "username"@),
{
    reveal_strlit("alg");
    reveal_strlit("kid");
    reveal_strlit("typ");
    reveal_strlit("aud");
    reveal_strlit("exp");
    reveal_strlit("fid");
    reveal_strlit("iat");
    reveal_strlit("iss");
    reveal_strlit("jti");
    reveal_strlit("permissions");
    reveal_strlit("roles");
    reveal_strlit("tenant_id");
    reveal_strlit("token_type");
    reveal_strlit("user_id");
    reveal_strlit("username");
    reveal_with_fuel(seq_char_lt, 6);
    assert("iat"@.drop_first() =~= seq!['a', 't']);
    assert("iss"@.drop_first() =~= seq!['s', 's']);
    assert("tenant_id"@.drop_first()[0] == 'e');
    assert("token_type"@.drop_first()[0] == 'o');
    let u1 = "user_id"@;
    let u2 = "username"@;
    assert(u1.drop_first().drop_first().drop_first().drop_first()[0] == '_');
    assert(u2.drop_first().drop_first().drop_first().drop_first()[0] == 'n');
}

/// `h` is a token header: algorithm HS256, type JWT and, when given, the key id.
pub open spec fn jwt_header_matches(h: JsonValue, key_id: Option<Seq<char>>) -> bool {
    &&& h matches JsonValue::Object(o) && keys_sorted(o.keys())
        && o.to_map().dom() == (if key_id is Some { set!["alg"@, "kid"@, "typ"@] } else { set!["alg"@, "typ"@] })
    &&& json_str(json_get(h, "alg"@)) == Some("HS256"@)
    &&& json_str(json_get(h, "typ"@)) == Some("JWT"@)
    &&& (key_id matches Some(k) ==> json_str(json_get(h, "kid"@)) == Some(k))
}

/// The claim keys of a token.
pub open spec fn claim_keys(has_aud: bool, has_fid: bool, has_iss: bool) -> Set<Seq<char>> {
    let base = set!["exp"@, "iat"@, "jti"@, "permissions"@, "roles"@, "tenant_id"@, "token_type"@, "user_id"@, "username"@];
    let a = if has_aud { base.insert("aud"@) } else { base };
    let b = if has_fid { a.insert("fid"@) } else { a };
    if has_iss { b.insert("iss"@) } else { b }
}

/// `p` holds the claims of a token for `user`: its id, name, roles,
/// permissions and tenant (null when none), the token id, issue and expiry
/// times in whole seconds, the type name, and the optional issuer, audience
/// and refresh family.
pub open spec fn jwt_claims_match(
    p: JsonValue,
    user: &User,
    iat: u64,
    exp: u64,
    jti: Seq<char>,
    token_type: TokenType,
    issuer: Option<Seq<char>>,
    audience: Option<Seq<char>>,
    family_id: Option<Seq<char>>,
) -> bool {
    &&& p matches JsonValue::Object(o) && keys_sorted(o.keys())
        && o.to_map().dom() == claim_keys(audience is Some, family_id is Some, issuer is Some)
    &&& json_str(json_get(p, "user_id"@)) == Some(user.id@)
    &&& json_str(json_get(p, "username"@)) == Some(user.username@)
    &&& json_get(p, "roles"@) matches Some(r) && is_string_array(r, user.roles.elems())
    &&& json_get(p, "permissions"@) matches Some(x) && is_string_array(x, user.permissions.elems())
    &&& (match user.tenant_id {
        Some(t) => json_str(json_get(p, "tenant_id"@)) == Some(t@),
        None => json_get(p, "tenant_id"@) == Some(JsonValue::Null),
    })
    &&& json_str(json_get(p, "jti"@)) == Some(jti)
    &&& json_get(p, "iat"@) == Some(JsonValue::UInt(iat))
    &&& json_get(p, "exp"@) == Some(JsonValue::UInt(exp))
    &&& json_str(json_get(p, "token_type"@)) == Some(token_type_name(token_type))
    &&& (issuer matches Some(i) ==> json_str(json_get(p, "iss"@)) == Some(i))
    &&& (audience matches Some(a) ==> json_str(json_get(p, "aud"@)) == Some(a))
    &&& (family_id matches Some(f) ==> json_str(json_get(p, "fid"@)) == Some(f))
}

/// The compact serialization of a token with header `h` and claims `p`,
/// signed under `secret`: `header.claims.signature`, each part in URL-safe
/// unpadded base64.
pub open spec fn jwt_compact(secret: Seq<u8>, h: JsonValue, p: JsonValue) -> Seq<char> {
    let signing_input = base64_url(json_text(h)) + seq!['.'] + base64_url(json_text(p));
    signing_input + seq!['.'] + base64_url(hmac_sha256(secret, utf8(signing_input)))
}

/// The parts of the compact form of a token with header `h` and claims `p`
/// read back: each part decodes to what was encoded, header and claims parse
/// back to `h` and `p`, and no part holds a `.`.
pub open spec fn jwt_reads_back(secret: Seq<u8>, h: JsonValue, p: JsonValue) -> bool {
    let ht = json_text(h);
    let pt = json_text(p);
    let sig = hmac_sha256(secret, utf8(base64_url(ht) + seq!['.'] + base64_url(pt)));
    &&& json_parse(ht) == Some(h)
    &&& json_parse(pt) == Some(p)
    &&& base64_url_decoded(base64_url(ht)) == Some(ht)
    &&& base64_url_decoded(base64_url(pt)) == Some(pt)
    &&& base64_url_decoded(base64_url(sig)) == Some(sig)
    &&& !base64_url(ht).contains('.')
    &&& !base64_url(pt).contains('.')
    &&& !base64_url(sig).contains('.')
}

/// A text in the URL-safe base64 alphabet holds no `.`.
proof fn lemma_url_text_dot_free(t: Seq<char>)
    requires
        forall|i: int| 0 <= i < t.len() ==> is_base64_url_char(#[trigger] t[i]),
    ensures
        !t.contains('.'),
{
    if t.contains('.') {
        let i = choose|i: int| 0 <= i < t.len() && t[i] == '.';
        assert(is_base64_url_char(t[i]));
    }
}

/// The outcome of checking a token value.
pub enum JwtCheck {
    /// The value is refused (malformed, badly signed, wrong issuer or
    /// audience, no token id, or expired).
    Reject,
    /// The header names no algorithm.
    MissingAlgorithm,
    /// The claims hold no user id.
    MissingUserId,
    /// The claims hold no issue time.
    MissingIssuedAt,
    /// The claims hold no expiry.
    MissingExpiry,
    /// A time in the claims is beyond what the clock can represent.
    TimeOutOfRange,
    /// The value is valid; these are its claims.
    Accept(JsonValue),
}

/// The JSON document that a URL-safe base64 text encodes, if any.
pub open spec fn decoded_json(text: Seq<char>) -> Option<JsonValue> {
    match base64_url_decoded(text) {
        Some(b) => json_parse(b),
        None => None,
    }
}

/// The key id named in a header; empty when none.
pub open spec fn header_key_id(h: JsonValue) -> Seq<char> {
    match json_str(json_get(h, "kid"@)) {
        Some(k) => k,
        None => Seq::empty(),
    }
}

/// How a token value fares at instant `now` against a generator with signing
/// key `secret`, the algorithms it allows, its key id, and the issuer and
/// audience it expects. The header is checked first, then the signature
/// over `header.claims`, then the claims.
pub open spec fn jwt_check(
    secret: Seq<u8>,
    allowed: Seq<Seq<char>>,
    key_id: Option<Seq<char>>,
    expected_issuer: Option<Seq<char>>,
    expected_audience: Option<Seq<char>>,
    value: Seq<char>,
    now: u128,
) -> JwtCheck {
    let parts = split_on(value, '.');
    if parts.len() != 3 {
        JwtCheck::Reject
    } else {
        match decoded_json(parts[0]) {
            None => JwtCheck::Reject,
            Some(header) => match json_str(json_get(header, "alg"@)) {
                None => JwtCheck::MissingAlgorithm,
                Some(alg) => {
                    let signing_input = utf8(parts[0] + seq!['.'] + parts[1]);
                    if !allowed.contains(alg) {
                        JwtCheck::Reject
                    } else if key_id matches Some(k) && header_key_id(header) != k {
                        JwtCheck::Reject
                    } else if !(base64_url_decoded(parts[2]) matches Some(sig) && within_input_limit(signing_input.len() as int)
                        && sig == hmac_sha256(secret, signing_input)) {
                        JwtCheck::Reject
                    } else {
                        match decoded_json(parts[1]) {
                            None => JwtCheck::Reject,
                            Some(p) => if expected_issuer matches Some(i) && json_str(json_get(p, "iss"@)) != Some(i) {
                                JwtCheck::Reject
                            } else if expected_audience matches Some(a) && json_str(json_get(p, "aud"@)) != Some(a) {
                                JwtCheck::Reject
                            } else if json_str(json_get(p, "jti"@)) is None {
                                JwtCheck::Reject
                            } else if json_str(json_get(p, "user_id"@)) is None {
                                JwtCheck::MissingUserId
                            } else if json_u64(json_get(p, "iat"@)) is None {
                                JwtCheck::MissingIssuedAt
                            } else if json_u64(json_get(p, "exp"@)) is None {
                                JwtCheck::MissingExpiry
                            } else if !secs_representable(json_u64(json_get(p, "iat"@)).unwrap())
                                || !secs_representable(json_u64(json_get(p, "exp"@)).unwrap()) {
                                JwtCheck::TimeOutOfRange
                            } else if now > json_u64(json_get(p, "exp"@)).unwrap() * NANOS_PER_SEC {
                                JwtCheck::Reject
                            } else {
                                JwtCheck::Accept(p)
                            },
                        }
                    }
                },
            },
        }
    }
}

/// What checking `value` returns when the check comes out as `c`.
pub open spec fn jwt_verify_outcome(c: JwtCheck, value: Seq<char>, r: Result<Option<Token>, AuthError>) -> bool {
    match c {
        JwtCheck::Reject => r matches Ok(None),
        JwtCheck::MissingAlgorithm => r matches Err(AuthError::InvalidToken),
        JwtCheck::MissingUserId => r matches Err(AuthError::MissingField(f)) && f@ == "user_id"@,
        JwtCheck::MissingIssuedAt => r matches Err(AuthError::MissingField(f)) && f@ == "iat"@,
        JwtCheck::MissingExpiry => r matches Err(AuthError::MissingField(f)) && f@ == "exp"@,
        JwtCheck::TimeOutOfRange => r matches Err(AuthError::TimeError),
        JwtCheck::Accept(p) => r matches Ok(Some(t)) && token_from_claims(t, value, p),
    }
}

/// The refresh family named in the claims of a token value, if any.
pub open spec fn jwt_family(value: Seq<char>) -> Option<Seq<char>> {
    let parts = split_on(value, '.');
    if parts.len() != 3 {
        None
    } else {
        match decoded_json(parts[1]) {
            Some(p) => json_str(json_get(p, "fid"@)),
            None => None,
        }
    }
}

/// The storage contents after revoking the token value `value` in `c`: the
/// value is marked revoked and, when its claims name a refresh family, the
/// family's active-token entry and every stored refresh token of the family go.
pub open spec fn after_jwt_revoke(c: Map<Seq<char>, Seq<char>>, value: Seq<char>) -> Map<Seq<char>, Seq<char>> {
    let c1 = c.insert(revoked_key(value), "revoked"@);
    match jwt_family(value) {
        Some(f) => without_family_tokens(c1.remove(refresh_family_key(f)), f),
        None => c1,
    }
}

/// The string items of an array claim as a set; empty when absent.
pub open spec fn claim_set(p: JsonValue, key: Seq<char>) -> Set<Seq<char>> {
    match json_strings(json_get(p, key)) {
        Some(s) => s.to_set(),
        None => Set::empty(),
    }
}

/// `t` is the token that the accepted value `value` with claims `p` stands for.
pub open spec fn token_from_claims(t: Token, value: Seq<char>, p: JsonValue) -> bool {
    &&& t.value@ == value
    &&& t.token_type == (if json_str(json_get(p, "token_type"@)) == Some("Refresh"@) { TokenType::Refresh } else { TokenType::JWT })
    &&& json_str(json_get(p, "user_id"@)) == Some(t.user_id@)
    &&& t.issued_at == json_u64(json_get(p, "iat"@)).unwrap() * NANOS_PER_SEC
    &&& t.expires_at == json_u64(json_get(p, "exp"@)).unwrap() * NANOS_PER_SEC
    &&& exists|roles: Seq<Seq<char>>, permissions: Seq<Seq<char>>| {
        &&& no_duplicates(roles) && roles.to_set() == claim_set(p, "roles"@)
        &&& no_duplicates(permissions) && permissions.to_set() == claim_set(p, "permissions"@)
        &&& metadata_matches(
            t.metadata,
            match json_str(json_get(p, "username"@)) { Some(u) => u, None => Seq::empty() },
            roles,
            permissions,
            json_str(json_get(p, "tenant_id"@)),
            json_str(json_get(p, "jti"@)),
            json_str(json_get(p, "fid"@)),
        )
    }
}

/// Simple JWT token generator using HMAC-SHA256.
#[derive(Debug)]
pub struct SimpleJWTGenerator {
    secret: Vec<u8>,
    issuer: Option<String>,
    audience: Option<String>,
    key_id: Option<String>,
    expected_issuer: Option<String>,
    expected_audience: Option<String>,
    allowed_algorithms: Vec<String>,
    storage: InMemoryStorage,
}

impl SimpleJWTGenerator {
    #[verifier::type_invariant]
    spec fn key_fits(self) -> bool {
        within_input_limit(self.secret@.len() as int)
    }

    /// The signing key.
    pub closed spec fn key(&self) -> Seq<u8> {
        self.secret@
    }

    /// The issuer written into new tokens.
    pub closed spec fn issuer_claim(&self) -> Option<Seq<char>> {
        opt_view(self.issuer)
    }

    /// The audience written into new tokens.
    pub closed spec fn audience_claim(&self) -> Option<Seq<char>> {
        opt_view(self.audience)
    }

    /// The key id written into new headers and required of checked ones.
    pub closed spec fn key_id_claim(&self) -> Option<Seq<char>> {
        opt_view(self.key_id)
    }

    /// The issuer required of checked tokens.
    pub closed spec fn required_issuer(&self) -> Option<Seq<char>> {
        opt_view(self.expected_issuer)
    }

    /// The audience required of checked tokens.
    pub closed spec fn required_audience(&self) -> Option<Seq<char>> {
        opt_view(self.expected_audience)
    }

    /// The algorithms accepted in checked headers.
    pub closed spec fn algorithms(&self) -> Seq<Seq<char>> {
        string_views(self.allowed_algorithms@)
    }

    /// The revocation records.
    pub closed spec fn stored(&self) -> Map<Seq<char>, Seq<char>> {
        self.storage.contents()
    }

    /// How a token value fares against this generator at `now`.
    pub open spec fn check(&self, value: Seq<char>, now: u128) -> JwtCheck {
        jwt_check(self.key(), self.algorithms(), self.key_id_claim(), self.required_issuer(), self.required_audience(), value, now)
    }

    /// A generator signing with `secret`, allowing only HS256, with no issuer,
    /// audience or key id, and empty in-memory storage.
    pub fn new(secret: &str) -> (r: SimpleJWTGenerator)
        requires
            within_input_limit(utf8(secret@).len() as int),
        ensures
            r.key() == utf8(secret@),
            r.issuer_claim() is None && r.audience_claim() is None && r.key_id_claim() is None,
            r.required_issuer() is None && r.required_audience() is None,
            r.algorithms() == seq!["HS256"@],
            r.stored() == Map::<Seq<char>, Seq<char>>::empty(),
    {
        let mut algs: Vec<String> = Vec::new();
        algs.push(String::from_str("HS256"));
        let r = SimpleJWTGenerator {
            secret: vstd::slice::slice_to_vec(secret.as_bytes()),
            issuer: None,
            audience: None,
            key_id: None,
            expected_issuer: None,
            expected_audience: None,
            allowed_algorithms: algs,
            storage: InMemoryStorage::new(),
        };
        assert(r.algorithms() =~= seq!["HS256"@]);
        r
    }

    /// The same generator keeping its revocation records in `storage`.
    pub fn with_storage(self, storage: InMemoryStorage) -> (r: SimpleJWTGenerator)
        ensures
            r.stored() == storage.contents(),
            r.key() == self.key() && r.algorithms() == self.algorithms(),
            r.issuer_claim() == self.issuer_claim() && r.audience_claim() == self.audience_claim(),
            r.key_id_claim() == self.key_id_claim(),
            r.required_issuer() == self.required_issuer() && r.required_audience() == self.required_audience(),
    {
        proof { use_type_invariant(&self); }
        SimpleJWTGenerator { storage, ..self }
    }

    /// The same generator writing `issuer` into new tokens.
    pub fn with_issuer(self, issuer: &str) -> (r: SimpleJWTGenerator)
        ensures
            r.issuer_claim() == Some(issuer@),
            r.stored() == self.stored(),
            r.key() == self.key() && r.algorithms() == self.algorithms(),
            r.audience_claim() == self.audience_claim(),
            r.key_id_claim() == self.key_id_claim(),
            r.required_issuer() == self.required_issuer() && r.required_audience() == self.required_audience(),
    {
        proof { use_type_invariant(&self); }
        SimpleJWTGenerator { issuer: Some(issuer.to_owned()), ..self }
    }

    /// The same generator writing `audience` into new tokens.
    pub fn with_audience(self, audience: &str) -> (r: SimpleJWTGenerator)
        ensures
            r.audience_claim() == Some(audience@),
            r.stored() == self.stored(),
            r.key() == self.key() && r.algorithms() == self.algorithms(),
            r.issuer_claim() == self.issuer_claim(),
            r.key_id_claim() == self.key_id_claim(),
            r.required_issuer() == self.required_issuer() && r.required_audience() == self.required_audience(),
    {
        proof { use_type_invariant(&self); }
        SimpleJWTGenerator { audience: Some(audience.to_owned()), ..self }
    }

    /// The same generator naming `key_id` in new headers and requiring it of
    /// checked ones.
    pub fn with_key_id(self, key_id: &str) -> (r: SimpleJWTGenerator)
        ensures
            r.key_id_claim() == Some(key_id@),
            r.stored() == self.stored(),
            r.key() == self.key() && r.algorithms() == self.algorithms(),
            r.issuer_claim() == self.issuer_claim() && r.audience_claim() == self.audience_claim(),
            r.required_issuer() == self.required_issuer() && r.required_audience() == self.required_audience(),
    {
        proof { use_type_invariant(&self); }
        SimpleJWTGenerator { key_id: Some(key_id.to_owned()), ..self }
    }

    /// The same generator requiring `issuer` of checked tokens.
    pub fn with_expected_issuer(self, issuer: &str) -> (r: SimpleJWTGenerator)
        ensures
            r.required_issuer() == Some(issuer@),
            r.stored() == self.stored(),
            r.key() == self.key() && r.algorithms() == self.algorithms(),
            r.issuer_claim() == self.issuer_claim() && r.audience_claim() == self.audience_claim(),
            r.key_id_claim() == self.key_id_claim(),
            r.required_audience() == self.required_audience(),
    {
        proof { use_type_invariant(&self); }
        SimpleJWTGenerator { expected_issuer: Some(issuer.to_owned()), ..self }
    }

    /// The same generator requiring `audience` of checked tokens.
    pub fn with_expected_audience(self, audience: &str) -> (r: SimpleJWTGenerator)
        ensures
            r.required_audience() == Some(audience@),
            r.stored() == self.stored(),
            r.key() == self.key() && r.algorithms() == self.algorithms(),
            r.issuer_claim() == self.issuer_claim() && r.audience_claim() == self.audience_claim(),
            r.key_id_claim() == self.key_id_claim(),
            r.required_issuer() == self.required_issuer(),
    {
        proof { use_type_invariant(&self); }
        SimpleJWTGenerator { expected_audience: Some(audience.to_owned()), ..self }
    }

    /// The same generator accepting exactly the given algorithms.
    pub fn with_allowed_algorithms(self, algorithms: Vec<String>) -> (r: SimpleJWTGenerator)
        ensures
            r.algorithms() == string_views(algorithms@),
            r.stored() == self.stored(),
            r.key() == self.key(),
            r.issuer_claim() == self.issuer_claim() && r.audience_claim() == self.audience_claim(),
            r.key_id_claim() == self.key_id_claim(),
            r.required_issuer() == self.required_issuer() && r.required_audience() == self.required_audience(),
    {
        proof { use_type_invariant(&self); }
        SimpleJWTGenerator { allowed_algorithms: algorithms, ..self }
    }
}

/// The header and claims texts, and the signing input, are short enough to
/// encode and sign.
pub open spec fn jwt_fits(h: JsonValue, p: JsonValue) -> bool {
    &&& within_input_limit(json_text(h).len() as int)
    &&& within_input_limit(json_text(p).len() as int)
    &&& within_input_limit(utf8(base64_url(json_text(h)) + seq!['.'] + base64_url(json_text(p))).len() as int)
}

/// A token header naming the key id, if given.
fn jwt_header(key_id: Option<&String>) -> (h: JsonValue)
    ensures
        jwt_header_matches(h, match key_id { Some(k) => Some(k@), None => None }),
        json_canonical(h),
{
    proof { lemma_jwt_key_order(); }
    let mut m: StringMap<JsonValue> = StringMap::new();
    push_field(&mut m, "alg", JsonValue::Str(String::from_str("HS256")), Ghost(Seq::<char>::empty()));
    match key_id {
        Some(k) => push_field(&mut m, "kid", JsonValue::Str(k.clone()), Ghost("alg"@)),
        None => proof { lemma_keys_le_weaken(m.keys(), "alg"@, "kid"@); },
    }
    push_field(&mut m, "typ", JsonValue::Str(String::from_str("JWT")), Ghost("kid"@));
    proof {
        reveal_strlit("alg");
        reveal_strlit("kid");
        reveal_strlit("typ");
        assert("alg"@[0] != "kid"@[0] && "alg"@[0] != "typ"@[0] && "kid"@[0] != "typ"@[0]);
        if key_id is Some {
            assert(m.to_map().dom() =~= set!["alg"@, "kid"@, "typ"@]);
        } else {
            assert(m.to_map().dom() =~= set!["alg"@, "typ"@]);
        }
        crate::json::lemma_flat_object_canonical(m);
    }
    JsonValue::Object(m)
}

proof fn lemma_claim_keys_distinct()
    ensures
        "aud"@ != "exp"@ && "aud"@ != "fid"@ && "aud"@ != "iat"@ && "aud"@ != "iss"@ && "aud"@ != "jti"@,
        "aud"@ != "permissions"@ && "aud"@ != "roles"@ && "aud"@ != "tenant_id"@ && "aud"@ != "token_type"@,
        "aud"@ != "user_id"@ && "aud"@ != "username"@,
        "exp"@ != "fid"@ && "exp"@ != "iat"@ && "exp"@ != "iss"@ && "exp"@ != "jti"@ && "exp"@ != "permissions"@,
        "exp"@ != "roles"@ && "exp"@ != "tenant_id"@ && "exp"@ != "token_type"@ && "exp"@ != "user_id"@ && "exp"@ != "username"@,
        "fid"@ != "iat"@ && "fid"@ != "iss"@ && "fid"@ != "jti"@ && "fid"@ != "permissions"@ && "fid"@ != "roles"@,
        "fid"@ != "tenant_id"@ && "fid"@ != "token_type"@ && "fid"@ != "user_id"@ && "fid"@ != "username"@,
        "iat"@ != "iss"@ && "iat"@ != "jti"@ && "iat"@ != "permissions"@ && "iat"@ != "roles"@ && "iat"@ != "tenant_id"@,
        "iat"@ != "token_type"@ && "iat"@ != "user_id"@ && "iat"@ != "username"@,
        "iss"@ != "jti"@ && "iss"@ != "permissions"@ && "iss"@ != "roles"@ && "iss"@ != "tenant_id"@,
        "iss"@ != "token_type"@ && "iss"@ != "user_id"@ && "iss"@ != "username"@,
        "jti"@ != "permissions"@ && "jti"@ != "roles"@ && "jti"@ != "tenant_id"@ && "jti"@ != "token_type"@,
        "jti"@ != "user_id"@ && "jti"@ != "username"@,
        "permissions"@ != "roles"@ && "permissions"@ != "tenant_id"@ && "permissions"@ != "token_type"@,
        "permissions"@ != "user_id"@ && "permissions"@ != "username"@,
        "roles"@ != "tenant_id"@ && "roles"@ != "token_type"@ && "roles"@ != "user_id"@ && "roles"@ != "username"@,
        "tenant_id"@ != "token_type"@ && "tenant_id"@ != "user_id"@ && "tenant_id"@ != "username"@,
        "token_type"@ != "user_id"@ && "token_type"@ != "username"@,
        "user_id"@ != "username"@,
{
    lemma_jwt_key_order();
    let ks = seq!["aud"@, "exp"@, "fid"@, "iat"@, "iss"@, "jti"@, "permissions"@, "roles"@, "tenant_id"@,
        "token_type"@, "user_id"@, "username"@];
    assert forall|i: int, j: int| 0 <= i < j < 12 implies seq_char_lt(#[trigger] ks[i], #[trigger] ks[j]) by {
        lemma_chain_lt(ks, i, j);
    }
    assert forall|i: int, j: int| 0 <= i < j < 12 implies ks[i] != ks[j] by {
        crate::json::lemma_char_lt_irreflexive_pub(ks[i]);
        assert(seq_char_lt(ks[i], ks[j]));
    }
}

proof fn lemma_chain_lt(ks: Seq<Seq<char>>, i: int, j: int)
    requires
        0 <= i < j < ks.len(),
        forall|k: int| 0 <= k < ks.len() - 1 ==> seq_char_lt(#[trigger] ks[k], ks[k + 1]),
    ensures
        seq_char_lt(ks[i], ks[j]),
    decreases j - i,
{
    if j > i + 1 {
        lemma_chain_lt(ks, i, j - 1);
        assert(seq_char_lt(ks[j - 1], ks[j]));
        lemma_char_lt_transitive(ks[i], ks[j - 1], ks[j]);
    }
}

/// The claims of a token.
#[verifier::rlimit(60)]
fn jwt_claims(
    user: &User,
    iat: u64,
    exp: u64,
    jti: &String,
    token_type: TokenType,
    issuer: Option<&String>,
    audience: Option<&String>,
    family_id: Option<&str>,
) -> (p: JsonValue)
    ensures
        jwt_claims_match(p, user, iat, exp, jti@, token_type,
            match issuer { Some(i) => Some(i@), None => None },
            match audience { Some(a) => Some(a@), None => None },
            opt_str_view(family_id)),
        json_canonical(p),
{
    proof { lemma_jwt_key_order(); lemma_claim_keys_distinct(); }
    let mut m: StringMap<JsonValue> = StringMap::new();
    match audience {
        Some(a) => push_field(&mut m, "aud", JsonValue::Str(a.clone()), Ghost(Seq::<char>::empty())),
        None => {},
    }
    push_field(&mut m, "exp", JsonValue::UInt(exp), Ghost("aud"@));
    match family_id {
        Some(f) => push_field(&mut m, "fid", JsonValue::Str(f.to_owned()), Ghost("exp"@)),
        None => proof { lemma_keys_le_weaken(m.keys(), "exp"@, "fid"@); },
    }
    push_field(&mut m, "iat", JsonValue::UInt(iat), Ghost("fid"@));
    match issuer {
        Some(i) => push_field(&mut m, "iss", JsonValue::Str(i.clone()), Ghost("iat"@)),
        None => proof { lemma_keys_le_weaken(m.keys(), "iat"@, "iss"@); },
    }
    push_field(&mut m, "jti", JsonValue::Str(jti.clone()), Ghost("iss"@));
    let perms = JsonValue::from_string_set(&user.permissions);
    let ghost perms_v = perms;
    push_field(&mut m, "permissions", perms, Ghost("jti"@));
    let roles = JsonValue::from_string_set(&user.roles);
    let ghost roles_v = roles;
    push_field(&mut m, "roles", roles, Ghost("permissions"@));
    let tenant = match &user.tenant_id {
        Some(t) => JsonValue::Str(t.clone()),
        None => JsonValue::Null,
    };
    push_field(&mut m, "tenant_id", tenant, Ghost("roles"@));
    push_field(&mut m, "token_type", JsonValue::Str(String::from_str(token_type_str(token_type))), Ghost("tenant_id"@));
    push_field(&mut m, "user_id", JsonValue::Str(user.id.clone()), Ghost("token_type"@));
    push_field(&mut m, "username", JsonValue::Str(user.username.clone()), Ghost("user_id"@));
    proof {
        assert(m.to_map().dom() =~= claim_keys(audience is Some, family_id is Some, issuer is Some));
        assert(is_string_array(m.to_map()["roles"@], user.roles.elems()));
        assert(is_string_array(m.to_map()["permissions"@], user.permissions.elems()));
        assert forall|k: Seq<char>| #![auto] m.to_map().dom().contains(k) implies {
            let x = m.to_map()[k];
            x is Null || x is Bool || x is UInt || x is Str || exists|s: Seq<Seq<char>>| is_string_array(x, s)
        } by {
            if k == "roles"@ {
                assert(is_string_array(m.to_map()[k], user.roles.elems()));
            } else if k == "permissions"@ {
                assert(is_string_array(m.to_map()[k], user.permissions.elems()));
            }
        }
        crate::json::lemma_flat_object_canonical(m);
    }
    JsonValue::Object(m)
}

/// `t` is a token that `g` issued for `user` of the given type and refresh
/// family, to live `expires_in` seconds from its issue: its value is the
/// signed compact form of a header and claims for the user, with some token
/// id, that read back.
pub open spec fn jwt_issued(
    g: SimpleJWTGenerator,
    user: User,
    expires_in: i64,
    token_type: TokenType,
    family_id: Option<Seq<char>>,
    t: Token,
) -> bool {
    &&& exists|h: JsonValue, p: JsonValue, jti: Seq<char>| {
        &&& jwt_header_matches(h, g.key_id_claim()) && json_canonical(h)
        &&& jwt_claims_match(p, &user, secs_of(t.issued_at), secs_of(t.expires_at), jti, token_type,
            g.issuer_claim(), g.audience_claim(), family_id)
        &&& json_canonical(p)
        &&& jwt_fits(h, p)
        &&& jwt_reads_back(g.key(), h, p)
        &&& t.value@ == jwt_compact(g.key(), h, p)
        &&& metadata_matches(t.metadata, user.username@, user.roles.elems(), user.permissions.elems(),
            opt_view(user.tenant_id), Some(jti), family_id)
    }
    &&& t.token_type == token_type
    &&& t.user_id@ == user.id@
    &&& t.issued_at <= MAX_INSTANT
    &&& representable(expiry_after(t.issued_at, expires_in))
    &&& t.expires_at == expiry_after(t.issued_at, expires_in)
}

impl SimpleJWTGenerator {
    /// Issues a token for `user` with token id `jti` at instant `now`.
    pub fn generate_jwt_at(
        &self,
        user: &User,
        expires_in: i64,
        token_type: TokenType,
        family_id: Option<&str>,
        now: u128,
        jti: String,
    ) -> (r: Result<Token, AuthError>)
        requires
            now <= MAX_INSTANT,
        ensures
            match r {
                Ok(t) => {
                    &&& representable(expiry_after(now, expires_in))
                    &&& exists|h: JsonValue, p: JsonValue| {
                        &&& jwt_header_matches(h, self.key_id_claim()) && json_canonical(h)
                        &&& jwt_claims_match(p, user, secs_of(now), secs_of(t.expires_at), jti@, token_type,
                            self.issuer_claim(), self.audience_claim(), opt_str_view(family_id))
                        &&& json_canonical(p)
                        &&& jwt_fits(h, p)
                        &&& jwt_reads_back(self.key(), h, p)
                        &&& t.value@ == jwt_compact(self.key(), h, p)
                    }
                    &&& t.token_type == token_type
                    &&& t.user_id@ == user.id@
                    &&& t.issued_at == now
                    &&& t.expires_at == expiry_after(now, expires_in)
                    &&& metadata_matches(t.metadata, user.username@, user.roles.elems(), user.permissions.elems(),
                        opt_view(user.tenant_id), Some(jti@), opt_str_view(family_id))
                },
                Err(e) => {
                    ||| e is TimeError && !representable(expiry_after(now, expires_in))
                    ||| e is Crypto && representable(expiry_after(now, expires_in)) && exists|h: JsonValue, p: JsonValue| {
                        &&& jwt_header_matches(h, self.key_id_claim())
                        &&& jwt_claims_match(p, user, secs_of(now), secs_of(expiry_after(now, expires_in) as u128), jti@,
                            token_type, self.issuer_claim(), self.audience_claim(), opt_str_view(family_id))
                        &&& !jwt_fits(h, p)
                    }
                },
            },
    {
        proof { use_type_invariant(self); }
        let expires_at = expiry_instant(now, expires_in)?;
        let iat = whole_secs(now);
        let exp = whole_secs(expires_at);
        let header = jwt_header(self.key_id.as_ref());
        let claims = jwt_claims(user, iat, exp, &jti, token_type, self.issuer.as_ref(), self.audience.as_ref(), family_id);
        let ghost hv = header;
        let ghost pv = claims;
        let header_text = match write_json(&header) {
            Ok(s) => s,
            Err(e) => return Err(AuthError::Serialization(e.to_string())),
        };
        let claims_text = match write_json(&claims) {
            Ok(s) => s,
            Err(e) => return Err(AuthError::Serialization(e.to_string())),
        };
        let header_bytes = header_text.as_str().as_bytes();
        let claims_bytes = claims_text.as_str().as_bytes();
        assert(header_bytes@ == json_text(hv));
        assert(claims_bytes@ == json_text(pv));
        assert(expires_at == expiry_after(now, expires_in) as u128);
        if !input_len_ok(header_bytes.len()) || !input_len_ok(claims_bytes.len()) {
            assert(!jwt_fits(hv, pv));
            return Err(AuthError::Crypto(String::from_str("input too long")));
        }
        let header_b64 = encode_base64_url(header_bytes);
        let claims_b64 = encode_base64_url(claims_bytes);
        proof {
            lemma_url_text_dot_free(header_b64@);
            lemma_url_text_dot_free(claims_b64@);
        }
        let message = concat3(header_b64.as_str(), ".", claims_b64.as_str());
        let message_bytes = message.as_str().as_bytes();
        proof {
            reveal_strlit(".");
            assert(message@ =~= base64_url(json_text(hv)) + seq!['.'] + base64_url(json_text(pv)));
        }
        if !input_len_ok(message_bytes.len()) {
            assert(!jwt_fits(hv, pv));
            return Err(AuthError::Crypto(String::from_str("input too long")));
        }
        let signature = hmac_sign(self.secret.as_slice(), message_bytes);
        let signature_b64 = encode_base64_url(signature.as_slice());
        proof { lemma_url_text_dot_free(signature_b64@); }
        let value = concat3(message.as_str(), ".", signature_b64.as_str());
        assert(value@ =~= jwt_compact(self.key(), hv, pv));
        let tenant = match &user.tenant_id {
            Some(x) => Some(x),
            None => None,
        };
        let metadata = token_metadata(&user.username, &user.roles, &user.permissions, tenant, Some(&jti), family_id);
        proof {
            assert(jwt_fits(hv, pv));
            assert(jwt_reads_back(self.key(), hv, pv));
            assert(jwt_header_matches(hv, self.key_id_claim()) && json_canonical(hv));
            assert(jwt_claims_match(pv, user, secs_of(now), secs_of(expires_at), jti@, token_type,
                self.issuer_claim(), self.audience_claim(), opt_str_view(family_id)));
        }
        Ok(Token { value, token_type, user_id: user.id.clone(), expires_at, issued_at: now, metadata })
    }

    /// Issues a token with a fresh random token id at the current time.
    fn generate_jwt(
        &self,
        user: &User,
        expires_in: i64,
        token_type: TokenType,
        family_id: Option<&str>,
    ) -> (r: Result<Token, AuthError>)
        ensures
            match r {
                Ok(t) => jwt_issued(*self, *user, expires_in, token_type, opt_str_view(family_id), t),
                Err(e) => e is TimeError || e is Crypto || e is Serialization,
            },
    {
        let jti = random_id(16)?;
        let now = match current_time() {
            Some(t) => t,
            None => return Err(AuthError::TimeError),
        };
        if now > MAX_INSTANT {
            return Err(AuthError::TimeError);
        }
        let ghost j = jti@;
        let r = self.generate_jwt_at(user, expires_in, token_type, family_id, now, jti);
        proof {
            if let Ok(t) = &r {
                let (h, p) = choose|h: JsonValue, p: JsonValue| {
                    &&& jwt_header_matches(h, self.key_id_claim()) && json_canonical(h)
                    &&& jwt_claims_match(p, user, secs_of(now), secs_of(t.expires_at), j, token_type,
                        self.issuer_claim(), self.audience_claim(), opt_str_view(family_id))
                    &&& json_canonical(p)
                    &&& jwt_fits(h, p)
                    &&& jwt_reads_back(self.key(), h, p)
                    &&& t.value@ == jwt_compact(self.key(), h, p)
                };
                assert(metadata_matches(t.metadata, user.username@, user.roles.elems(), user.permissions.elems(),
                    opt_view(user.tenant_id), Some(j), opt_str_view(family_id)));
            }
        }
        r
    }
}

/// Decodes URL-safe base64 text and reads the JSON document it holds.
pub(crate) fn decode_json_part(text: &str) -> (r: Option<JsonValue>)
    ensures
        r == decoded_json(text@),
{
    match decode_base64_url(text) {
        Ok(bytes) => match parse_json(bytes.as_slice()) {
            Ok(v) => Some(v),
            Err(_) => None,
        },
        Err(_) => None,
    }
}

/// The string under `key` in `doc`, if there is one.
pub(crate) fn str_claim(doc: &JsonValue, key: &str) -> (r: Option<String>)
    ensures
        opt_view(r) == json_str(json_get(*doc, key@)),
{
    match doc.get(key) {
        Some(v) => match v.as_str() {
            Some(s) => Some(s.clone()),
            None => None,
        },
        None => None,
    }
}

/// The number under `key` in `doc`, if it is a non-negative integer.
pub(crate) fn u64_claim(doc: &JsonValue, key: &str) -> (r: Option<u64>)
    ensures
        r == json_u64(json_get(*doc, key@)),
{
    match doc.get(key) {
        Some(v) => v.as_u64(),
        None => None,
    }
}

/// The distinct string items of the array under `key` in `doc`.
pub(crate) fn set_claim(doc: &JsonValue, key: &str) -> (r: StringSet)
    ensures
        r.members() == claim_set(*doc, key@),
        no_duplicates(r.elems()),
{
    let items = match doc.get(key) {
        Some(v) => match v.string_items() {
            Some(items) => items,
            None => Vec::new(),
        },
        None => Vec::new(),
    };
    let ghost iv = items@;
    let r = StringSet::from_vec(items);
    proof {
        if json_strings(json_get(*doc, key@)) is None {
            assert(string_views(iv) =~= Seq::<Seq<char>>::empty());
            assert(r.members() =~= Set::<Seq<char>>::empty());
        }
    }
    r
}

impl SimpleJWTGenerator {
    /// Whether `alg` is among the allowed algorithms.
    fn allows(&self, alg: &String) -> (r: bool)
        ensures
            r == self.algorithms().contains(alg@),
    {
        let mut i: usize = 0;
        while i < self.allowed_algorithms.len()
            invariant
                i <= self.allowed_algorithms@.len(),
                forall|j: int| 0 <= j < i ==> self.algorithms()[j] != alg@,
            decreases self.allowed_algorithms@.len() - i,
        {
            if self.allowed_algorithms[i] == *alg {
                assert(self.algorithms()[i as int] == alg@);
                return true;
            }
            i += 1;
        }
        proof {
            if self.algorithms().contains(alg@) {
                let j = choose|j: int| 0 <= j < self.algorithms().len() && self.algorithms()[j] == alg@;
                assert(self.algorithms()[j] != alg@);
            }
        }
        false
    }

    /// Checks a parsed header: an invalid token error when it names no
    /// algorithm; otherwise whether the algorithm is allowed and, when this
    /// generator has a key id, the header names that key id.
    pub fn header_accepted(&self, header: &JsonValue) -> (r: Result<bool, AuthError>)
        ensures
            match json_str(json_get(*header, "alg"@)) {
                None => r matches Err(AuthError::InvalidToken),
                Some(alg) => r == Ok::<bool, AuthError>(self.algorithms().contains(alg)
                    && !(self.key_id_claim() matches Some(k) && header_key_id(*header) != k)),
            },
    {
        let alg = match str_claim(header, "alg") {
            Some(a) => a,
            None => return Err(AuthError::InvalidToken),
        };
        if !self.allows(&alg) {
            return Ok(false);
        }
        match &self.key_id {
            Some(expected) => {
                let kid = match str_claim(header, "kid") {
                    Some(k) => k,
                    None => String::new(),
                };
                if !(kid == *expected) {
                    return Ok(false);
                }
            },
            None => {},
        }
        Ok(true)
    }

    /// Checks the claims `p` of a value whose header and signature passed, at
    /// instant `now`: expected issuer and audience, token id, user id, issue
    /// time and expiry; see [`jwt_check`].
    pub fn token_from_claims_doc(&self, token_value: &str, p: JsonValue, now: u128) -> (r: Result<Option<Token>, AuthError>)
        ensures
            self.required_issuer() matches Some(i) && json_str(json_get(p, "iss"@)) != Some(i) ==> r matches Ok(None),
            !(self.required_issuer() matches Some(i) && json_str(json_get(p, "iss"@)) != Some(i)) ==> {
                if self.required_audience() matches Some(a) && json_str(json_get(p, "aud"@)) != Some(a) {
                    r matches Ok(None)
                } else if json_str(json_get(p, "jti"@)) is None {
                    r matches Ok(None)
                } else if json_str(json_get(p, "user_id"@)) is None {
                    r matches Err(AuthError::MissingField(f)) && f@ == "user_id"@
                } else if json_u64(json_get(p, "iat"@)) is None {
                    r matches Err(AuthError::MissingField(f)) && f@ == "iat"@
                } else if json_u64(json_get(p, "exp"@)) is None {
                    r matches Err(AuthError::MissingField(f)) && f@ == "exp"@
                } else if !secs_representable(json_u64(json_get(p, "iat"@)).unwrap())
                    || !secs_representable(json_u64(json_get(p, "exp"@)).unwrap()) {
                    r matches Err(AuthError::TimeError)
                } else if now > json_u64(json_get(p, "exp"@)).unwrap() * NANOS_PER_SEC {
                    r matches Ok(None)
                } else {
                    r matches Ok(Some(t)) && token_from_claims(t, token_value@, p)
                }
            },
    {
        match &self.expected_issuer {
            Some(expected) => match str_claim(&p, "iss") {
                Some(iss) => if !(iss == *expected) { return Ok(None); },
                None => return Ok(None),
            },
            None => {},
        }
        match &self.expected_audience {
            Some(expected) => match str_claim(&p, "aud") {
                Some(aud) => if !(aud == *expected) { return Ok(None); },
                None => return Ok(None),
            },
            None => {},
        }
        let jti = match str_claim(&p, "jti") {
            Some(j) => j,
            None => return Ok(None),
        };
        let token_type = match str_claim(&p, "token_type") {
            Some(name) => if str_eq(name.as_str(), "Refresh") { TokenType::Refresh } else { TokenType::JWT },
            None => TokenType::JWT,
        };
        let user_id = match str_claim(&p, "user_id") {
            Some(u) => u,
            None => return Err(AuthError::MissingField(String::from_str("user_id"))),
        };
        let username = match str_claim(&p, "username") {
            Some(u) => u,
            None => String::new(),
        };
        let tenant_id = str_claim(&p, "tenant_id");
        let family_id = str_claim(&p, "fid");
        let roles = set_claim(&p, "roles");
        let permissions = set_claim(&p, "permissions");
        let iat = match u64_claim(&p, "iat") {
            Some(n) => n,
            None => return Err(AuthError::MissingField(String::from_str("iat"))),
        };
        let exp = match u64_claim(&p, "exp") {
            Some(n) => n,
            None => return Err(AuthError::MissingField(String::from_str("exp"))),
        };
        if iat > 9_223_372_036_854_775_807u64 || exp > 9_223_372_036_854_775_807u64 {
            return Err(AuthError::TimeError);
        }
        let issued_at = iat as u128 * NANOS_PER_SEC;
        let expires_at = exp as u128 * NANOS_PER_SEC;
        if now > expires_at {
            return Ok(None);
        }
        let fid = match &family_id {
            Some(f) => Some(f.as_str()),
            None => None,
        };
        let metadata = token_metadata(&username, &roles, &permissions, tenant_id.as_ref(), Some(&jti), fid);
        let t = Token { value: token_value.to_owned(), token_type, user_id, expires_at, issued_at, metadata };
        proof {
            reveal_strlit("Refresh");
            assert(metadata_matches(t.metadata, username@, roles.elems(), permissions.elems(),
                json_str(json_get(p, "tenant_id"@)), json_str(json_get(p, "jti"@)), json_str(json_get(p, "fid"@))));
            assert(roles.elems().to_set() == claim_set(p, "roles"@));
        }
        Ok(Some(t))
    }

    /// Checks a token value at instant `now`: header, signature over
    /// `header.claims`, then claims; see [`jwt_check`].
    pub fn verify_at(&self, token_value: &str, now: u128) -> (r: Result<Option<Token>, AuthError>)
        ensures
            jwt_verify_outcome(self.check(token_value@, now), token_value@, r),
    {
        proof { use_type_invariant(self); }
        let parts = split_char(token_value, '.');
        if parts.len() != 3 {
            return Ok(None);
        }
        assert(string_views(parts@)[0] == parts@[0]@);
        assert(string_views(parts@)[1] == parts@[1]@);
        assert(string_views(parts@)[2] == parts@[2]@);
        let header = match decode_json_part(parts[0].as_str()) {
            Some(h) => h,
            None => return Ok(None),
        };
        match self.header_accepted(&header) {
            Ok(true) => {},
            Ok(false) => return Ok(None),
            Err(e) => return Err(e),
        }
        let message = concat3(parts[0].as_str(), ".", parts[1].as_str());
        proof {
            reveal_strlit(".");
            assert(message@ =~= parts@[0]@ + seq!['.'] + parts@[1]@);
        }
        let signature = match decode_base64_url(parts[2].as_str()) {
            Ok(s) => s,
            Err(_) => return Ok(None),
        };
        let message_bytes = message.as_str().as_bytes();
        if !input_len_ok(message_bytes.len()) {
            return Ok(None);
        }
        if !hmac_check(self.secret.as_slice(), message_bytes, signature.as_slice()) {
            return Ok(None);
        }
        let claims = match decode_json_part(parts[1].as_str()) {
            Some(p) => p,
            None => return Ok(None),
        };
        self.token_from_claims_doc(token_value, claims, now)
    }
    /// The refresh family named in the claims of `token_value`, if any.
    fn extract_family_id(&self, token_value: &str) -> (r: Option<String>)
        ensures
            opt_view(r) == jwt_family(token_value@),
    {
        let parts = split_char(token_value, '.');
        if parts.len() != 3 {
            return None;
        }
        assert(string_views(parts@)[1] == parts@[1]@);
        match decode_json_part(parts[1].as_str()) {
            Some(p) => str_claim(&p, "fid"),
            None => None,
        }
    }

    /// Drops the active-token entry of `family_id` and every stored refresh
    /// token of the family.
    fn revoke_family(&mut self, family_id: &str)
        ensures
            final(self).stored() == without_family_tokens(old(self).stored().remove(refresh_family_key(family_id@)), family_id@),
            final(self).key() == old(self).key() && final(self).algorithms() == old(self).algorithms(),
            final(self).issuer_claim() == old(self).issuer_claim() && final(self).audience_claim() == old(self).audience_claim(),
            final(self).key_id_claim() == old(self).key_id_claim(),
            final(self).required_issuer() == old(self).required_issuer(),
            final(self).required_audience() == old(self).required_audience(),
    {
        proof { use_type_invariant(&*self); }
        let mut storage = InMemoryStorage::new();
        std::mem::swap(&mut storage, &mut self.storage);
        storage.delete(storage_refresh_family_key(family_id).as_str());
        crate::opaque::remove_family_tokens(&mut storage, family_id);
        std::mem::swap(&mut storage, &mut self.storage);
    }

    /// The value stored under `key`.
    pub fn storage_get(&self, key: &str) -> (r: Option<String>)
        ensures
            match r {
                Some(v) => self.stored().dom().contains(key@) && v@ == self.stored()[key@],
                None => !self.stored().dom().contains(key@),
            },
    {
        self.storage.get(key)
    }

    /// Stores `value` under `key`.
    pub fn storage_set(&mut self, key: &str, value: String)
        ensures
            final(self).stored() == old(self).stored().insert(key@, value@),
            final(self).key() == old(self).key() && final(self).algorithms() == old(self).algorithms(),
            final(self).issuer_claim() == old(self).issuer_claim() && final(self).audience_claim() == old(self).audience_claim(),
            final(self).key_id_claim() == old(self).key_id_claim(),
            final(self).required_issuer() == old(self).required_issuer(),
            final(self).required_audience() == old(self).required_audience(),
    {
        proof { use_type_invariant(&*self); }
        let mut storage = InMemoryStorage::new();
        std::mem::swap(&mut storage, &mut self.storage);
        storage.set(key, value);
        std::mem::swap(&mut storage, &mut self.storage);
    }

    /// Marks `token_value` revoked and, when it names a refresh family,
    /// revokes the family; see [`after_jwt_revoke`].
    pub fn revoke_value(&mut self, token_value: &str)
        ensures
            final(self).stored() == after_jwt_revoke(old(self).stored(), token_value@),
            final(self).key() == old(self).key() && final(self).algorithms() == old(self).algorithms(),
            final(self).issuer_claim() == old(self).issuer_claim() && final(self).audience_claim() == old(self).audience_claim(),
            final(self).key_id_claim() == old(self).key_id_claim(),
            final(self).required_issuer() == old(self).required_issuer(),
            final(self).required_audience() == old(self).required_audience(),
    {
        self.storage_set(storage_revoked_key(token_value).as_str(), String::from_str("revoked"));
        proof { reveal_strlit("revoked"); }
        match self.extract_family_id(token_value) {
            Some(fid) => self.revoke_family(fid.as_str()),
            None => {},
        }
    }
}

impl TokenGenerator for SimpleJWTGenerator {
    /// Issuing leaves the generator as it was and gives a signed JWT of the
    /// user, or a clock, random-source or serialization error.
    open spec fn issues(&self, after: &Self, user: User, expires_in: i64, r: Result<Token, AuthError>) -> bool {
        &&& *after == *self
        &&& match r {
            Ok(t) => jwt_issued(*self, user, expires_in, TokenType::JWT, None, t),
            Err(e) => e is TimeError || e is Crypto || e is Serialization,
        }
    }

    fn generate(&mut self, user: &User, expires_in: i64) -> (r: Result<Token, AuthError>)
        ensures
            *final(self) == *old(self),
            match r {
                Ok(t) => jwt_issued(*old(self), *user, expires_in, TokenType::JWT, None, t),
                Err(e) => e is TimeError || e is Crypto || e is Serialization,
            },
    {
        self.generate_jwt(user, expires_in, TokenType::JWT, None)
    }

    fn generate_refresh(&mut self, user: &User, expires_in: i64, family_id: &str) -> (r: Result<Token, AuthError>)
        ensures
            *final(self) == *old(self),
            match r {
                Ok(t) => jwt_issued(*old(self), *user, expires_in, TokenType::Refresh, Some(family_id@), t),
                Err(e) => e is TimeError || e is Crypto || e is Serialization,
            },
    {
        self.generate_jwt(user, expires_in, TokenType::Refresh, Some(family_id))
    }

    fn verify(&self, token_value: &str) -> (r: Result<Option<Token>, AuthError>)
        ensures
            exists|now: u128| jwt_verify_outcome(#[trigger] self.check(token_value@, now), token_value@, r),
    {
        let now = match current_time() {
            Some(t) => t,
            None => 0,
        };
        self.verify_at(token_value, now)
    }

    fn revoke(&mut self, token_value: &str)
        ensures
            final(self).stored() == after_jwt_revoke(old(self).stored(), token_value@),
            final(self).key() == old(self).key() && final(self).algorithms() == old(self).algorithms(),
            final(self).issuer_claim() == old(self).issuer_claim() && final(self).audience_claim() == old(self).audience_claim(),
            final(self).key_id_claim() == old(self).key_id_claim(),
            final(self).required_issuer() == old(self).required_issuer(),
            final(self).required_audience() == old(self).required_audience(),
    {
        self.revoke_value(token_value)
    }

    fn is_revoked(&self, token_value: &str) -> (r: bool)
        ensures
            r == self.stored().dom().contains(revoked_key(token_value@)),
    {
        self.storage.has(storage_revoked_key(token_value).as_str())
    }
}

} // verus!
