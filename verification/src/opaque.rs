//! Opaque tokens: random values whose meaning is kept in server-side storage.

use vstd::prelude::*;
use crate::collections::StringMap;
use crate::crypto::{base64_url, random_id};
use crate::error::AuthError;
use crate::hasher::utf8;
use crate::json::{JsonValue, json_parse, json_get, json_str, parse_json, write_json, json_canonical};
use crate::model::{Token, TokenType, User};
use crate::storage::{
    InMemoryStorage, StorageBackend, revoked_key, token_key, refresh_token_key, refresh_family_key,
    storage_revoked_key, storage_token_key, storage_refresh_token_key, storage_refresh_family_key,
};
use crate::strings::{has_prefix, opt_view, opt_str_view};
use crate::tokens::{
    TokenGenerator, MAX_INSTANT, expiry_after, expiry_instant, representable, secs_of, whole_secs,
    metadata_matches, token_metadata, token_document, token_doc_matches, token_read, token_from_document,
};
use crate::clock::current_time;

verus! {

/// The storage key of an opaque token of the given type.
pub open spec fn opaque_key(token_type: TokenType, value: Seq<char>) -> Seq<char> {
    match token_type {
        TokenType::Refresh => refresh_token_key(value),
        _ => token_key(value),
    }
}

/// `s` is the stored record of an opaque token with these fields.
pub open spec fn opaque_record(
    s: Seq<char>,
    value: Seq<char>,
    token_type: TokenType,
    user: &User,
    expires_at: u128,
    issued_at: u128,
    family_id: Option<Seq<char>>,
) -> bool {
    exists|doc: JsonValue, m: StringMap<JsonValue>| {
        &&& json_parse(utf8(s)) == Some(doc)
        &&& token_doc_matches(doc, value, token_type, user.id@, secs_of(expires_at), secs_of(issued_at), m)
        &&& metadata_matches(m, user.username@, user.roles.elems(), user.permissions.elems(),
            opt_view(user.tenant_id), None, family_id)
    }
}

/// What reading the stored record `s` under `value` at `now` gives: a
/// serialization error when it is not JSON, else what the record holds.
pub open spec fn stored_read(value: Seq<char>, s: Seq<char>, now: u128, r: Result<Option<Token>, AuthError>) -> bool {
    match json_parse(utf8(s)) {
        None => r matches Err(AuthError::Serialization(_)),
        Some(doc) => token_read(value, doc, now, r),
    }
}

/// The outcome of checking an opaque token value against storage contents
/// `c` at `now`: revoked values are refused; otherwise the stored access or
/// refresh record is read.
pub open spec fn opaque_verify_outcome(
    c: Map<Seq<char>, Seq<char>>,
    value: Seq<char>,
    now: u128,
    r: Result<Option<Token>, AuthError>,
) -> bool {
    if c.dom().contains(revoked_key(value)) {
        r matches Ok(None)
    } else if c.dom().contains(token_key(value)) {
        stored_read(value, c[token_key(value)], now, r)
    } else if c.dom().contains(refresh_token_key(value)) {
        stored_read(value, c[refresh_token_key(value)], now, r)
    } else {
        r matches Ok(None)
    }
}

/// The refresh family named in the metadata of a stored record, if any.
pub open spec fn stored_family(s: Seq<char>) -> Option<Seq<char>> {
    match json_parse(utf8(s)) {
        Some(doc) => match json_get(doc, "metadata"@) {
            Some(meta) => json_str(json_get(meta, "fid"@)),
            None => None,
        },
        None => None,
    }
}

/// `c` without the stored refresh tokens of family `fid`.
pub open spec fn without_family_tokens(c: Map<Seq<char>, Seq<char>>, fid: Seq<char>) -> Map<Seq<char>, Seq<char>> {
    c.restrict(c.dom().filter(|k: Seq<char>| !(has_prefix(k, "refresh:"@) && stored_family(c[k]) == Some(fid))))
}

/// The storage contents after revoking `value` in `c`: the value is marked
/// revoked; if it is a stored refresh token of a family, the family's
/// active-token entry and all stored refresh tokens of the family go; the
/// stored records of the value go.
pub open spec fn after_opaque_revoke(c: Map<Seq<char>, Seq<char>>, value: Seq<char>) -> Map<Seq<char>, Seq<char>> {
    let c1 = c.insert(revoked_key(value), "revoked"@);
    let c2 = if c1.dom().contains(refresh_token_key(value)) {
        let c3 = match stored_family(c1[refresh_token_key(value)]) {
            Some(fid) => without_family_tokens(c1.remove(refresh_family_key(fid)), fid),
            None => c1,
        };
        c3.remove(refresh_token_key(value))
    } else {
        c1
    };
    c2.remove(token_key(value))
}

/// Storage `c2` is `c` after `t` was issued as an opaque token of the given
/// type and refresh family for `user`, to live `expires_in` seconds from its
/// issue: its record is stored under its value and nothing else changes.
pub open spec fn opaque_issued(
    c: Map<Seq<char>, Seq<char>>,
    c2: Map<Seq<char>, Seq<char>>,
    user: User,
    expires_in: i64,
    token_type: TokenType,
    family_id: Option<Seq<char>>,
    t: Token,
) -> bool {
    &&& t.token_type == token_type
    &&& t.user_id@ == user.id@
    &&& t.issued_at <= MAX_INSTANT
    &&& representable(expiry_after(t.issued_at, expires_in))
    &&& t.expires_at == expiry_after(t.issued_at, expires_in)
    &&& metadata_matches(t.metadata, user.username@, user.roles.elems(), user.permissions.elems(),
        opt_view(user.tenant_id), None, family_id)
    &&& c2.dom() == c.dom().insert(opaque_key(token_type, t.value@))
    &&& forall|k: Seq<char>| k != opaque_key(token_type, t.value@) && #[trigger] c.dom().contains(k) ==> c2[k] == c[k]
    &&& opaque_record(c2[opaque_key(token_type, t.value@)], t.value@, token_type, &user, t.expires_at, t.issued_at, family_id)
}

/// Opaque token generator with server-side storage.
#[derive(Debug)]
pub struct OpaqueTokenGenerator {
    storage: InMemoryStorage,
}

impl OpaqueTokenGenerator {
    /// The storage contents.
    pub closed spec fn stored(&self) -> Map<Seq<char>, Seq<char>> {
        self.storage.contents()
    }

    /// A generator with empty in-memory storage.
    pub fn new() -> (r: OpaqueTokenGenerator)
        ensures
            r.stored() == Map::<Seq<char>, Seq<char>>::empty(),
    {
        OpaqueTokenGenerator { storage: InMemoryStorage::new() }
    }

    /// The same generator keeping its records in `storage`.
    pub fn with_storage(self, storage: InMemoryStorage) -> (r: OpaqueTokenGenerator)
        ensures
            r.stored() == storage.contents(),
    {
        OpaqueTokenGenerator { storage }
    }

    /// The value stored under `key`.
    pub fn storage_get(&self, key: &str) -> (r: Option<String>)
        ensures
            match r {
                Some(v) => self.stored().dom().contains(key@) && v@ == self.stored()[key@],
                None => !self.stored().dom().contains(key@),
            },
    {
        self.storage.get(key)
    }

    /// Stores `value` under `key`.
    pub fn storage_set(&mut self, key: &str, value: String)
        ensures
            final(self).stored() == old(self).stored().insert(key@, value@),
    {
        self.storage.set(key, value);
    }

    /// Issues a token with value `token_value` at instant `now` and stores its
    /// record: refresh tokens under `refresh:`, others under `opaque:`.
    pub fn generate_opaque_at(
        &mut self,
        user: &User,
        expires_in: i64,
        token_type: TokenType,
        family_id: Option<&str>,
        now: u128,
        token_value: String,
    ) -> (r: Result<Token, AuthError>)
        requires
            now <= MAX_INSTANT,
        ensures
            match r {
                Ok(t) => {
                    &&& t.value@ == token_value@
                    &&& t.token_type == token_type
                    &&& t.user_id@ == user.id@
                    &&& t.issued_at == now
                    &&& representable(expiry_after(now, expires_in))
                    &&& t.expires_at == expiry_after(now, expires_in)
                    &&& metadata_matches(t.metadata, user.username@, user.roles.elems(), user.permissions.elems(),
                        opt_view(user.tenant_id), None,
                        opt_str_view(family_id))
                    &&& final(self).stored().dom() == old(self).stored().dom().insert(opaque_key(token_type, token_value@))
                    &&& forall|k: Seq<char>| k != opaque_key(token_type, token_value@) && #[trigger] old(self).stored().dom().contains(k)
                        ==> final(self).stored()[k] == old(self).stored()[k]
                    &&& opaque_record(final(self).stored()[opaque_key(token_type, token_value@)], token_value@, token_type,
                        user, t.expires_at, now, opt_str_view(family_id))
                },
                Err(e) => e is TimeError && !representable(expiry_after(now, expires_in))
                    && final(self).stored() == old(self).stored(),
            },
    {
        let expires_at = expiry_instant(now, expires_in)?;
        let tenant = match &user.tenant_id {
            Some(t) => Some(t),
            None => None,
        };
        let metadata = token_metadata(&user.username, &user.roles, &user.permissions, tenant, None, family_id);
        let stored_metadata = token_metadata(&user.username, &user.roles, &user.permissions, tenant, None, family_id);
        let ghost sm = stored_metadata;
        proof {
            crate::tokens::lemma_metadata_canonical(sm, user.username@, user.roles.elems(), user.permissions.elems(),
                opt_view(user.tenant_id), None,
                opt_str_view(family_id));
        }
        let doc = token_document(
            &token_value,
            token_type,
            &user.id,
            whole_secs(expires_at),
            whole_secs(now),
            stored_metadata,
        );
        let ghost d = doc;
        let text = match write_json(&doc) {
            Ok(s) => s,
            Err(e) => {
                return Err(AuthError::Serialization(e.to_string()));
            },
        };
        let key = match token_type {
            TokenType::Refresh => storage_refresh_token_key(token_value.as_str()),
            _ => storage_token_key(token_value.as_str()),
        };
        let ghost text_view = text@;
        self.storage.set(key.as_str(), text);
        proof {
            assert(json_parse(utf8(text_view)) == Some(d));
            assert(self.stored()[opaque_key(token_type, token_value@)] == text_view);
        }
        Ok(Token { value: token_value, token_type, user_id: user.id.clone(), expires_at, issued_at: now, metadata })
    }

    /// Issues a token with a fresh random value at the current time.
    fn generate_opaque(
        &mut self,
        user: &User,
        expires_in: i64,
        token_type: TokenType,
        family_id: Option<&str>,
    ) -> (r: Result<Token, AuthError>)
        ensures
            match r {
                Ok(t) => {
                    &&& t.value@.len() == 43 && exists|b: Seq<u8>| b.len() == 32 && t.value@ == base64_url(b)
                    &&& t.token_type == token_type
                    &&& t.user_id@ == user.id@
                    &&& t.issued_at <= MAX_INSTANT
                    &&& representable(expiry_after(t.issued_at, expires_in))
                    &&& t.expires_at == expiry_after(t.issued_at, expires_in)
                    &&& metadata_matches(t.metadata, user.username@, user.roles.elems(), user.permissions.elems(),
                        opt_view(user.tenant_id), None,
                        opt_str_view(family_id))
                    &&& final(self).stored().dom() == old(self).stored().dom().insert(opaque_key(token_type, t.value@))
                    &&& forall|k: Seq<char>| k != opaque_key(token_type, t.value@) && #[trigger] old(self).stored().dom().contains(k)
                        ==> final(self).stored()[k] == old(self).stored()[k]
                    &&& opaque_record(final(self).stored()[opaque_key(token_type, t.value@)], t.value@, token_type,
                        user, t.expires_at, t.issued_at, opt_str_view(family_id))
                },
                Err(e) => (e is TimeError || e is Crypto) && final(self).stored() == old(self).stored(),
            },
    {
        let token_value = random_id(32)?;
        let now = match current_time() {
            Some(t) => t,
            None => return Err(AuthError::TimeError),
        };
        if now > MAX_INSTANT {
            return Err(AuthError::TimeError);
        }
        self.generate_opaque_at(user, expires_in, token_type, family_id, now, token_value)
    }

    /// Checks a token value against the stored records at instant `now`.
    pub fn verify_at(&self, token_value: &str, now: u128) -> (r: Result<Option<Token>, AuthError>)
        ensures
            opaque_verify_outcome(self.stored(), token_value@, now, r),
    {
        if self.is_revoked(token_value) {
            return Ok(None);
        }
        match self.storage.get(storage_token_key(token_value).as_str()) {
            Some(s) => {
                return token_from_json(token_value, &s, now);
            },
            None => {},
        }
        match self.storage.get(storage_refresh_token_key(token_value).as_str()) {
            Some(s) => token_from_json(token_value, &s, now),
            None => Ok(None),
        }
    }

    /// Revokes `token_value`; see [`after_opaque_revoke`].
    pub fn revoke_value(&mut self, token_value: &str)
        ensures
            final(self).stored() == after_opaque_revoke(old(self).stored(), token_value@),
    {
        let revoked = storage_revoked_key(token_value);
        self.storage.set(revoked.as_str(), String::from_str("revoked"));
        let refresh_key = storage_refresh_token_key(token_value);
        let ghost c1 = self.stored();
        proof { crate::tokens::lemma_revoke_keys_distinct(token_value@); }
        match self.storage.get(refresh_key.as_str()) {
            Some(s) => {
                match family_of_record(&s) {
                    Some(fid) => {
                        self.storage.delete(storage_refresh_family_key(fid.as_str()).as_str());
                        remove_family_tokens(&mut self.storage, fid.as_str());
                    },
                    None => {},
                }
                self.storage.delete(refresh_key.as_str());
            },
            None => {},
        }
        self.storage.delete(storage_token_key(token_value).as_str());
        proof {
            reveal_strlit("revoked");
            assert(self.stored() =~= after_opaque_revoke(old(self).stored(), token_value@));
        }
    }
}

/// Reads the stored record `s` under `value` at `now`.
fn token_from_json(value: &str, s: &String, now: u128) -> (r: Result<Option<Token>, AuthError>)
    ensures
        stored_read(value@, s@, now, r),
{
    match parse_json(s.as_str().as_bytes()) {
        Ok(doc) => token_from_document(value, doc, now),
        Err(e) => Err(AuthError::Serialization(e.to_string())),
    }
}

/// The refresh family named in a stored record, if it names one.
fn family_of_record(s: &String) -> (r: Option<String>)
    ensures
        match r {
            Some(f) => stored_family(s@) == Some(f@),
            None => stored_family(s@) is None,
        },
{
    match parse_json(s.as_str().as_bytes()) {
        Ok(doc) => match doc.get("metadata") {
            Some(meta) => match meta.get("fid") {
                Some(f) => match f.as_str() {
                    Some(x) => Some(x.clone()),
                    None => None,
                },
                None => None,
            },
            None => None,
        },
        Err(_) => None,
    }
}

/// Deletes every stored refresh token whose record names the family `fid`.
pub(crate) fn remove_family_tokens(storage: &mut InMemoryStorage, fid: &str)
    ensures
        final(storage).contents() == without_family_tokens(old(storage).contents(), fid@),
{
    let keys = storage.keys("refresh:");
    let ghost c0 = storage.contents();
    let mut i: usize = 0;
    while i < keys.len()
        invariant
            i <= keys@.len(),
            crate::collections::no_duplicates(crate::collections::string_views(keys@)),
            forall|k: Seq<char>| #[trigger] crate::collections::string_views(keys@).contains(k)
                <==> (c0.dom().contains(k) && has_prefix(k, "refresh:"@)),
            storage.contents() == c0.restrict(c0.dom().filter(|k: Seq<char>|
                !(exists|j: int| 0 <= j < i && keys@[j]@ == k && stored_family(c0[k]) == Some(fid@)))),
        decreases keys@.len() - i,
    {
        let key = &keys[i];
        let ghost before = storage.contents();
        assert(crate::collections::string_views(keys@)[i as int] == key@);
        assert(crate::collections::string_views(keys@).contains(key@));
        match storage.get(key.as_str()) {
            Some(s) => {
                match family_of_record(&s) {
                    Some(f) => {
                        if crate::strings::str_eq(f.as_str(), fid) {
                            storage.delete(key.as_str());
                        }
                    },
                    None => {},
                }
            },
            None => {},
        }
        proof {
            assert(storage.contents() =~= c0.restrict(c0.dom().filter(|k: Seq<char>|
                !(exists|j: int| 0 <= j < i + 1 && keys@[j]@ == k && stored_family(c0[k]) == Some(fid@))))) by {
                assert forall|k: Seq<char>| #![auto] (exists|j: int| 0 <= j < i + 1 && keys@[j]@ == k && stored_family(c0[k]) == Some(fid@))
                    <==> ((exists|j: int| 0 <= j < i && keys@[j]@ == k && stored_family(c0[k]) == Some(fid@))
                        || (k == key@ && stored_family(c0[k]) == Some(fid@))) by {
                    if exists|j: int| 0 <= j < i + 1 && keys@[j]@ == k && stored_family(c0[k]) == Some(fid@) {
                        let j = choose|j: int| 0 <= j < i + 1 && keys@[j]@ == k && stored_family(c0[k]) == Some(fid@);
                        if j != i {
                        }
                    }
                    if k == key@ && stored_family(c0[k]) == Some(fid@) {
                        assert(keys@[i as int]@ == k);
                    }
                }
                if c0.dom().contains(key@) {
                    assert(before.dom().contains(key@)) by {
                        if !before.dom().contains(key@) {
                            let j = choose|j: int| 0 <= j < i && keys@[j]@ == key@ && stored_family(c0[key@]) == Some(fid@);
                            assert(crate::collections::string_views(keys@)[j] == key@);
                        }
                    }
                }
            }
        }
        i += 1;
    }
    proof {
        assert(storage.contents() =~= without_family_tokens(c0, fid@)) by {
            assert forall|k: Seq<char>| #![auto] c0.dom().contains(k) implies
                ((exists|j: int| 0 <= j < keys@.len() && keys@[j]@ == k && stored_family(c0[k]) == Some(fid@))
                    <==> (has_prefix(k, "refresh:"@) && stored_family(c0[k]) == Some(fid@))) by {
                if has_prefix(k, "refresh:"@) && stored_family(c0[k]) == Some(fid@) {
                    assert(crate::collections::string_views(keys@).contains(k));
                    let j = crate::collections::string_views(keys@).index_of(k);
                    assert(keys@[j]@ == k);
                }
                if exists|j: int| 0 <= j < keys@.len() && keys@[j]@ == k && stored_family(c0[k]) == Some(fid@) {
                    let j = choose|j: int| 0 <= j < keys@.len() && keys@[j]@ == k && stored_family(c0[k]) == Some(fid@);
                    assert(crate::collections::string_views(keys@)[j] == k);
                    assert(crate::collections::string_views(keys@).contains(k));
                }
            }
        }
    }
}

impl TokenGenerator for OpaqueTokenGenerator {
    /// Issuing stores the record of a new opaque token of the user, or fails
    /// on the clock or the random source and leaves storage as it was.
    open spec fn issues(&self, after: &Self, user: User, expires_in: i64, r: Result<Token, AuthError>) -> bool {
        match r {
            Ok(t) => opaque_issued(self.stored(), after.stored(), user, expires_in, TokenType::Opaque, None, t),
            Err(e) => (e is TimeError || e is Crypto) && after.stored() == self.stored(),
        }
    }

    fn generate(&mut self, user: &User, expires_in: i64) -> (r: Result<Token, AuthError>)
        ensures
            match r {
                Ok(t) => {
                    &&& t.token_type == TokenType::Opaque
                    &&& t.user_id@ == user.id@
                    &&& t.issued_at <= MAX_INSTANT
                    &&& representable(expiry_after(t.issued_at, expires_in))
                    &&& t.expires_at == expiry_after(t.issued_at, expires_in)
                    &&& metadata_matches(t.metadata, user.username@, user.roles.elems(), user.permissions.elems(),
                        opt_view(user.tenant_id), None, None)
                    &&& final(self).stored().dom() == old(self).stored().dom().insert(opaque_key(TokenType::Opaque, t.value@))
                    &&& forall|k: Seq<char>| k != opaque_key(TokenType::Opaque, t.value@) && #[trigger] old(self).stored().dom().contains(k)
                        ==> final(self).stored()[k] == old(self).stored()[k]
                    &&& opaque_record(final(self).stored()[opaque_key(TokenType::Opaque, t.value@)], t.value@, TokenType::Opaque,
                        user, t.expires_at, t.issued_at, None)
                },
                Err(e) => (e is TimeError || e is Crypto) && final(self).stored() == old(self).stored(),
            },
    {
        self.generate_opaque(user, expires_in, TokenType::Opaque, None)
    }

    fn generate_refresh(&mut self, user: &User, expires_in: i64, family_id: &str) -> (r: Result<Token, AuthError>)
        ensures
            match r {
                Ok(t) => {
                    &&& t.token_type == TokenType::Refresh
                    &&& t.user_id@ == user.id@
                    &&& t.issued_at <= MAX_INSTANT
                    &&& representable(expiry_after(t.issued_at, expires_in))
                    &&& t.expires_at == expiry_after(t.issued_at, expires_in)
                    &&& metadata_matches(t.metadata, user.username@, user.roles.elems(), user.permissions.elems(),
                        opt_view(user.tenant_id), None, Some(family_id@))
                    &&& final(self).stored().dom() == old(self).stored().dom().insert(opaque_key(TokenType::Refresh, t.value@))
                    &&& forall|k: Seq<char>| k != opaque_key(TokenType::Refresh, t.value@) && #[trigger] old(self).stored().dom().contains(k)
                        ==> final(self).stored()[k] == old(self).stored()[k]
                    &&& opaque_record(final(self).stored()[opaque_key(TokenType::Refresh, t.value@)], t.value@, TokenType::Refresh,
                        user, t.expires_at, t.issued_at, Some(family_id@))
                },
                Err(e) => (e is TimeError || e is Crypto) && final(self).stored() == old(self).stored(),
            },
    {
        self.generate_opaque(user, expires_in, TokenType::Refresh, Some(family_id))
    }

    fn verify(&self, token_value: &str) -> (r: Result<Option<Token>, AuthError>)
        ensures
            exists|now: u128| opaque_verify_outcome(self.stored(), token_value@, now, r),
    {
        let now = match current_time() {
            Some(t) => t,
            None => 0,
        };
        self.verify_at(token_value, now)
    }

    fn revoke(&mut self, token_value: &str)
        ensures
            final(self).stored() == after_opaque_revoke(old(self).stored(), token_value@),
    {
        self.revoke_value(token_value)
    }

    fn is_revoked(&self, token_value: &str) -> (r: bool)
        ensures
            r == self.stored().dom().contains(revoked_key(token_value@)),
    {
        self.storage.has(storage_revoked_key(token_value).as_str())
    }
}

impl Default for OpaqueTokenGenerator {
    /// A generator with empty in-memory storage.
    fn default() -> (r: Self)
        ensures
            r.stored() == Map::<Seq<char>, Seq<char>>::empty(),
    {
        OpaqueTokenGenerator::new()
    }
}

} // verus!
