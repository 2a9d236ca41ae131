//! The framework's front door: providers, tokens with rotation, sessions and
//! permissions behind one value.

use crate::clock::current_time;
use vstd::prelude::*;
use crate::collections::{StringMap, StringSet, string_views, no_duplicates};
use crate::crypto::{base64_url, random_id, within_input_limit};
use crate::error::AuthError;
use crate::hasher::utf8;
use crate::json::{JsonValue, json_get, json_str};
use crate::jwt::{SimpleJWTGenerator, jwt_issued, jwt_verify_outcome, after_jwt_revoke, claim_set, str_claim, set_claim};
use crate::model::{Token, TokenType, User};
use crate::opaque::{OpaqueTokenGenerator, opaque_issued, opaque_verify_outcome, after_opaque_revoke};
use crate::policy::{PolicyEngine, PolicyRule, access_granted, role_permission_added};
use crate::providers::{
    AuthProvider, APIKeyAuthProvider, LocalAuthProvider, credentials_fit, local_auth_outcome, api_key_outcome,
};
use crate::session::{SessionManager, session_created, session_lifetime};
use crate::storage::{InMemoryStorage, StorageBackend, revoked_key, refresh_family_key, storage_refresh_family_key};
use crate::strings::{opt_view, opt_str_view, str_eq};
use crate::tokens::{TokenGenerator, MAX_INSTANT, NANOS_PER_SEC};

verus! {

/// An authentication provider of the framework.
pub enum Provider {
    /// Local accounts with hashed passwords.
    Local(LocalAuthProvider),
    /// API keys.
    ApiKey(APIKeyAuthProvider),
    /// A provider of the caller's own.
    Custom(Box<dyn AuthProvider>),
}

/// What `p` answers to `credentials`; for a provider of the caller's own,
/// what its [`AuthProvider::answers`] allows.
pub open spec fn provider_outcome(p: Provider, credentials: &StringMap<String>, r: Result<Option<User>, AuthError>) -> bool {
    match p {
        Provider::Local(x) => local_auth_outcome(x.accounts(), credentials, r),
        Provider::ApiKey(x) => api_key_outcome(x.key_users(), credentials, r),
        Provider::Custom(b) => b.answers(credentials, r),
    }
}

impl AuthProvider for Provider {
    /// See [`provider_outcome`].
    open spec fn answers(&self, credentials: &StringMap<String>, r: Result<Option<User>, AuthError>) -> bool {
        provider_outcome(*self, credentials, r)
    }

    fn authenticate(&self, credentials: &StringMap<String>) -> (r: Result<Option<User>, AuthError>)
        ensures
            provider_outcome(*self, credentials, r),
    {
        match self {
            Provider::Local(p) => p.authenticate(credentials),
            Provider::ApiKey(p) => p.authenticate(credentials),
            Provider::Custom(p) => p.authenticate(credentials),
        }
    }
}

/// The token generator of the framework: signed JWTs, or opaque tokens kept
/// in storage.
#[derive(Debug)]
pub enum TokenIssuer {
    Jwt(SimpleJWTGenerator),
    Opaque(OpaqueTokenGenerator),
}

/// The type of the access tokens an issuer hands out.
pub open spec fn access_type(i: TokenIssuer) -> TokenType {
    match i {
        TokenIssuer::Jwt(_) => TokenType::JWT,
        TokenIssuer::Opaque(_) => TokenType::Opaque,
    }
}

impl TokenIssuer {
    /// The storage contents.
    pub open spec fn stored(&self) -> Map<Seq<char>, Seq<char>> {
        match self {
            TokenIssuer::Jwt(g) => g.stored(),
            TokenIssuer::Opaque(o) => o.stored(),
        }
    }

    /// `other` is an issuer of the same kind with the same signing settings.
    pub open spec fn same_settings(&self, other: TokenIssuer) -> bool {
        match (*self, other) {
            (TokenIssuer::Jwt(g), TokenIssuer::Jwt(h)) => {
                &&& g.key() == h.key()
                &&& g.algorithms() == h.algorithms()
                &&& g.issuer_claim() == h.issuer_claim()
                &&& g.audience_claim() == h.audience_claim()
                &&& g.key_id_claim() == h.key_id_claim()
                &&& g.required_issuer() == h.required_issuer()
                &&& g.required_audience() == h.required_audience()
            },
            (TokenIssuer::Opaque(_), TokenIssuer::Opaque(_)) => true,
            _ => false,
        }
    }

    /// `after` is this issuer after it issued `t` for `user` with the given
    /// lifetime, type and refresh family.
    pub open spec fn issued(
        &self,
        after: TokenIssuer,
        user: User,
        expires_in: i64,
        token_type: TokenType,
        family_id: Option<Seq<char>>,
        t: Token,
    ) -> bool {
        match (*self, after) {
            (TokenIssuer::Jwt(g), TokenIssuer::Jwt(h)) => h == g && jwt_issued(g, user, expires_in, token_type, family_id, t),
            (TokenIssuer::Opaque(o), TokenIssuer::Opaque(p)) => opaque_issued(o.stored(), p.stored(), user, expires_in,
                token_type, family_id, t),
            _ => false,
        }
    }

    /// What checking `value` at `now` gives.
    pub open spec fn verify_outcome(&self, value: Seq<char>, now: u128, r: Result<Option<Token>, AuthError>) -> bool {
        match self {
            TokenIssuer::Jwt(g) => jwt_verify_outcome(g.check(value, now), value, r),
            TokenIssuer::Opaque(o) => opaque_verify_outcome(o.stored(), value, now, r),
        }
    }

    /// The storage contents after revoking `value`.
    pub open spec fn after_revoke(&self, value: Seq<char>) -> Map<Seq<char>, Seq<char>> {
        match self {
            TokenIssuer::Jwt(g) => after_jwt_revoke(g.stored(), value),
            TokenIssuer::Opaque(o) => after_opaque_revoke(o.stored(), value),
        }
    }

    /// Issues an access token.
    pub fn generate(&mut self, user: &User, expires_in: i64) -> (r: Result<Token, AuthError>)
        ensures
            match r {
                Ok(t) => old(self).issued(*final(self), *user, expires_in, access_type(*old(self)), None, t),
                Err(e) => (e is TimeError || e is Crypto || e is Serialization) && final(self).stored() == old(self).stored()
                    && final(self).same_settings(*old(self)),
            },
    {
        match self {
            TokenIssuer::Jwt(g) => g.generate(user, expires_in),
            TokenIssuer::Opaque(o) => o.generate(user, expires_in),
        }
    }

    /// Issues a refresh token of the family `family_id`.
    pub fn generate_refresh(&mut self, user: &User, expires_in: i64, family_id: &str) -> (r: Result<Token, AuthError>)
        ensures
            match r {
                Ok(t) => old(self).issued(*final(self), *user, expires_in, TokenType::Refresh, Some(family_id@), t),
                Err(e) => (e is TimeError || e is Crypto || e is Serialization) && final(self).stored() == old(self).stored()
                    && final(self).same_settings(*old(self)),
            },
    {
        match self {
            TokenIssuer::Jwt(g) => g.generate_refresh(user, expires_in, family_id),
            TokenIssuer::Opaque(o) => o.generate_refresh(user, expires_in, family_id),
        }
    }

    /// Checks a token value at instant `now`.
    pub fn verify_at(&self, token_value: &str, now: u128) -> (r: Result<Option<Token>, AuthError>)
        ensures
            self.verify_outcome(token_value@, now, r),
    {
        match self {
            TokenIssuer::Jwt(g) => g.verify_at(token_value, now),
            TokenIssuer::Opaque(o) => o.verify_at(token_value, now),
        }
    }

    /// Checks a token value now.
    pub fn verify(&self, token_value: &str) -> (r: Result<Option<Token>, AuthError>)
        ensures
            exists|now: u128| #[trigger] self.verify_outcome(token_value@, now, r),
    {
        let r = match self {
            TokenIssuer::Jwt(g) => g.verify(token_value),
            TokenIssuer::Opaque(o) => o.verify(token_value),
        };
        proof {
            match self {
                TokenIssuer::Jwt(g) => {
                    let now = choose|now: u128| jwt_verify_outcome(#[trigger] g.check(token_value@, now), token_value@, r);
                    assert(self.verify_outcome(token_value@, now, r));
                },
                TokenIssuer::Opaque(o) => {
                    let now = choose|now: u128| opaque_verify_outcome(o.stored(), token_value@, now, r);
                    assert(self.verify_outcome(token_value@, now, r));
                },
            }
        }
        r
    }

    /// Revokes a token value.
    pub fn revoke(&mut self, token_value: &str)
        ensures
            final(self).stored() == old(self).after_revoke(token_value@),
            final(self).same_settings(*old(self)),
    {
        match self {
            TokenIssuer::Jwt(g) => g.revoke(token_value),
            TokenIssuer::Opaque(o) => o.revoke(token_value),
        }
    }

    /// Whether a token value has been revoked.
    pub fn is_revoked(&self, token_value: &str) -> (r: bool)
        ensures
            r == self.stored().dom().contains(revoked_key(token_value@)),
    {
        match self {
            TokenIssuer::Jwt(g) => g.is_revoked(token_value),
            TokenIssuer::Opaque(o) => o.is_revoked(token_value),
        }
    }

    /// The value stored under `key`.
    pub fn storage_get(&self, key: &str) -> (r: Option<String>)
        ensures
            match r {
                Some(v) => self.stored().dom().contains(key@) && v@ == self.stored()[key@],
                None => !self.stored().dom().contains(key@),
            },
    {
        match self {
            TokenIssuer::Jwt(g) => g.storage_get(key),
            TokenIssuer::Opaque(o) => o.storage_get(key),
        }
    }

    /// Stores `value` under `key`.
    pub fn storage_set(&mut self, key: &str, value: String)
        ensures
            final(self).stored() == old(self).stored().insert(key@, value@),
            final(self).same_settings(*old(self)),
    {
        match self {
            TokenIssuer::Jwt(g) => g.storage_set(key, value),
            TokenIssuer::Opaque(o) => o.storage_set(key, value),
        }
    }
}

/// Configuration for an [`Auth`] instance.
#[derive(Debug)]
pub struct AuthConfig {
    pub issuer: Option<String>,
    pub audience: Option<String>,
    pub key_id: Option<String>,
    pub allowed_algorithms: Vec<String>,
}

impl Default for AuthConfig {
    /// No issuer, audience or key id; HS256 allowed.
    fn default() -> (r: Self)
        ensures
            r.issuer is None,
            r.audience is None,
            r.key_id is None,
            string_views(r.allowed_algorithms@) == seq!["HS256"@],
    {
        let mut algs: Vec<String> = Vec::new();
        algs.push(String::from_str("HS256"));
        assert(string_views(algs@) =~= seq!["HS256"@]);
        AuthConfig { issuer: None, audience: None, key_id: None, allowed_algorithms: algs }
    }
}

/// Result of a successful login.
#[derive(Debug)]
pub struct LoginResult {
    pub user: User,
    pub access_token: String,
    pub refresh_token: String,
    pub token_type: String,
    pub expires_in: i64,
    pub session_id: Option<String>,
    pub family_id: Option<String>,
}

/// Result of a token refresh.
#[derive(Debug)]
pub struct RefreshResult {
    pub access_token: String,
    pub token_type: String,
    pub expires_in: i64,
}

/// The entries a new instance starts from.
pub open spec fn initial_store(storage: Option<InMemoryStorage>) -> Map<Seq<char>, Seq<char>> {
    match storage {
        Some(s) => s.contents(),
        None => Map::empty(),
    }
}

/// `i` is the issuer a new instance with `secret`, token type `token_type`
/// and `config` gets: a JWT generator signing with the secret, writing and
/// requiring the configured issuer and audience, naming the configured key
/// id and allowing the configured algorithms; else an opaque generator.
pub open spec fn configured_issuer(i: TokenIssuer, secret: Seq<char>, token_type: TokenType, config: AuthConfig) -> bool {
    match token_type {
        TokenType::JWT => i matches TokenIssuer::Jwt(g) && {
            &&& g.key() == utf8(secret)
            &&& g.algorithms() == string_views(config.allowed_algorithms@)
            &&& g.issuer_claim() == opt_view(config.issuer)
            &&& g.required_issuer() == opt_view(config.issuer)
            &&& g.audience_claim() == opt_view(config.audience)
            &&& g.required_audience() == opt_view(config.audience)
            &&& g.key_id_claim() == opt_view(config.key_id)
        },
        _ => i is Opaque,
    }
}

/// `i` is the issuer a new instance with the default configuration gets: a
/// JWT generator signing with `secret`, allowing only HS256, with no issuer,
/// audience or key id; else an opaque generator.
pub open spec fn default_issuer(i: TokenIssuer, secret: Seq<char>, token_type: TokenType) -> bool {
    match token_type {
        TokenType::JWT => i matches TokenIssuer::Jwt(g) && {
            &&& g.key() == utf8(secret)
            &&& g.algorithms() == seq!["HS256"@]
            &&& g.issuer_claim() is None && g.required_issuer() is None
            &&& g.audience_claim() is None && g.required_audience() is None
            &&& g.key_id_claim() is None
        },
        _ => i is Opaque,
    }
}

/// The credential under `key`, if given.
pub open spec fn opt_credential(credentials: &StringMap<String>, key: Seq<char>) -> Option<Seq<char>> {
    if credentials.to_map().dom().contains(key) {
        Some(credentials.to_map()[key]@)
    } else {
        None
    }
}

/// Manager `m2` is `m` after it created the session with id `sid` for
/// `user_id` with the default lifetime, from the device id, IP address and
/// user agent among `credentials`.
pub open spec fn session_opened(
    m: SessionManager,
    m2: SessionManager,
    sid: Seq<char>,
    user_id: Seq<char>,
    credentials: &StringMap<String>,
) -> bool {
    exists|x: crate::model::Session| x.id@ == sid && #[trigger] session_created(m.stored(), m2.stored(), x, user_id,
        opt_credential(credentials, "device_id"@), opt_credential(credentials, "ip_address"@),
        opt_credential(credentials, "user_agent"@), session_lifetime(m.ttl(), 0), x.created_at)
}

/// `lr` is what completing a login for `user` returned, taking `a` to `a2`:
/// `user`, an access token living `ttl` seconds and a refresh token of the
/// family `fid` living `ttl * 24` seconds, the family's active token
/// recorded, and a session from `credentials` when one was asked for.
pub open spec fn login_issued(
    a: Auth,
    a2: Auth,
    user: User,
    credentials: &StringMap<String>,
    create_session: bool,
    ttl: i64,
    fid: Seq<char>,
    lr: LoginResult,
) -> bool {
    &&& lr.user == user
    &&& lr.token_type@ == "Bearer"@
    &&& lr.expires_in == ttl
    &&& lr.family_id matches Some(f) && f@ == fid
    &&& tokens_issued(a.issuer(), a2.issuer(), user, ttl, (ttl * 24) as i64, fid, lr.access_token@, lr.refresh_token@)
    &&& if create_session {
        lr.session_id matches Some(sid) && session_opened(a.sessions(), a2.sessions(), sid@, user.id@, credentials)
    } else {
        lr.session_id is None && a2.sessions() == a.sessions()
    }
}

/// `lr` is what a login with `credentials` at the provider named
/// `provider_name` returned, taking `a` to `a2`: the provider's user, an
/// access token living `ttl` seconds and a refresh token of a new random
/// family (16 random bytes in URL-safe base64) living `ttl * 24` seconds, the
/// family's active token recorded, and a session when one was asked for.
pub open spec fn logged_in(
    a: Auth,
    a2: Auth,
    provider_name: Seq<char>,
    credentials: &StringMap<String>,
    create_session: bool,
    ttl: i64,
    lr: LoginResult,
) -> bool {
    &&& a.provider_table().dom().contains(provider_name)
    &&& provider_outcome(a.provider_table()[provider_name], credentials, Ok(Some(lr.user)))
    &&& lr.family_id matches Some(f) && (exists|b: Seq<u8>| b.len() == 16 && f@ == base64_url(b))
        && login_issued(a, a2, lr.user, credentials, create_session, ttl, f@, lr)
}

/// `i2` is `i` after it issued an access token `access` living `access_ttl`
/// seconds and a refresh token `refresh` of family `fid` living
/// `refresh_ttl` seconds for `user`, and recorded `refresh` as the family's
/// active token.
pub open spec fn tokens_issued(
    i: TokenIssuer,
    i2: TokenIssuer,
    user: User,
    access_ttl: i64,
    refresh_ttl: i64,
    fid: Seq<char>,
    access: Seq<char>,
    refresh: Seq<char>,
) -> bool {
    exists|m1: TokenIssuer, m2: TokenIssuer, a: Token, rt: Token| {
        &&& i.issued(m1, user, access_ttl, access_type(i), None, a)
        &&& m1.issued(m2, user, refresh_ttl, TokenType::Refresh, Some(fid), rt)
        &&& a.value@ == access
        &&& rt.value@ == refresh
        &&& i2.same_settings(m2)
        &&& i2.stored() == m2.stored().insert(refresh_family_key(fid), refresh)
    }
}

/// Main authentication and authorization framework.
pub struct Auth {
    providers: StringMap<Provider>,
    token_generator: TokenIssuer,
    pub policy_engine: PolicyEngine,
    pub session_manager: SessionManager,
}

impl Auth {
    /// The providers, by name.
    pub closed spec fn provider_table(&self) -> Map<Seq<char>, Provider> {
        self.providers.to_map()
    }

    /// The token generator.
    pub closed spec fn issuer(&self) -> TokenIssuer {
        self.token_generator
    }

    /// The policy engine.
    pub closed spec fn policy(&self) -> PolicyEngine {
        self.policy_engine
    }

    /// The session manager.
    pub closed spec fn sessions(&self) -> SessionManager {
        self.session_manager
    }

    /// An instance with the given secret, token type, configuration and
    /// storage (a new in-memory store when none), no providers, an empty
    /// policy engine and sessions that live an hour by default; an invalid
    /// secret error for an empty secret.
    pub fn new_with_config(
        secret: &str,
        token_type: TokenType,
        config: AuthConfig,
        storage: Option<InMemoryStorage>,
    ) -> (r: Result<Auth, AuthError>)
        requires
            within_input_limit(utf8(secret@).len() as int),
        ensures
            match r {
                Ok(a) => {
                    &&& secret@.len() > 0
                    &&& configured_issuer(a.issuer(), secret@, token_type, config)
                    &&& a.issuer().stored() == initial_store(storage)
                    &&& a.provider_table() == Map::<Seq<char>, Provider>::empty()
                    &&& a.policy().rule_list() == Seq::<crate::policy::PolicyRule>::empty()
                    &&& a.policy().role_table().to_map() == Map::<Seq<char>, StringSet>::empty()
                    &&& a.sessions().ttl() == 3600
                    &&& a.sessions().stored() == initial_store(storage)
                },
                Err(e) => secret@.len() == 0 && e is InvalidSecret,
            },
    {
        if secret.unicode_len() == 0 {
            return Err(AuthError::InvalidSecret);
        }
        let ghost cfg = config;
        let ghost st = storage;
        let storage = match storage {
            Some(s) => s,
            None => InMemoryStorage::new(),
        };
        let session_storage = storage.clone();
        let token_generator = match token_type {
            TokenType::JWT => {
                let mut g = SimpleJWTGenerator::new(secret).with_allowed_algorithms(config.allowed_algorithms)
                    .with_storage(storage);
                match &config.issuer {
                    Some(iss) => {
                        g = g.with_issuer(iss.as_str()).with_expected_issuer(iss.as_str());
                    },
                    None => {},
                }
                match &config.audience {
                    Some(aud) => {
                        g = g.with_audience(aud.as_str()).with_expected_audience(aud.as_str());
                    },
                    None => {},
                }
                match &config.key_id {
                    Some(kid) => {
                        g = g.with_key_id(kid.as_str());
                    },
                    None => {},
                }
                TokenIssuer::Jwt(g)
            },
            _ => TokenIssuer::Opaque(OpaqueTokenGenerator::new().with_storage(storage)),
        };
        let a = Auth {
            providers: StringMap::new(),
            token_generator,
            policy_engine: PolicyEngine::new(),
            session_manager: SessionManager::new_with_storage(3600, session_storage),
        };
        proof {
            assert(configured_issuer(a.issuer(), secret@, token_type, cfg));
        }
        Ok(a)
    }

    /// An instance with the default configuration; see [`Auth::new_with_config`].
    pub fn new(secret: &str, token_type: TokenType, storage: Option<InMemoryStorage>) -> (r: Result<Auth, AuthError>)
        requires
            within_input_limit(utf8(secret@).len() as int),
        ensures
            match r {
                Ok(a) => {
                    &&& secret@.len() > 0
                    &&& default_issuer(a.issuer(), secret@, token_type)
                    &&& a.issuer().stored() == initial_store(storage)
                    &&& a.provider_table() == Map::<Seq<char>, Provider>::empty()
                    &&& a.policy().rule_list() == Seq::<crate::policy::PolicyRule>::empty()
                    &&& a.policy().role_table().to_map() == Map::<Seq<char>, StringSet>::empty()
                    &&& a.sessions().ttl() == 3600
                    &&& a.sessions().stored() == initial_store(storage)
                },
                Err(e) => secret@.len() == 0 && e is InvalidSecret,
            },
    {
        Auth::new_with_config(secret, token_type, AuthConfig::default(), storage)
    }

    /// Adds (or replaces) the provider named `name`.
    pub fn add_provider(&mut self, name: &str, provider: Provider)
        ensures
            final(self).provider_table() == old(self).provider_table().insert(name@, provider),
            final(self).issuer() == old(self).issuer(),
            final(self).policy() == old(self).policy(),
            final(self).sessions() == old(self).sessions(),
    {
        self.providers.insert(name.to_owned(), provider);
    }

    /// Authenticates with the provider named `provider_name`; an unknown
    /// provider error when there is none.
    pub fn authenticate(&self, provider_name: &str, credentials: &StringMap<String>) -> (r: Result<Option<User>, AuthError>)
        requires
            credentials_fit(credentials),
        ensures
            if self.provider_table().dom().contains(provider_name@) {
                provider_outcome(self.provider_table()[provider_name@], credentials, r)
            } else {
                r matches Err(AuthError::UnknownProvider(n)) && n@ == provider_name@
            },
    {
        match self.providers.get(provider_name) {
            Some(p) => p.authenticate(credentials),
            None => Err(AuthError::UnknownProvider(provider_name.to_owned())),
        }
    }

    /// The token a value stands for, if it is valid now and not revoked.
    pub fn verify_token(&self, token_value: &str) -> (r: Result<Option<Token>, AuthError>)
        ensures
            if self.issuer().stored().dom().contains(revoked_key(token_value@)) {
                r matches Ok(None)
            } else {
                exists|now: u128| #[trigger] self.issuer().verify_outcome(token_value@, now, r)
            },
    {
        if self.token_generator.is_revoked(token_value) {
            return Ok(None);
        }
        self.token_generator.verify(token_value)
    }

    /// Revokes a token value.
    pub fn revoke_token(&mut self, token_value: &str)
        ensures
            final(self).issuer().stored() == old(self).issuer().after_revoke(token_value@),
            final(self).issuer().same_settings(old(self).issuer()),
            final(self).provider_table() == old(self).provider_table(),
            final(self).policy() == old(self).policy(),
            final(self).sessions() == old(self).sessions(),
    {
        self.token_generator.revoke(token_value);
    }

    /// Adds a policy rule after the existing ones; see
    /// [`PolicyEngine::add_rule`].
    pub fn add_rule(&mut self, rule: PolicyRule)
        ensures
            final(self).policy().rule_list() == old(self).policy().rule_list().push(rule),
            final(self).policy().role_table() == old(self).policy().role_table(),
            final(self).provider_table() == old(self).provider_table(),
            final(self).issuer() == old(self).issuer(),
            final(self).sessions() == old(self).sessions(),
    {
        self.policy_engine.add_rule(rule);
    }

    /// Grants `permission` to `role`; see
    /// [`PolicyEngine::add_role_permission`].
    pub fn add_role_permission(&mut self, role: &str, permission: &str)
        ensures
            role_permission_added(old(self).policy(), final(self).policy(), role@, permission@),
            final(self).provider_table() == old(self).provider_table(),
            final(self).issuer() == old(self).issuer(),
            final(self).sessions() == old(self).sessions(),
    {
        self.policy_engine.add_role_permission(role, permission);
    }

    /// Whether `user` may perform `action` on `resource`; see
    /// [`PolicyEngine::check`].
    pub fn check_permission(
        &self,
        user: &User,
        action: &str,
        resource: &str,
        context: Option<&StringMap<String>>,
    ) -> (r: bool)
        ensures
            r == access_granted(self.policy().rule_list(), self.policy().role_table(), user, action@, resource@,
                context),
    {
        self.policy_engine.check(user, action, resource, context)
    }
}

impl Auth {
    /// Authenticates with the provider named `provider_name` and, for a user,
    /// issues an access token living `ttl` seconds and a refresh token of a
    /// new family living `ttl * 24` seconds, records the refresh token as the
    /// family's active one and, when asked, creates a session from the
    /// credentials' device id, IP address and user agent. An unknown
    /// provider, a refusal or an error of the provider changes nothing.
    pub fn login(
        &mut self,
        provider_name: &str,
        credentials: &StringMap<String>,
        create_session: bool,
        ttl: i64,
    ) -> (r: Result<Option<LoginResult>, AuthError>)
        requires
            credentials_fit(credentials),
            i64::MIN <= ttl * 24 <= i64::MAX,
        ensures
            final(self).provider_table() == old(self).provider_table(),
            final(self).policy() == old(self).policy(),
            final(self).issuer().same_settings(old(self).issuer()),
            final(self).sessions().ttl() == old(self).sessions().ttl(),
            match r {
                Ok(None) => {
                    &&& old(self).provider_table().dom().contains(provider_name@)
                    &&& provider_outcome(old(self).provider_table()[provider_name@], credentials, Ok(None))
                    &&& final(self).issuer() == old(self).issuer()
                    &&& final(self).sessions() == old(self).sessions()
                },
                Ok(Some(lr)) => logged_in(*old(self), *final(self), provider_name@, credentials, create_session, ttl, lr),
                Err(e) => if old(self).provider_table().dom().contains(provider_name@) {
                    ||| provider_outcome(old(self).provider_table()[provider_name@], credentials, Err(e))
                        && final(self).issuer() == old(self).issuer()
                        && final(self).sessions() == old(self).sessions()
                    ||| (e is Crypto || e is TimeError || e is Serialization)
                        && exists|u: User| provider_outcome(old(self).provider_table()[provider_name@], credentials, Ok(Some(u)))
                } else {
                    &&& e matches AuthError::UnknownProvider(n) && n@ == provider_name@
                    &&& final(self).issuer() == old(self).issuer()
                    &&& final(self).sessions() == old(self).sessions()
                },
            },
    {
        let user = match self.authenticate(provider_name, credentials) {
            Ok(Some(u)) => u,
            Ok(None) => return Ok(None),
            Err(e) => return Err(e),
        };
        let ghost u0 = user;
        let family_id = random_id(16)?;
        let ghost fid = family_id@;
        let r = self.login_at(user, credentials, create_session, ttl, family_id);
        let ghost rg = r;
        proof {
            match rg {
                Ok(lr) => {
                    assert(login_issued(*old(self), *self, u0, credentials, create_session, ttl, fid, lr));
                    assert(logged_in(*old(self), *self, provider_name@, credentials, create_session, ttl, lr));
                },
                Err(e) => {
                    assert(provider_outcome(old(self).provider_table()[provider_name@], credentials, Ok(Some(u0))));
                },
            }
        }
        match r {
            Ok(lr) => Ok(Some(lr)),
            Err(e) => Err(e),
        }
    }

    /// Completes the login of `user`, whom a provider accepted, with the
    /// refresh family `family_id`: issues an access token living `ttl`
    /// seconds and a refresh token of the family living `ttl * 24` seconds,
    /// records the refresh token as the family's active one and, when asked,
    /// creates a session from the credentials' device id, IP address and user
    /// agent. Fails only where issuing a token or creating the session does.
    pub fn login_at(
        &mut self,
        user: User,
        credentials: &StringMap<String>,
        create_session: bool,
        ttl: i64,
        family_id: String,
    ) -> (r: Result<LoginResult, AuthError>)
        requires
            i64::MIN <= ttl * 24 <= i64::MAX,
        ensures
            final(self).provider_table() == old(self).provider_table(),
            final(self).policy() == old(self).policy(),
            final(self).issuer().same_settings(old(self).issuer()),
            final(self).sessions().ttl() == old(self).sessions().ttl(),
            match r {
                Ok(lr) => login_issued(*old(self), *final(self), user, credentials, create_session, ttl, family_id@, lr),
                Err(e) => e is Crypto || e is TimeError || e is Serialization,
            },
    {
        let ghost i0 = self.token_generator;
        let access = self.token_generator.generate(&user, ttl)?;
        let ghost i1 = self.token_generator;
        let refresh = self.token_generator.generate_refresh(&user, ttl * 24, family_id.as_str())?;
        let ghost i2 = self.token_generator;
        self.token_generator.storage_set(storage_refresh_family_key(family_id.as_str()).as_str(), refresh.value.clone());
        proof {
            assert(self.issuer().same_settings(i2));
            assert(tokens_issued(i0, self.issuer(), user, ttl, (ttl * 24) as i64, family_id@, access.value@, refresh.value@));
            assert(self.issuer().same_settings(i0));
        }
        let mut session_id: Option<String> = None;
        if create_session {
            let device = match credentials.get("device_id") {
                Some(d) => Some(d.as_str()),
                None => None,
            };
            let ip = match credentials.get("ip_address") {
                Some(d) => Some(d.as_str()),
                None => None,
            };
            let agent = match credentials.get("user_agent") {
                Some(d) => Some(d.as_str()),
                None => None,
            };
            assert(opt_str_view(device) == opt_credential(credentials, "device_id"@));
            assert(opt_str_view(ip) == opt_credential(credentials, "ip_address"@));
            assert(opt_str_view(agent) == opt_credential(credentials, "user_agent"@));
            let ghost sm0 = self.session_manager;
            assert(sm0 == old(self).sessions());
            let session = self.session_manager.create_session(user.id.as_str(), device, ip, agent, 0)?;
            proof {
                assert(session_created(sm0.stored(), self.session_manager.stored(), session, user.id@,
                    opt_credential(credentials, "device_id"@), opt_credential(credentials, "ip_address"@),
                    opt_credential(credentials, "user_agent"@), session_lifetime(sm0.ttl(), 0), session.created_at));
                assert(session_opened(old(self).sessions(), self.session_manager, session.id@, user.id@, credentials));
            }
            session_id = Some(session.id);
        }
        let ghost fid = family_id@;
        let lr = LoginResult {
            user,
            access_token: access.value,
            refresh_token: refresh.value,
            token_type: String::from_str("Bearer"),
            expires_in: ttl,
            session_id,
            family_id: Some(family_id),
        };
        proof {
            reveal_strlit("Bearer");
        }
        Ok(lr)
    }
}

/// `u` is the user a verified token stands for: its user id, and the name,
/// tenant, roles and permissions its metadata records (roles and permissions
/// each once), with no email or metadata.
pub open spec fn token_user(t: Token, u: User) -> bool {
    let meta = JsonValue::Object(t.metadata);
    &&& u.id@ == t.user_id@
    &&& u.username@ == (match json_str(json_get(meta, "username"@)) {
        Some(n) => n,
        None => Seq::empty(),
    })
    &&& u.email is None
    &&& u.roles.members() == claim_set(meta, "roles"@)
    &&& no_duplicates(u.roles.elems())
    &&& u.permissions.members() == claim_set(meta, "permissions"@)
    &&& no_duplicates(u.permissions.elems())
    &&& u.metadata.keys().len() == 0
    &&& opt_view(u.tenant_id) == json_str(json_get(meta, "tenant_id"@))
}

/// The user a verified token stands for; see [`token_user`].
fn user_of_token(token: Token) -> (u: User)
    ensures
        token_user(token, u),
{
    let ghost t = token;
    let meta = JsonValue::Object(token.metadata);
    let username = match str_claim(&meta, "username") {
        Some(n) => n,
        None => String::new(),
    };
    let tenant_id = str_claim(&meta, "tenant_id");
    let roles = set_claim(&meta, "roles");
    let permissions = set_claim(&meta, "permissions");
    User { id: token.user_id, username, email: None, roles, permissions, metadata: StringMap::new(), tenant_id }
}

/// What refreshing gives, from what checking the token gave (`rv`): the
/// check's error or refusal, or a new access token living `ttl` seconds for
/// the token's user.
pub open spec fn refreshed(
    i: TokenIssuer,
    i2: TokenIssuer,
    rv: Result<Option<Token>, AuthError>,
    ttl: i64,
    r: Result<Option<RefreshResult>, AuthError>,
) -> bool {
    match rv {
        Err(e) => r == Err::<Option<RefreshResult>, AuthError>(e) && i2 == i,
        Ok(None) => r matches Ok(None) && i2 == i,
        Ok(Some(t)) => match r {
            Ok(Some(rr)) => {
                &&& rr.expires_in == ttl
                &&& rr.token_type@ == "Bearer"@
                &&& exists|u: User, a: Token| #[trigger] i.issued(i2, u, ttl, access_type(i), None, a)
                    && token_user(t, u) && a.value@ == rr.access_token@
            },
            Ok(None) => false,
            Err(e) => (e is TimeError || e is Crypto || e is Serialization) && i2.stored() == i.stored() && i2.same_settings(i),
        },
    }
}

/// The string a token's metadata records under `key`, if any.
pub open spec fn meta_str(t: Token, key: Seq<char>) -> Option<Seq<char>> {
    json_str(json_get(JsonValue::Object(t.metadata), key))
}

/// The access lifetime a rotation gives for a refresh token that lived
/// `lifetime` seconds: a 24th of it, at least one second; an hour when the
/// token had no positive lifetime.
pub open spec fn rotated_access_ttl(lifetime: i64) -> i64 {
    if lifetime > 0 {
        if lifetime / 24 > 1 { (lifetime / 24) as i64 } else { 1 }
    } else {
        3600
    }
}

/// The whole seconds a token lived, as the signed count the rotation uses.
pub open spec fn token_lifetime(t: Token) -> i64 {
    (((t.expires_at - t.issued_at) / NANOS_PER_SEC as int) as u128) as i64
}

/// What rotating the refresh token `v` gives, from what checking it gave
/// (`rv`): nothing for a refused value or one that is not a refresh token;
/// an invalid token error for one without a family; an invalid token error,
/// after revoking `v`, when `v` is not its family's active token (reuse);
/// otherwise `v` is revoked and a new access token and a new active refresh
/// token of the same family are issued.
pub open spec fn rotation(
    i: TokenIssuer,
    i2: TokenIssuer,
    v: Seq<char>,
    rv: Result<Option<Token>, AuthError>,
    r: Result<Option<LoginResult>, AuthError>,
) -> bool {
    match rv {
        Err(e) => r == Err::<Option<LoginResult>, AuthError>(e) && i2 == i,
        Ok(None) => r matches Ok(None) && i2 == i,
        Ok(Some(t)) => if t.token_type != TokenType::Refresh {
            r matches Ok(None) && i2 == i
        } else {
            match meta_str(t, "fid"@) {
                None => r matches Err(AuthError::InvalidToken) && i2 == i,
                Some(f) => if !(i.stored().dom().contains(refresh_family_key(f)) && i.stored()[refresh_family_key(f)] == v) {
                    r matches Err(AuthError::InvalidToken) && i2.stored() == i.after_revoke(v) && i2.same_settings(i)
                } else if t.expires_at < t.issued_at {
                    r matches Err(AuthError::TimeError) && i2.stored() == i.after_revoke(v) && i2.same_settings(i)
                } else {
                    let access_ttl = rotated_access_ttl(token_lifetime(t));
                    match r {
                        Ok(Some(lr)) => {
                            &&& lr.expires_in == access_ttl
                            &&& lr.token_type@ == "Bearer"@
                            &&& lr.session_id is None
                            &&& opt_view(lr.family_id) == Some(f)
                            &&& token_user(t, lr.user)
                            &&& exists|mid: TokenIssuer| mid.stored() == i.after_revoke(v) && mid.same_settings(i)
                                && #[trigger] tokens_issued(mid, i2, lr.user, access_ttl, (access_ttl * 24) as i64, f,
                                    lr.access_token@, lr.refresh_token@)
                        },
                        Ok(None) => false,
                        Err(e) => (e is TimeError || e is Crypto || e is Serialization) && i2.same_settings(i)
                            && i2.stored().dom().contains(revoked_key(v)),
                    }
                },
            }
        },
    }
}

/// What rotating `v` does to issuer `i`: a revoked value is refused with
/// nothing changed; otherwise see [`rotation`], from some check of `v`.
pub open spec fn refresh_tokens_outcome(
    i: TokenIssuer,
    i2: TokenIssuer,
    v: Seq<char>,
    r: Result<Option<LoginResult>, AuthError>,
) -> bool {
    if i.stored().dom().contains(revoked_key(v)) {
        r matches Ok(None) && i2 == i
    } else {
        exists|now: u128, rv: Result<Option<Token>, AuthError>| #[trigger] i.verify_outcome(v, now, rv)
            && rotation(i, i2, v, rv, r)
    }
}

impl Auth {
    /// A new access token living `token_ttl` seconds for the user of a valid
    /// token, checking the token at instant `now`.
    pub fn refresh_token_at(&mut self, refresh_token_value: &str, token_ttl: i64, now: u128) -> (r: Result<Option<RefreshResult>, AuthError>)
        ensures
            final(self).provider_table() == old(self).provider_table(),
            final(self).policy() == old(self).policy(),
            final(self).sessions() == old(self).sessions(),
            if old(self).issuer().stored().dom().contains(revoked_key(refresh_token_value@)) {
                r matches Ok(None) && final(self).issuer() == old(self).issuer()
            } else {
                exists|rv: Result<Option<Token>, AuthError>|
                    #[trigger] old(self).issuer().verify_outcome(refresh_token_value@, now, rv)
                    && refreshed(old(self).issuer(), final(self).issuer(), rv, token_ttl, r)
            },
    {
        let ghost i0 = self.token_generator;
        if self.token_generator.is_revoked(refresh_token_value) {
            return Ok(None);
        }
        let rv = self.token_generator.verify_at(refresh_token_value, now);
        let ghost rvv = rv;
        let token = match rv {
            Ok(Some(t)) => t,
            Ok(None) => return Ok(None),
            Err(e) => return Err(e),
        };
        let user = user_of_token(token);
        let access = self.token_generator.generate(&user, token_ttl)?;
        proof {
            assert(i0.issued(self.token_generator, user, token_ttl, access_type(i0), None, access));
        }
        Ok(Some(RefreshResult { access_token: access.value, token_type: String::from_str("Bearer"), expires_in: token_ttl }))
    }

    /// A new access token living `token_ttl` seconds for the user of a valid
    /// token.
    pub fn refresh_token(&mut self, refresh_token_value: &str, token_ttl: i64) -> (r: Result<Option<RefreshResult>, AuthError>)
        ensures
            final(self).provider_table() == old(self).provider_table(),
            final(self).policy() == old(self).policy(),
            final(self).sessions() == old(self).sessions(),
            if old(self).issuer().stored().dom().contains(revoked_key(refresh_token_value@)) {
                r matches Ok(None) && final(self).issuer() == old(self).issuer()
            } else {
                exists|now: u128, rv: Result<Option<Token>, AuthError>|
                    #[trigger] old(self).issuer().verify_outcome(refresh_token_value@, now, rv)
                    && refreshed(old(self).issuer(), final(self).issuer(), rv, token_ttl, r)
            },
    {
        let now = match current_time() {
            Some(t) => t,
            None => 0,
        };
        self.refresh_token_at(refresh_token_value, token_ttl, now)
    }

    /// Rotates a refresh token; see [`refresh_tokens_outcome`].
    pub fn refresh_tokens(&mut self, refresh_token_value: &str) -> (r: Result<Option<LoginResult>, AuthError>)
        ensures
            final(self).provider_table() == old(self).provider_table(),
            final(self).policy() == old(self).policy(),
            final(self).sessions() == old(self).sessions(),
            refresh_tokens_outcome(old(self).issuer(), final(self).issuer(), refresh_token_value@, r),
    {
        let now = match current_time() {
            Some(t) => t,
            None => 0,
        };
        self.refresh_tokens_at(refresh_token_value, now)
    }

    /// Rotates a refresh token, checking it at instant `now`: a revoked value
    /// gives nothing and changes nothing; otherwise see [`rotation`].
    pub fn refresh_tokens_at(&mut self, refresh_token_value: &str, now: u128) -> (r: Result<Option<LoginResult>, AuthError>)
        ensures
            final(self).provider_table() == old(self).provider_table(),
            final(self).policy() == old(self).policy(),
            final(self).sessions() == old(self).sessions(),
            if old(self).issuer().stored().dom().contains(revoked_key(refresh_token_value@)) {
                r matches Ok(None) && final(self).issuer() == old(self).issuer()
            } else {
                exists|rv: Result<Option<Token>, AuthError>|
                    #[trigger] old(self).issuer().verify_outcome(refresh_token_value@, now, rv)
                    && rotation(old(self).issuer(), final(self).issuer(), refresh_token_value@, rv, r)
            },
    {
        let ghost i0 = self.token_generator;
        if self.token_generator.is_revoked(refresh_token_value) {
            return Ok(None);
        }
        let rv = self.token_generator.verify_at(refresh_token_value, now);
        let ghost rvv = rv;
        let token = match rv {
            Ok(Some(t)) => t,
            Ok(None) => return Ok(None),
            Err(e) => return Err(e),
        };
        if token.token_type != TokenType::Refresh {
            assert(rotation(i0, self.token_generator, refresh_token_value@, rvv, Ok(None)));
            return Ok(None);
        }
        let family_id = match token.metadata.get("fid") {
            Some(x) => match x.as_str() {
                Some(f) => f.clone(),
                None => {
                    assert(meta_str(token, "fid"@) is None);
                    assert(rotation(i0, self.token_generator, refresh_token_value@, rvv, Err(AuthError::InvalidToken)));
                    return Err(AuthError::InvalidToken);
                },
            },
            None => {
                assert(meta_str(token, "fid"@) is None);
                assert(rotation(i0, self.token_generator, refresh_token_value@, rvv, Err(AuthError::InvalidToken)));
                return Err(AuthError::InvalidToken);
            },
        };
        assert(meta_str(token, "fid"@) == Some(family_id@));
        let family_key = storage_refresh_family_key(family_id.as_str());
        let active = self.token_generator.storage_get(family_key.as_str());
        let is_active = match &active {
            Some(a) => str_eq(a.as_str(), refresh_token_value),
            None => false,
        };
        assert(is_active == (i0.stored().dom().contains(refresh_family_key(family_id@))
            && i0.stored()[refresh_family_key(family_id@)] == refresh_token_value@));
        if !is_active {
            self.revoke_token(refresh_token_value);
            assert(rotation(i0, self.token_generator, refresh_token_value@, rvv, Err(AuthError::InvalidToken)));
            return Err(AuthError::InvalidToken);
        }
        self.revoke_token(refresh_token_value);
        let ghost mid = self.token_generator;
        if token.expires_at < token.issued_at {
            assert(rotation(i0, self.token_generator, refresh_token_value@, rvv, Err(AuthError::TimeError)));
            return Err(AuthError::TimeError);
        }
        let secs: u128 = (token.expires_at - token.issued_at) / NANOS_PER_SEC;
        let refresh_ttl = secs as i64;
        let access_ttl: i64 = if refresh_ttl > 0 {
            let d = refresh_ttl / 24;
            if d > 1 { d } else { 1 }
        } else {
            3600
        };
        let new_refresh_ttl = access_ttl * 24;
        assert(access_ttl == rotated_access_ttl(token_lifetime(token)));
        let ghost tv = token;
        proof {
            crate::laws::lemma_revoked_token_refused(i0, refresh_token_value@, refresh_token_value@);
            assert(mid.stored().dom().contains(revoked_key(refresh_token_value@)));
        }
        let user = user_of_token(token);
        let access = match self.token_generator.generate(&user, access_ttl) {
            Ok(a) => a,
            Err(e) => {
                assert(self.token_generator.same_settings(i0));
                assert(rotation(i0, self.token_generator, refresh_token_value@, rvv, Err(e)));
                return Err(e);
            },
        };
        proof {
            assert(self.token_generator.stored().dom().contains(revoked_key(refresh_token_value@)));
        }
        let refresh = match self.token_generator.generate_refresh(&user, new_refresh_ttl, family_id.as_str()) {
            Ok(t) => t,
            Err(e) => {
                assert(self.token_generator.same_settings(i0));
                assert(rotation(i0, self.token_generator, refresh_token_value@, rvv, Err(e)));
                return Err(e);
            },
        };
        self.token_generator.storage_set(family_key.as_str(), refresh.value.clone());
        let result = LoginResult {
            user,
            access_token: access.value,
            refresh_token: refresh.value,
            token_type: String::from_str("Bearer"),
            expires_in: access_ttl,
            session_id: None,
            family_id: Some(family_id),
        };
        proof {
            reveal_strlit("Bearer");
            assert(tokens_issued(mid, self.token_generator, result.user, access_ttl, (access_ttl * 24) as i64, family_id@,
                result.access_token@, result.refresh_token@));
            assert(self.token_generator.same_settings(i0));
            assert(rotation(i0, self.token_generator, refresh_token_value@, rvv, Ok(Some(result))));
        }
        Ok(Some(result))
    }
}

} // verus!
