//! Authentication providers: local accounts with hashed passwords, and API keys.

use vstd::prelude::*;
use crate::collections::{StringMap, StringSet};
use crate::crypto::{base64_url, pbkdf2_hmac_sha256, random_id, within_input_limit};
use crate::error::AuthError;
use crate::hasher::{PBKDF2Hasher, PasswordCheck, hash_text, password_check, names_zero_iterations, utf8};
use crate::model::{User, same_user, copy_opt};
use crate::strings::{opt_view, opt_str_view, concat};

verus! {

/// Every credential value is short enough to hash.
pub open spec fn credentials_fit(credentials: &StringMap<String>) -> bool {
    forall|k: Seq<char>| #[trigger] credentials.to_map().dom().contains(k)
        ==> within_input_limit(utf8(credentials.to_map()[k]@).len() as int)
}

/// The credential under `key`; empty when there is none.
pub open spec fn credential(credentials: &StringMap<String>, key: Seq<char>) -> Seq<char> {
    if credentials.to_map().dom().contains(key) {
        credentials.to_map()[key]@
    } else {
        Seq::empty()
    }
}

/// A source of authenticated users.
pub trait AuthProvider: Send + Sync {
    /// `r` is an answer this provider may give to `credentials`. Each provider
    /// says here what its `authenticate` returns; the framework passes the
    /// answer on unchanged.
    spec fn answers(&self, credentials: &StringMap<String>, r: Result<Option<User>, AuthError>) -> bool;

    /// Authenticates a user with the given credentials.
    fn authenticate(&self, credentials: &StringMap<String>) -> (r: Result<Option<User>, AuthError>)
        requires
            credentials_fit(credentials),
        ensures
            self.answers(credentials, r),
    ;
}

/// A local account: the user's details and the stored hash of the password.
#[derive(Debug)]
pub struct LocalUserRecord {
    pub id: String,
    pub username: String,
    pub email: Option<String>,
    pub password: String,
    pub roles: StringSet,
    pub permissions: StringSet,
    pub tenant_id: Option<String>,
}

/// `u` is the user the account `rec` stands for, without metadata.
pub open spec fn account_user(u: User, rec: LocalUserRecord) -> bool {
    &&& u.id@ == rec.id@
    &&& u.username@ == rec.username@
    &&& opt_view(u.email) == opt_view(rec.email)
    &&& u.roles.elems() == rec.roles.elems()
    &&& u.permissions.elems() == rec.permissions.elems()
    &&& u.metadata.keys().len() == 0
    &&& opt_view(u.tenant_id) == opt_view(rec.tenant_id)
}

/// What authenticating with `credentials` against the accounts gives: no
/// user without a username and a password, or for an unknown username, or
/// for a wrong password; the account's user for the right one; and the
/// hash's format error when the stored hash is malformed.
pub open spec fn local_auth_outcome(
    accounts: Map<Seq<char>, LocalUserRecord>,
    credentials: &StringMap<String>,
    r: Result<Option<User>, AuthError>,
) -> bool {
    let name = credential(credentials, "username"@);
    let password = credential(credentials, "password"@);
    if name.len() == 0 || password.len() == 0 {
        r matches Ok(None)
    } else if !accounts.dom().contains(name) {
        r matches Ok(None)
    } else {
        match password_check(password, accounts[name].password@) {
            PasswordCheck::Verdict(true) => r matches Ok(Some(u)) && account_user(u, accounts[name]),
            PasswordCheck::Verdict(false) => r matches Ok(None),
            PasswordCheck::BadIterations => r matches Err(AuthError::InvalidHashFormat),
            PasswordCheck::BadBase64 => r matches Err(AuthError::Base64(_)),
        }
    }
}

/// Local username/password authentication provider.
#[derive(Debug)]
pub struct LocalAuthProvider {
    users: StringMap<LocalUserRecord>,
    password_hasher: PBKDF2Hasher,
}

/// A copy of an optional set of strings; empty when none.
fn copy_set(s: Option<&StringSet>) -> (r: StringSet)
    ensures
        r.elems() == (match s {
            Some(x) => x.elems(),
            None => Seq::empty(),
        }),
{
    match s {
        Some(x) => x.clone(),
        None => StringSet::new(),
    }
}

/// A copy of an optional string slice.
fn owned_opt(s: Option<&str>) -> (r: Option<String>)
    ensures
        opt_view(r) == opt_str_view(s),
{
    match s {
        Some(x) => Some(x.to_owned()),
        None => None,
    }
}

impl LocalAuthProvider {
    #[verifier::type_invariant]
    spec fn hashes_fit(self) -> bool {
        &&& self.password_hasher.iteration_count() > 0
        &&& forall|k: Seq<char>| #[trigger] self.users.to_map().dom().contains(k) ==> {
            &&& within_input_limit(self.users.to_map()[k].password@.len() as int)
            &&& !names_zero_iterations(self.users.to_map()[k].password@)
        }
    }

    /// The accounts, by username.
    pub closed spec fn accounts(&self) -> Map<Seq<char>, LocalUserRecord> {
        self.users.to_map()
    }

    /// The iteration count with which passwords are hashed.
    pub closed spec fn hash_iterations(&self) -> u32 {
        self.password_hasher.iteration_count()
    }

    /// A provider with no accounts, hashing with 100,000 iterations.
    pub fn new() -> (r: LocalAuthProvider)
        ensures
            r.accounts() == Map::<Seq<char>, LocalUserRecord>::empty(),
            r.hash_iterations() == 100_000,
    {
        LocalAuthProvider { users: StringMap::new(), password_hasher: PBKDF2Hasher::new() }
    }

    /// Registers an account under `username` (replacing any account of that
    /// name) with a fresh random id and the hash of `password`, and returns
    /// its user.
    pub fn register_user(
        &mut self,
        username: &str,
        password: &str,
        email: Option<&str>,
        roles: Option<&StringSet>,
        permissions: Option<&StringSet>,
        tenant_id: Option<&str>,
    ) -> (r: Result<User, AuthError>)
        requires
            within_input_limit(utf8(password@).len() as int),
        ensures
            match r {
                Ok(u) => {
                    &&& exists|b: Seq<u8>| b.len() == 16 && u.id@ == base64_url(b)
                    &&& u.username@ == username@
                    &&& opt_view(u.email) == opt_str_view(email)
                    &&& u.roles.elems() == (match roles { Some(x) => x.elems(), None => Seq::empty() })
                    &&& u.permissions.elems() == (match permissions { Some(x) => x.elems(), None => Seq::empty() })
                    &&& opt_view(u.tenant_id) == opt_str_view(tenant_id)
                    &&& final(self).accounts() == old(self).accounts().insert(username@, final(self).accounts()[username@])
                    &&& account_user(u, final(self).accounts()[username@])
                    &&& final(self).accounts()[username@].username@ == username@
                    &&& final(self).accounts()[username@].roles.elems() == u.roles.elems()
                    &&& final(self).accounts()[username@].permissions.elems() == u.permissions.elems()
                    &&& password_check(password@, final(self).accounts()[username@].password@) == PasswordCheck::Verdict(true)
                    &&& exists|salt: Seq<u8>| salt.len() == 32 && final(self).accounts()[username@].password@ == hash_text(
                        old(self).hash_iterations(),
                        salt,
                        pbkdf2_hmac_sha256(old(self).hash_iterations(), salt, utf8(password@)),
                    )
                },
                Err(e) => e is Crypto && final(self).accounts() == old(self).accounts(),
            },
            final(self).hash_iterations() == old(self).hash_iterations(),
    {
        proof { use_type_invariant(&*self); }
        let user_id = random_id(16)?;
        let hashed = self.password_hasher.hash(password)?;
        let record = LocalUserRecord {
            id: user_id.clone(),
            username: username.to_owned(),
            email: owned_opt(email),
            password: hashed,
            roles: copy_set(roles),
            permissions: copy_set(permissions),
            tenant_id: owned_opt(tenant_id),
        };
        let user = User {
            id: user_id,
            username: username.to_owned(),
            email: owned_opt(email),
            roles: copy_set(roles),
            permissions: copy_set(permissions),
            metadata: StringMap::new(),
            tenant_id: owned_opt(tenant_id),
        };
        let ghost rec = record;
        let mut users = StringMap::new();
        std::mem::swap(&mut users, &mut self.users);
        users.insert(username.to_owned(), record);
        std::mem::swap(&mut users, &mut self.users);
        assert(self.accounts()[username@] == rec);
        Ok(user)
    }
}

impl AuthProvider for LocalAuthProvider {
    /// What authenticating against the accounts gives; see [`local_auth_outcome`].
    open spec fn answers(&self, credentials: &StringMap<String>, r: Result<Option<User>, AuthError>) -> bool {
        local_auth_outcome(self.accounts(), credentials, r)
    }

    fn authenticate(&self, credentials: &StringMap<String>) -> (r: Result<Option<User>, AuthError>)
        ensures
            local_auth_outcome(self.accounts(), credentials, r),
    {
        proof { use_type_invariant(self); }
        let username = match credentials.get("username") {
            Some(u) => u.clone(),
            None => String::new(),
        };
        let password = match credentials.get("password") {
            Some(p) => p.clone(),
            None => String::new(),
        };
        if username.as_str().unicode_len() == 0 || password.as_str().unicode_len() == 0 {
            return Ok(None);
        }
        proof {
            assert(credentials.to_map().dom().contains("password"@));
        }
        match self.users.get(username.as_str()) {
            Some(record) => {
                if !self.password_hasher.verify(password.as_str(), record.password.as_str())? {
                    return Ok(None);
                }
                Ok(Some(User {
                    id: record.id.clone(),
                    username: record.username.clone(),
                    email: copy_opt(&record.email),
                    roles: record.roles.clone(),
                    permissions: record.permissions.clone(),
                    metadata: StringMap::new(),
                    tenant_id: copy_opt(&record.tenant_id),
                }))
            },
            None => Ok(None),
        }
    }
}

/// The user that an API key stands for, if the credentials name a key.
pub open spec fn api_key_outcome(
    keys: Map<Seq<char>, User>,
    credentials: &StringMap<String>,
    r: Result<Option<User>, AuthError>,
) -> bool {
    if credentials.to_map().dom().contains("api_key"@) && keys.dom().contains(credentials.to_map()["api_key"@]@) {
        r matches Ok(Some(u)) && same_user(keys[credentials.to_map()["api_key"@]@], u)
    } else {
        r matches Ok(None)
    }
}

/// API key authentication provider.
#[derive(Debug)]
pub struct APIKeyAuthProvider {
    api_keys: StringMap<User>,
}

impl APIKeyAuthProvider {
    /// The users, by API key.
    pub closed spec fn key_users(&self) -> Map<Seq<char>, User> {
        self.api_keys.to_map()
    }

    /// A provider with no keys.
    pub fn new() -> (r: APIKeyAuthProvider)
        ensures
            r.key_users() == Map::<Seq<char>, User>::empty(),
    {
        APIKeyAuthProvider { api_keys: StringMap::new() }
    }

    /// Creates an API key for a copy of `user`: `ak_` and 32 random bytes in
    /// URL-safe base64.
    pub fn create_api_key(&mut self, user: &User) -> (r: Result<String, AuthError>)
        ensures
            match r {
                Ok(k) => {
                    &&& exists|b: Seq<u8>| b.len() == 32 && k@ == "ak_"@ + base64_url(b)
                    &&& k@.len() == 46
                    &&& final(self).key_users() == old(self).key_users().insert(k@, final(self).key_users()[k@])
                    &&& same_user(*user, final(self).key_users()[k@])
                },
                Err(e) => e is Crypto && final(self).key_users() == old(self).key_users(),
            },
    {
        let id = random_id(32)?;
        let key = concat("ak_", id.as_str());
        proof { reveal_strlit("ak_"); }
        let copy = user.clone();
        let ghost c = copy;
        self.api_keys.insert(key.clone(), copy);
        assert(self.key_users()[key@] == c);
        Ok(key)
    }

    /// Revokes an API key.
    pub fn revoke_api_key(&mut self, api_key: &str)
        ensures
            final(self).key_users() == old(self).key_users().remove(api_key@),
    {
        self.api_keys.remove(api_key);
    }
}

impl AuthProvider for APIKeyAuthProvider {
    /// What authenticating with an API key gives; see [`api_key_outcome`].
    open spec fn answers(&self, credentials: &StringMap<String>, r: Result<Option<User>, AuthError>) -> bool {
        api_key_outcome(self.key_users(), credentials, r)
    }

    fn authenticate(&self, credentials: &StringMap<String>) -> (r: Result<Option<User>, AuthError>)
        ensures
            api_key_outcome(self.key_users(), credentials, r),
    {
        match credentials.get("api_key") {
            Some(key) => match self.api_keys.get(key.as_str()) {
                Some(u) => Ok(Some(u.clone())),
                None => Ok(None),
            },
            None => Ok(None),
        }
    }
}

impl Default for LocalAuthProvider {
    /// A provider with no accounts, hashing with 100,000 iterations.
    fn default() -> (r: Self)
        ensures
            r.accounts() == Map::<Seq<char>, LocalUserRecord>::empty(),
            r.hash_iterations() == 100_000,
    {
        LocalAuthProvider::new()
    }
}

impl Default for APIKeyAuthProvider {
    /// A provider with no keys.
    fn default() -> (r: Self)
        ensures
            r.key_users() == Map::<Seq<char>, User>::empty(),
    {
        APIKeyAuthProvider::new()
    }
}

} // verus!
