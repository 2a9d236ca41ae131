//! The records the framework hands out: users, tokens and sessions.

use vstd::prelude::*;
use crate::collections::{StringMap, StringSet};
use crate::json::{JsonValue, duplicate_map, json_same};
use crate::strings::opt_view;
use crate::clock::current_time;

verus! {

/// Token types supported by the framework.
#[derive(Debug, Clone, Copy, PartialEq, Eq, Structural)]
pub enum TokenType {
    JWT,
    Opaque,
    Refresh,
}

/// Authentication methods.
#[derive(Debug, Clone, Copy, PartialEq, Eq, Structural)]
pub enum AuthMethod {
    Local,
    OAuth2,
    Oidc,
    Saml,
    ApiKey,
}

/// An authenticated user.
#[derive(Debug)]
pub struct User {
    pub id: String,
    pub username: String,
    pub email: Option<String>,
    pub roles: StringSet,
    pub permissions: StringSet,
    pub metadata: StringMap<JsonValue>,
    pub tenant_id: Option<String>,
}

/// Whether any of `names` is in `set`.
pub open spec fn any_member(set: Set<Seq<char>>, names: Seq<&str>) -> bool {
    exists|i: int| 0 <= i < names.len() && set.contains(#[trigger] names[i]@)
}

/// Whether all of `names` are in `set`.
pub open spec fn all_members(set: Set<Seq<char>>, names: Seq<&str>) -> bool {
    forall|i: int| 0 <= i < names.len() ==> set.contains(#[trigger] names[i]@)
}

impl User {
    /// A user with the given id and username, no email, roles, permissions,
    /// metadata or tenant.
    pub fn new(id: &str, username: &str) -> (r: User)
        ensures
            r.id@ == id@,
            r.username@ == username@,
            r.email is None,
            r.roles.elems().len() == 0,
            r.permissions.elems().len() == 0,
            r.metadata.keys().len() == 0,
            r.tenant_id is None,
    {
        User {
            id: id.to_owned(),
            username: username.to_owned(),
            email: None,
            roles: StringSet::new(),
            permissions: StringSet::new(),
            metadata: StringMap::new(),
            tenant_id: None,
        }
    }

    /// Whether the user has the role.
    pub fn has_role(&self, role: &str) -> (r: bool)
        ensures
            r == self.roles.members().contains(role@),
    {
        self.roles.contains(role)
    }

    /// Whether the user has the permission.
    pub fn has_permission(&self, permission: &str) -> (r: bool)
        ensures
            r == self.permissions.members().contains(permission@),
    {
        self.permissions.contains(permission)
    }

    /// Whether the user has at least one of the roles.
    pub fn has_any_role(&self, roles: &[&str]) -> (r: bool)
        ensures
            r == any_member(self.roles.members(), roles@),
    {
        let mut i: usize = 0;
        while i < roles.len()
            invariant
                i <= roles@.len(),
                forall|k: int| 0 <= k < i ==> !self.roles.members().contains(#[trigger] roles@[k]@),
            decreases roles@.len() - i,
        {
            if self.roles.contains(roles[i]) {
                return true;
            }
            i += 1;
        }
        false
    }

    /// Whether the user has every one of the roles.
    pub fn has_all_roles(&self, roles: &[&str]) -> (r: bool)
        ensures
            r == all_members(self.roles.members(), roles@),
    {
        let mut i: usize = 0;
        while i < roles.len()
            invariant
                i <= roles@.len(),
                forall|k: int| 0 <= k < i ==> self.roles.members().contains(#[trigger] roles@[k]@),
            decreases roles@.len() - i,
        {
            if !self.roles.contains(roles[i]) {
                assert(!self.roles.members().contains(roles@[i as int]@));
                return false;
            }
            i += 1;
        }
        true
    }
}

/// A copy of an optional string.
pub fn copy_opt(o: &Option<String>) -> (r: Option<String>)
    ensures
        opt_view(r) == opt_view(*o),
{
    match o {
        Some(s) => Some(s.clone()),
        None => None,
    }
}

/// `b` is a deep copy of `a`: the same identity, name, email, roles,
/// permissions, metadata and tenant.
pub open spec fn same_user(a: User, b: User) -> bool {
    &&& b.id@ == a.id@
    &&& b.username@ == a.username@
    &&& opt_view(b.email) == opt_view(a.email)
    &&& b.roles.elems() == a.roles.elems()
    &&& b.permissions.elems() == a.permissions.elems()
    &&& b.metadata.keys() == a.metadata.keys()
    &&& b.metadata.values().len() == a.metadata.values().len()
    &&& forall|i: int| 0 <= i < a.metadata.values().len()
        ==> json_same(a.metadata.values()[i], #[trigger] b.metadata.values()[i])
    &&& opt_view(b.tenant_id) == opt_view(a.tenant_id)
}

impl Clone for User {
    /// A deep copy of the user.
    fn clone(&self) -> (r: Self)
        ensures
            same_user(*self, r),
    {
        User {
            id: self.id.clone(),
            username: self.username.clone(),
            email: copy_opt(&self.email),
            roles: self.roles.clone(),
            permissions: self.permissions.clone(),
            metadata: duplicate_map(&self.metadata),
            tenant_id: copy_opt(&self.tenant_id),
        }
    }
}

/// An authentication token. Instants are nanoseconds since the Unix epoch.
#[derive(Debug)]
pub struct Token {
    pub value: String,
    pub token_type: TokenType,
    pub user_id: String,
    pub expires_at: u128,
    pub issued_at: u128,
    pub metadata: StringMap<JsonValue>,
}

impl Token {
    /// The token has expired at instant `now`.
    pub open spec fn is_expired_spec(&self, now: u128) -> bool {
        now > self.expires_at
    }

    /// Whether the token has expired at instant `now`.
    pub fn is_expired_at(&self, now: u128) -> (r: bool)
        ensures
            r == (now > self.expires_at),
    {
        now > self.expires_at
    }

    /// Whether the token has expired now. A clock before the Unix epoch
    /// precedes every expiry.
    pub fn is_expired(&self) -> (r: bool)
        ensures
            exists|now: u128| #[trigger] self.is_expired_spec(now) == r,
    {
        match current_time() {
            Some(now) => {
                let r = self.is_expired_at(now);
                assert(self.is_expired_spec(now) == r);
                r
            },
            None => {
                assert(self.is_expired_spec(0) == false);
                false
            },
        }
    }
}

/// A user session. Instants are nanoseconds since the Unix epoch.
#[derive(Debug)]
pub struct Session {
    pub id: String,
    pub user_id: String,
    pub device_id: Option<String>,
    pub ip_address: Option<String>,
    pub user_agent: Option<String>,
    pub created_at: u128,
    pub last_activity: u128,
    pub expires_at: Option<u128>,
    pub metadata: StringMap<JsonValue>,
}

/// A session with expiry `expires_at` has expired at instant `now`.
pub open spec fn session_expired_at(expires_at: Option<u128>, now: u128) -> bool {
    match expires_at {
        Some(e) => now > e,
        None => false,
    }
}

impl Session {
    /// Whether the session has expired at instant `now`.
    pub fn is_expired_at(&self, now: u128) -> (r: bool)
        ensures
            r == session_expired_at(self.expires_at, now),
    {
        match self.expires_at {
            Some(e) => now > e,
            None => false,
        }
    }

    /// Whether the session has expired now.
    pub fn is_expired(&self) -> (r: bool)
        ensures
            exists|now: u128| #[trigger] session_expired_at(self.expires_at, now) == r,
    {
        match current_time() {
            Some(now) => {
                let r = self.is_expired_at(now);
                assert(session_expired_at(self.expires_at, now) == r);
                r
            },
            None => {
                assert(session_expired_at(self.expires_at, 0) == false);
                false
            },
        }
    }

    /// Records activity at instant `now`.
    pub fn touch_at(&mut self, now: u128)
        ensures
            *final(self) == (Session { last_activity: now, ..*old(self) }),
    {
        self.last_activity = now;
    }

    /// Records activity now.
    pub fn touch(&mut self)
        ensures
            *final(self) == (Session { last_activity: final(self).last_activity, ..*old(self) }),
    {
        match current_time() {
            Some(now) => self.touch_at(now),
            None => {},
        }
    }
}

} // verus!
