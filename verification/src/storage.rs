//! Key/value storage for tokens, sessions and revocation records.

use vstd::prelude::*;
use crate::collections::{StringMap, string_views, no_duplicates};
use crate::strings::{has_prefix, starts_with, concat};

verus! {

/// A key/value store of strings.
pub trait StorageBackend {
    /// The stored entries.
    spec fn contents(&self) -> Map<Seq<char>, Seq<char>>;

    /// The value stored under `key`, if any.
    fn get(&self, key: &str) -> (r: Option<String>)
        ensures
            match r {
                Some(v) => self.contents().dom().contains(key@) && v@ == self.contents()[key@],
                None => !self.contents().dom().contains(key@),
            };

    /// Stores `value` under `key`; returns whether it was stored.
    fn set(&mut self, key: &str, value: String) -> (r: bool)
        ensures
            r ==> final(self).contents() == old(self).contents().insert(key@, value@),
            !r ==> final(self).contents() == old(self).contents();

    /// Deletes `key` and its value; returns whether there was one.
    fn delete(&mut self, key: &str) -> (r: bool)
        ensures
            r == old(self).contents().dom().contains(key@),
            final(self).contents() == old(self).contents().remove(key@);

    /// Whether `key` has a value.
    fn has(&self, key: &str) -> (r: bool)
        ensures
            r == self.contents().dom().contains(key@);

    /// All keys that begin with `prefix`, each once.
    fn keys(&self, prefix: &str) -> (r: Vec<String>)
        ensures
            no_duplicates(string_views(r@)),
            forall|k: Seq<char>| #[trigger] string_views(r@).contains(k)
                <==> (self.contents().dom().contains(k) && has_prefix(k, prefix@));

    /// Removes everything.
    fn clear(&mut self)
        ensures
            final(self).contents() == Map::<Seq<char>, Seq<char>>::empty();
}

/// In-memory storage backend.
#[derive(Debug)]
pub struct InMemoryStorage {
    data: StringMap<String>,
}

impl InMemoryStorage {
    /// An empty store.
    pub fn new() -> (r: InMemoryStorage)
        ensures
            r.contents() == Map::<Seq<char>, Seq<char>>::empty(),
    {
        let r = InMemoryStorage { data: StringMap::new() };
        assert(r.contents() =~= Map::<Seq<char>, Seq<char>>::empty());
        r
    }
}

impl Clone for InMemoryStorage {
    /// A store holding the same entries.
    fn clone(&self) -> (r: Self)
        ensures
            r.contents() == self.contents(),
    {
        let data = self.data.clone();
        proof {
            self.data.lemma_entries();
            data.lemma_entries();
            assert forall|i: int| 0 <= i < self.data.values().len() implies #[trigger] data.values()[i] == self.data.values()[i] by {
                assert(cloned::<String>(self.data.values()[i], data.values()[i]));
            }
            assert(data.values() =~= self.data.values());
        }
        let r = InMemoryStorage { data };
        assert(r.contents() =~= self.contents());
        r
    }
}

impl StorageBackend for InMemoryStorage {
    closed spec fn contents(&self) -> Map<Seq<char>, Seq<char>> {
        self.data.to_map().map_values(|v: String| v@)
    }

    fn get(&self, key: &str) -> (r: Option<String>) {
        match self.data.get(key) {
            Some(v) => Some(v.clone()),
            None => None,
        }
    }

    fn set(&mut self, key: &str, value: String) -> (r: bool)
        ensures
            r,
    {
        let ghost v = value@;
        self.data.insert(key.to_owned(), value);
        assert(self.contents() =~= old(self).contents().insert(key@, v));
        true
    }

    fn delete(&mut self, key: &str) -> (r: bool) {
        let r = self.data.remove(key);
        assert(self.contents() =~= old(self).contents().remove(key@));
        match r {
            Some(_) => true,
            None => false,
        }
    }

    fn has(&self, key: &str) -> (r: bool) {
        self.data.contains_key(key)
    }

    fn keys(&self, prefix: &str) -> (r: Vec<String>) {
        let mut out: Vec<String> = Vec::new();
        let n = self.data.len();
        let mut i: usize = 0;
        while i < n
            invariant
                n == self.data.keys().len(),
                i <= n,
                no_duplicates(self.data.keys()),
                no_duplicates(string_views(out@)),
                forall|k: Seq<char>| #[trigger] string_views(out@).contains(k)
                    <==> (exists|j: int| 0 <= j < i && self.data.keys()[j] == k) && has_prefix(k, prefix@),
            decreases n - i,
        {
            let key = self.data.key_at(i);
            if starts_with(key.as_str(), prefix) {
                let ghost before = string_views(out@);
                out.push(key.clone());
                proof {
                    assert(string_views(out@) =~= before.push(key@));
                    assert forall|j: int| 0 <= j < before.len() implies before[j] != key@ by {
                        assert(before.contains(before[j]));
                        let jj = choose|jj: int| 0 <= jj < i && self.data.keys()[jj] == before[j];
                        assert(self.data.keys()[i as int] == key@);
                    }
                    assert forall|k: Seq<char>| #[trigger] string_views(out@).contains(k)
                        <==> (exists|j: int| 0 <= j < i + 1 && self.data.keys()[j] == k) && has_prefix(k, prefix@) by {
                        if string_views(out@).contains(k) && k != key@ {
                            let p = string_views(out@).index_of(k);
                            assert(before[p] == k);
                            assert(before.contains(k));
                        }
                        if (exists|j: int| 0 <= j < i + 1 && self.data.keys()[j] == k) && has_prefix(k, prefix@) && k != key@ {
                            let j = choose|j: int| 0 <= j < i + 1 && self.data.keys()[j] == k;
                            assert(j != i);
                            assert(before.contains(k));
                            let p = before.index_of(k);
                            assert(string_views(out@)[p] == k);
                        }
                        if k == key@ {
                            assert(string_views(out@)[before.len() as int] == k);
                        }
                    }
                }
            } else {
                proof {
                    assert forall|k: Seq<char>| #[trigger] string_views(out@).contains(k)
                        <==> (exists|j: int| 0 <= j < i + 1 && self.data.keys()[j] == k) && has_prefix(k, prefix@) by {
                        if (exists|j: int| 0 <= j < i + 1 && self.data.keys()[j] == k) && has_prefix(k, prefix@) {
                            let j = choose|j: int| 0 <= j < i + 1 && self.data.keys()[j] == k;
                            assert(j != i);
                        }
                    }
                }
            }
            i += 1;
        }
        proof {
            assert forall|k: Seq<char>| #[trigger] string_views(out@).contains(k)
                <==> (self.contents().dom().contains(k) && has_prefix(k, prefix@)) by {
                if self.contents().dom().contains(k) {
                    assert(self.data.keys().contains(k));
                    let j = self.data.keys().index_of(k);
                    assert(self.data.keys()[j] == k);
                }
            }
        }
        out
    }

    fn clear(&mut self) {
        self.data = StringMap::new();
        assert(self.contents() =~= Map::<Seq<char>, Seq<char>>::empty());
    }
}

/// Key of the revocation record of a token value.
pub open spec fn revoked_key(token_value: Seq<char>) -> Seq<char> {
    "revoked:"@ + token_value
}

/// Key under which an opaque token is stored.
pub open spec fn token_key(token_value: Seq<char>) -> Seq<char> {
    "opaque:"@ + token_value
}

/// Key under which a session is stored.
pub open spec fn session_key(session_id: Seq<char>) -> Seq<char> {
    "session:"@ + session_id
}

/// Key of the list of a user's session ids.
pub open spec fn user_sessions_key(user_id: Seq<char>) -> Seq<char> {
    "user_sessions:"@ + user_id
}

/// Key of the active refresh token of a token family.
pub open spec fn refresh_family_key(family_id: Seq<char>) -> Seq<char> {
    "refresh_family:"@ + family_id
}

/// Key under which an opaque refresh token is stored.
pub open spec fn refresh_token_key(token_value: Seq<char>) -> Seq<char> {
    "refresh:"@ + token_value
}

/// Storage key of the revocation record of a token value.
pub fn storage_revoked_key(token_value: &str) -> (r: String)
    ensures
        r@ == revoked_key(token_value@),
{
    concat("revoked:", token_value)
}

/// Storage key of an opaque token.
pub fn storage_token_key(token_value: &str) -> (r: String)
    ensures
        r@ == token_key(token_value@),
{
    concat("opaque:", token_value)
}

/// Storage key of a session.
pub fn storage_session_key(session_id: &str) -> (r: String)
    ensures
        r@ == session_key(session_id@),
{
    concat("session:", session_id)
}

/// Storage key of a user's session list.
pub fn storage_user_sessions_key(user_id: &str) -> (r: String)
    ensures
        r@ == user_sessions_key(user_id@),
{
    concat("user_sessions:", user_id)
}

/// Storage key of a token family's active refresh token.
pub fn storage_refresh_family_key(family_id: &str) -> (r: String)
    ensures
        r@ == refresh_family_key(family_id@),
{
    concat("refresh_family:", family_id)
}

/// Storage key of an opaque refresh token.
pub fn storage_refresh_token_key(token_value: &str) -> (r: String)
    ensures
        r@ == refresh_token_key(token_value@),
{
    concat("refresh:", token_value)
}

impl Default for InMemoryStorage {
    /// An empty store.
    fn default() -> (r: Self)
        ensures
            r.contents() == Map::<Seq<char>, Seq<char>>::empty(),
    {
        InMemoryStorage::new()
    }
}

} // verus!
