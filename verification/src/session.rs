//! Sessions kept in storage as JSON records, with a per-user index of ids.

use vstd::prelude::*;
use crate::collections::{StringMap, string_views};
use crate::crypto::{base64_url, random_id};
use crate::error::AuthError;
use crate::hasher::utf8;
use crate::json::{
    JsonValue, json_canonical, json_get, json_parse, json_str, json_u64, json_text, json_strings, keys_sorted,
    parse_json, push_field, seq_char_le, seq_char_lt, write_json, strings_in, is_string_array,
    canonical_within, lemma_string_array,
};
use crate::jwt::{str_claim, u64_claim};
use crate::model::{Session, session_expired_at};
use crate::storage::{
    InMemoryStorage, StorageBackend, session_key, user_sessions_key, storage_session_key, storage_user_sessions_key,
};
use crate::strings::{opt_view, opt_str_view, has_prefix, str_eq};
use crate::tokens::{
    MAX_INSTANT, NANOS_PER_SEC, expiry_after, expiry_instant, representable, secs_of, whole_secs, secs_representable,
    instant_from_secs,
};
use crate::clock::current_time;

verus! {

/// The fields of a stored session record.
pub open spec fn session_fields() -> Set<Seq<char>> {
    set!["created_at"@, "device_id"@, "expires_at"@, "id"@, "ip_address"@, "last_activity"@, "metadata"@,
        "user_agent"@, "user_id"@]
}

/// `v` holds the optional text `o`: the string, or null when there is none.
pub open spec fn opt_text_matches(v: Option<JsonValue>, o: Option<String>) -> bool {
    match o {
        Some(s) => json_str(v) == Some(s@),
        None => v == Some(JsonValue::Null),
    }
}

/// `doc` is the stored record of session `x`, its instants in whole seconds
/// since the epoch and a missing expiry as null.
pub open spec fn session_doc_matches(doc: JsonValue, x: Session) -> bool {
    &&& doc matches JsonValue::Object(o) && keys_sorted(o.keys()) && o.to_map().dom() == session_fields()
    &&& json_str(json_get(doc, "id"@)) == Some(x.id@)
    &&& json_str(json_get(doc, "user_id"@)) == Some(x.user_id@)
    &&& opt_text_matches(json_get(doc, "device_id"@), x.device_id)
    &&& opt_text_matches(json_get(doc, "ip_address"@), x.ip_address)
    &&& opt_text_matches(json_get(doc, "user_agent"@), x.user_agent)
    &&& json_get(doc, "created_at"@) == Some(JsonValue::UInt(secs_of(x.created_at)))
    &&& json_get(doc, "last_activity"@) == Some(JsonValue::UInt(secs_of(x.last_activity)))
    &&& json_get(doc, "expires_at"@) == Some(
        match x.expires_at {
            Some(e) => JsonValue::UInt(secs_of(e)),
            None => JsonValue::Null,
        },
    )
    &&& json_get(doc, "metadata"@) == Some(JsonValue::Object(x.metadata))
}

/// The expiry a stored record names: its whole seconds, or none when it is
/// null, absent or not a number of seconds.
pub open spec fn doc_expiry(doc: JsonValue) -> Option<u128> {
    match json_u64(json_get(doc, "expires_at"@)) {
        Some(e) => Some((e * NANOS_PER_SEC) as u128),
        None => None,
    }
}

/// A stored record that reads as a session: string id and user id, and
/// creation, activity and any numeric expiry the clock can represent.
pub open spec fn session_doc_readable(doc: JsonValue) -> bool {
    &&& json_str(json_get(doc, "id"@)) is Some
    &&& json_str(json_get(doc, "user_id"@)) is Some
    &&& json_u64(json_get(doc, "created_at"@)) matches Some(c) && secs_representable(c)
    &&& json_u64(json_get(doc, "last_activity"@)) matches Some(l) && secs_representable(l)
    &&& (json_u64(json_get(doc, "expires_at"@)) matches Some(e) ==> secs_representable(e))
}

/// `x` is the session that the readable record `doc` describes, with last
/// activity `last`: optional texts that are not strings read as none, and
/// metadata that is not an object reads as empty.
pub open spec fn session_doc_reads(doc: JsonValue, x: Session, last: u128) -> bool {
    &&& json_str(json_get(doc, "id"@)) == Some(x.id@)
    &&& json_str(json_get(doc, "user_id"@)) == Some(x.user_id@)
    &&& opt_view(x.device_id) == json_str(json_get(doc, "device_id"@))
    &&& opt_view(x.ip_address) == json_str(json_get(doc, "ip_address"@))
    &&& opt_view(x.user_agent) == json_str(json_get(doc, "user_agent"@))
    &&& x.created_at == json_u64(json_get(doc, "created_at"@)).unwrap() * NANOS_PER_SEC
    &&& x.last_activity == last
    &&& x.expires_at == doc_expiry(doc)
    &&& match json_get(doc, "metadata"@) {
        Some(JsonValue::Object(m)) => x.metadata == m,
        _ => x.metadata.keys().len() == 0,
    }
}

/// The last activity a readable record names.
pub open spec fn doc_last_activity(doc: JsonValue) -> u128 {
    (json_u64(json_get(doc, "last_activity"@)).unwrap() * NANOS_PER_SEC) as u128
}

/// The instants of a session are ones the clock can represent.
pub open spec fn session_times_fit(x: Session) -> bool {
    &&& x.created_at <= MAX_INSTANT
    &&& x.last_activity <= MAX_INSTANT
    &&& (x.expires_at matches Some(e) ==> e <= MAX_INSTANT)
}

/// The order of the record's field names.
proof fn lemma_session_field_order()
    ensures
        seq_char_lt(Seq::<char>::empty(), "created_at"@),
        seq_char_lt("created_at"@, "device_id"@),
        seq_char_lt("device_id"@, "expires_at"@),
        seq_char_lt("expires_at"@, "id"@),
        seq_char_lt("id"@, "ip_address"@),
        seq_char_lt("ip_address"@, "last_activity"@),
        seq_char_lt("last_activity"@, "metadata"@),
        seq_char_lt("metadata"@, "user_agent"@),
        seq_char_lt("user_agent"@, "user_id"@),
        "created_at"@ != "device_id"@ && "created_at"@ != "expires_at"@ && "created_at"@ != "id"@,
        "created_at"@ != "ip_address"@ && "created_at"@ != "last_activity"@ && "created_at"@ != "metadata"@,
        "created_at"@ != "user_agent"@ && "created_at"@ != "user_id"@,
        "device_id"@ != "expires_at"@ && "device_id"@ != "id"@ && "device_id"@ != "ip_address"@,
        "device_id"@ != "last_activity"@ && "device_id"@ != "metadata"@ && "device_id"@ != "user_agent"@,
        "device_id"@ != "user_id"@,
        "expires_at"@ != "id"@ && "expires_at"@ != "ip_address"@ && "expires_at"@ != "last_activity"@,
        "expires_at"@ != "metadata"@ && "expires_at"@ != "user_agent"@ && "expires_at"@ != "user_id"@,
        "id"@ != "ip_address"@ && "id"@ != "last_activity"@ && "id"@ != "metadata"@ && "id"@ != "user_agent"@,
        "id"@ != "user_id"@,
        "ip_address"@ != "last_activity"@ && "ip_address"@ != "metadata"@ && "ip_address"@ != "user_agent"@,
        "ip_address"@ != "user_id"@,
        "last_activity"@ != "metadata"@ && "last_activity"@ != "user_agent"@ && "last_activity"@ != "user_id"@,
        "metadata"@ != "user_agent"@ && "metadata"@ != "user_id"@,
        "user_agent"@ != "user_id"@,
{
    reveal_strlit("created_at");
    reveal_strlit("device_id");
    reveal_strlit("expires_at");
    reveal_strlit("id");
    reveal_strlit("ip_address");
    reveal_strlit("last_activity");
    reveal_strlit("metadata");
    reveal_strlit("user_agent");
    reveal_strlit("user_id");
    reveal_with_fuel(seq_char_lt, 7);
    assert("id"@.drop_first() =~= seq!['d']);
    assert("ip_address"@.drop_first()[0] == 'p');
    let a = "user_agent"@;
    let b = "user_id"@;
    assert(a.drop_first().drop_first().drop_first().drop_first().drop_first()[0] == 'a');
    assert(b.drop_first().drop_first().drop_first().drop_first().drop_first()[0] == 'i');
    assert(a.drop_first().drop_first().drop_first().drop_first()[0] == '_');
    assert(b.drop_first().drop_first().drop_first().drop_first()[0] == '_');
}

/// The JSON value of an optional text.
fn opt_text(o: &Option<String>) -> (r: JsonValue)
    ensures
        opt_text_matches(Some(r), *o),
        r is Null || r is Str,
{
    match o {
        Some(s) => JsonValue::Str(s.clone()),
        None => JsonValue::Null,
    }
}

/// The stored record of a session; see [`session_doc_matches`]. A record
/// whose metadata is canonical reads back as the same document.
fn session_to_json(session: &mut Session) -> (r: String)
    requires
        session_times_fit(*old(session)),
    ensures
        *final(session) == *old(session),
        exists|doc: JsonValue| {
            &&& session_doc_matches(doc, *old(session))
            &&& utf8(r@) == json_text(doc)
            &&& canonical_within(JsonValue::Object(old(session).metadata), 31) ==> json_parse(utf8(r@)) == Some(doc)
        },
{
    proof { lemma_session_field_order(); }
    let ghost before = *session;
    let mut meta: StringMap<JsonValue> = StringMap::new();
    std::mem::swap(&mut meta, &mut session.metadata);
    let ghost meta_v = meta;
    let expires = match session.expires_at {
        Some(e) => JsonValue::UInt(whole_secs(e)),
        None => JsonValue::Null,
    };
    let mut m: StringMap<JsonValue> = StringMap::new();
    push_field(&mut m, "created_at", JsonValue::UInt(whole_secs(session.created_at)), Ghost(Seq::<char>::empty()));
    push_field(&mut m, "device_id", opt_text(&session.device_id), Ghost("created_at"@));
    push_field(&mut m, "expires_at", expires, Ghost("device_id"@));
    push_field(&mut m, "id", JsonValue::Str(session.id.clone()), Ghost("expires_at"@));
    push_field(&mut m, "ip_address", opt_text(&session.ip_address), Ghost("id"@));
    push_field(&mut m, "last_activity", JsonValue::UInt(whole_secs(session.last_activity)), Ghost("ip_address"@));
    push_field(&mut m, "metadata", JsonValue::Object(meta), Ghost("last_activity"@));
    push_field(&mut m, "user_agent", opt_text(&session.user_agent), Ghost("metadata"@));
    push_field(&mut m, "user_id", JsonValue::Str(session.user_id.clone()), Ghost("user_agent"@));
    let ghost mv = m;
    proof {
        assert(m.to_map().dom() =~= session_fields());
        if canonical_within(JsonValue::Object(meta_v), 31) {
            assert forall|k: Seq<char>| #![auto] m.to_map().dom().contains(k) implies canonical_within(m.to_map()[k], 31) by {
                if k != "metadata"@ {
                    crate::json::lemma_canonical_flat_scalar(m.to_map()[k], 31);
                }
            }
            crate::json::lemma_object_canonical(m);
        }
    }
    let doc = JsonValue::Object(m);
    let text = match write_json(&doc) {
        Ok(t) => t,
        Err(_) => String::new(),
    };
    let mut fields = match doc {
        JsonValue::Object(f) => f,
        _ => StringMap::new(),
    };
    assert(fields == mv);
    match fields.remove("metadata") {
        Some(JsonValue::Object(x)) => {
            session.metadata = x;
        },
        _ => {},
    }
    assert(session.metadata == meta_v);
    assert(*session == before);
    text
}

/// Reads a stored session record; see [`session_doc_reads`].
fn session_from_json(s: &str) -> (r: Option<Session>)
    ensures
        match json_parse(utf8(s@)) {
            Some(doc) => if session_doc_readable(doc) {
                r matches Some(x) && session_doc_reads(doc, x, doc_last_activity(doc))
            } else {
                r is None
            },
            None => r is None,
        },
{
    match parse_json(s.as_bytes()) {
        Ok(doc) => session_from_document(doc),
        Err(_) => None,
    }
}

/// Reads a parsed session record; see [`session_doc_reads`].
pub fn session_from_document(doc: JsonValue) -> (r: Option<Session>)
    ensures
        if session_doc_readable(doc) {
            r matches Some(x) && session_doc_reads(doc, x, doc_last_activity(doc))
        } else {
            r is None
        },
{
    let id = str_claim(&doc, "id")?;
    let user_id = str_claim(&doc, "user_id")?;
    let device_id = str_claim(&doc, "device_id");
    let ip_address = str_claim(&doc, "ip_address");
    let user_agent = str_claim(&doc, "user_agent");
    let created_secs = u64_claim(&doc, "created_at")?;
    let created_at = match instant_from_secs(created_secs) {
        Ok(t) => t,
        Err(_) => return None,
    };
    let last_secs = u64_claim(&doc, "last_activity")?;
    let last_activity = match instant_from_secs(last_secs) {
        Ok(t) => t,
        Err(_) => return None,
    };
    let expires_at = match u64_claim(&doc, "expires_at") {
        Some(e) => match instant_from_secs(e) {
            Ok(t) => Some(t),
            Err(_) => return None,
        },
        None => None,
    };
    let ghost d = doc;
    let metadata = match doc {
        JsonValue::Object(mut o) => match o.remove("metadata") {
            Some(JsonValue::Object(m)) => m,
            _ => StringMap::new(),
        },
        _ => StringMap::new(),
    };
    Some(Session { id, user_id, device_id, ip_address, user_agent, created_at, last_activity, expires_at, metadata })
}

/// Every item is a string.
pub open spec fn all_strings(items: Seq<JsonValue>) -> bool {
    forall|i: int| 0 <= i < items.len() ==> #[trigger] items[i] is Str
}

/// The session ids an index record lists, if it reads as a JSON array of
/// strings.
pub open spec fn index_ids(text: Seq<char>) -> Option<Seq<Seq<char>>> {
    match json_parse(utf8(text)) {
        Some(JsonValue::Array(items)) => if all_strings(items@) {
            Some(strings_in(items@))
        } else {
            None
        },
        _ => None,
    }
}

/// Reads the ids of an index record.
fn read_index(text: &String) -> (r: Option<Vec<String>>)
    ensures
        match r {
            Some(v) => index_ids(text@) == Some(string_views(v@)),
            None => index_ids(text@) is None,
        },
{
    let doc = match parse_json(text.as_str().as_bytes()) {
        Ok(d) => d,
        Err(_) => return None,
    };
    match &doc {
        JsonValue::Array(items) => {
            let mut i: usize = 0;
            while i < items.len()
                invariant
                    i <= items@.len(),
                    forall|j: int| 0 <= j < i ==> #[trigger] items@[j] is Str,
                    json_parse(utf8(text@)) == Some(JsonValue::Array(*items)),
                decreases items@.len() - i,
            {
                match &items[i] {
                    JsonValue::Str(_) => {},
                    _ => {
                        assert(!(items@[i as int] is Str));
                        return None;
                    },
                }
                i += 1;
            }
            doc.string_items()
        },
        _ => None,
    }
}

/// The index record listing `ids`.
fn write_index(ids: &Vec<String>) -> (r: String)
    ensures
        index_ids(r@) == Some(string_views(ids@)),
{
    let v = JsonValue::from_strings(ids);
    let ghost vv = v;
    proof { lemma_string_array(vv, string_views(ids@)); }
    let text = match write_json(&v) {
        Ok(t) => t,
        Err(_) => String::new(),
    };
    proof {
        if let JsonValue::Array(items) = vv {
            assert(all_strings(items@)) by {
                assert forall|i: int| 0 <= i < items@.len() implies #[trigger] items@[i] is Str by {
                    assert(items@[i] matches JsonValue::Str(_));
                }
            }
        }
    }
    text
}

/// `ids` without `id`, in order.
pub open spec fn drop_id(ids: Seq<Seq<char>>, id: Seq<char>) -> Seq<Seq<char>> {
    ids.filter(other_than(id))
}

/// Holds of every id but `id`.
pub open spec fn other_than(id: Seq<char>) -> spec_fn(Seq<char>) -> bool {
    |x: Seq<char>| x != id
}

/// Holds of every id not in `gone`.
pub open spec fn not_in(gone: Set<Seq<char>>) -> spec_fn(Seq<char>) -> bool {
    |x: Seq<char>| !gone.contains(x)
}

/// `ids` without `id`.
fn ids_without(ids: &Vec<String>, id: &str) -> (r: Vec<String>)
    ensures
        string_views(r@) == drop_id(string_views(ids@), id@),
{
    let mut out: Vec<String> = Vec::new();
    let mut i: usize = 0;
    while i < ids.len()
        invariant
            i <= ids@.len(),
            string_views(out@) == drop_id(string_views(ids@).take(i as int), id@),
        decreases ids@.len() - i,
    {
        proof {
            reveal(Seq::filter);
            let t = string_views(ids@).take(i + 1);
            assert(t.drop_last() =~= string_views(ids@).take(i as int));
        }
        if !str_eq(ids[i].as_str(), id) {
            out.push(ids[i].clone());
            assert(string_views(out@) =~= drop_id(string_views(ids@).take(i as int), id@).push(ids@[i as int]@));
        }
        i += 1;
    }
    assert(string_views(ids@).take(ids@.len() as int) =~= string_views(ids@));
    out
}

/// Session keys and index keys are told apart by their first character.
proof fn lemma_session_key_kinds()
    ensures
        forall|a: Seq<char>, b: Seq<char>| #[trigger] session_key(a) != #[trigger] user_sessions_key(b),
        forall|a: Seq<char>| has_prefix(#[trigger] session_key(a), "session:"@),
        forall|b: Seq<char>| !has_prefix(#[trigger] user_sessions_key(b), "session:"@),
        forall|k: Seq<char>| has_prefix(k, "session:"@) ==> !#[trigger] has_prefix(k, "user_sessions:"@),
        forall|b: Seq<char>| has_prefix(#[trigger] user_sessions_key(b), "user_sessions:"@),
{
    reveal_strlit("session:");
    reveal_strlit("user_sessions:");
    assert forall|a: Seq<char>, b: Seq<char>| #[trigger] session_key(a) != #[trigger] user_sessions_key(b) by {
        assert(session_key(a)[0] != user_sessions_key(b)[0]);
    }
    assert forall|a: Seq<char>| has_prefix(#[trigger] session_key(a), "session:"@) by {
        assert(session_key(a).subrange(0, 8) =~= "session:"@);
    }
    assert forall|b: Seq<char>| !has_prefix(#[trigger] user_sessions_key(b), "session:"@) by {
        assert(user_sessions_key(b).subrange(0, 8)[0] == 'u');
    }
    assert forall|k: Seq<char>| has_prefix(k, "session:"@) implies !#[trigger] has_prefix(k, "user_sessions:"@) by {
        assert(k.subrange(0, 8)[0] == 's');
        if k.len() >= 14 {
            assert(k.subrange(0, 14)[0] == k[0]);
            assert(k.subrange(0, 8)[0] == k[0]);
        }
    }
    assert forall|b: Seq<char>| has_prefix(#[trigger] user_sessions_key(b), "user_sessions:"@) by {
        assert(user_sessions_key(b).subrange(0, 14) =~= "user_sessions:"@);
    }
}

/// The ids the index under `ik` lists in `c`; none when it is absent or
/// unreadable.
pub open spec fn listed_ids(c: Map<Seq<char>, Seq<char>>, ik: Seq<char>) -> Seq<Seq<char>> {
    if c.dom().contains(ik) {
        match index_ids(c[ik]) {
            Some(l) => l,
            None => Seq::empty(),
        }
    } else {
        Seq::empty()
    }
}

/// `c2` is `c` after the readable index under `ik` drops `id`: the index goes
/// when no id is left, else it lists the rest in order. An absent or
/// unreadable index is left alone.
pub open spec fn index_dropped(c: Map<Seq<char>, Seq<char>>, c2: Map<Seq<char>, Seq<char>>, ik: Seq<char>, id: Seq<char>) -> bool {
    if c.dom().contains(ik) && index_ids(c[ik]) is Some {
        let rest = drop_id(index_ids(c[ik]).unwrap(), id);
        if rest.len() == 0 {
            c2 == c.remove(ik)
        } else {
            &&& c2.dom() == c.dom()
            &&& forall|k: Seq<char>| k != ik && #[trigger] c.dom().contains(k) ==> c2[k] == c[k]
            &&& index_ids(c2[ik]) == Some(rest)
        }
    } else {
        c2 == c
    }
}

/// Dropping an id from an index changes nothing but the index, and adds no key.
pub proof fn lemma_index_dropped_frame(c: Map<Seq<char>, Seq<char>>, c2: Map<Seq<char>, Seq<char>>, ik: Seq<char>, id: Seq<char>)
    requires
        index_dropped(c, c2, ik, id),
    ensures
        forall|k: Seq<char>| #[trigger] c2.dom().contains(k) ==> c.dom().contains(k),
        forall|k: Seq<char>| k != ik ==> (#[trigger] c2.dom().contains(k) <==> c.dom().contains(k)),
        forall|k: Seq<char>| k != ik && #[trigger] c2.dom().contains(k) ==> c2[k] == c[k],
{
}

/// The readable session record stored under `id` in `c`, if any.
pub open spec fn stored_session_doc(c: Map<Seq<char>, Seq<char>>, id: Seq<char>) -> Option<JsonValue> {
    if c.dom().contains(session_key(id)) {
        match json_parse(utf8(c[session_key(id)])) {
            Some(doc) => if session_doc_readable(doc) { Some(doc) } else { None },
            None => None,
        }
    } else {
        None
    }
}

/// The user a session record stored under `id` names, when the record is
/// JSON with a string user id.
pub open spec fn session_owner(c: Map<Seq<char>, Seq<char>>, id: Seq<char>) -> Option<Seq<char>> {
    if c.dom().contains(session_key(id)) {
        match json_parse(utf8(c[session_key(id)])) {
            Some(doc) => json_str(json_get(doc, "user_id"@)),
            None => None,
        }
    } else {
        None
    }
}

/// A stored record that reads as a session which has expired at `now`.
pub open spec fn expired_record(s: Seq<char>, now: u128) -> bool {
    &&& json_parse(utf8(s)) matches Some(doc)
    &&& session_doc_readable(doc)
    &&& session_expired_at(doc_expiry(doc), now)
}

/// The session records of `c2` are those of `c` but the ones that have
/// expired at `now`.
pub open spec fn expired_removed(c: Map<Seq<char>, Seq<char>>, c2: Map<Seq<char>, Seq<char>>, now: u128) -> bool {
    forall|k: Seq<char>| #[trigger] has_prefix(k, "session:"@)
        ==> (c2.dom().contains(k) <==> (c.dom().contains(k) && !expired_record(c[k], now)))
}

/// `c2` is `c` after the sessions that expired at `now` were removed: their
/// records are gone and each user's index no longer lists them.
pub open spec fn sessions_cleaned(c: Map<Seq<char>, Seq<char>>, c2: Map<Seq<char>, Seq<char>>, now: u128) -> bool {
    &&& expired_removed(c, c2, now)
    &&& forall|u: Seq<char>| #[trigger] index_without(c, c2, u, expired_ids_of(c, session_record_keys(), now, u))
}

/// The lifetime a session gets: `ttl`, or the default when `ttl` is zero.
pub open spec fn session_lifetime(default_ttl: i64, ttl: i64) -> i64 {
    if ttl == 0 { default_ttl } else { ttl }
}

/// `c2` is `c` after session `x` of `user_id` was created at `now` to live
/// `lifetime` seconds: its record is stored under its id and the id is
/// appended to the user's index.
pub open spec fn session_created(
    c: Map<Seq<char>, Seq<char>>,
    c2: Map<Seq<char>, Seq<char>>,
    x: Session,
    user_id: Seq<char>,
    device_id: Option<Seq<char>>,
    ip_address: Option<Seq<char>>,
    user_agent: Option<Seq<char>>,
    lifetime: i64,
    now: u128,
) -> bool {
    &&& now <= MAX_INSTANT
    &&& representable(expiry_after(now, lifetime))
    &&& x.user_id@ == user_id
    &&& opt_view(x.device_id) == device_id
    &&& opt_view(x.ip_address) == ip_address
    &&& opt_view(x.user_agent) == user_agent
    &&& x.created_at == now && x.last_activity == now
    &&& x.expires_at == Some(expiry_after(now, lifetime) as u128)
    &&& x.metadata.keys().len() == 0
    &&& c2.dom() == c.dom().insert(session_key(x.id@)).insert(user_sessions_key(user_id))
    &&& forall|k: Seq<char>| k != session_key(x.id@) && k != user_sessions_key(user_id) && #[trigger] c.dom().contains(k)
        ==> c2[k] == c[k]
    &&& json_parse(utf8(c2[session_key(x.id@)])) matches Some(doc) && session_doc_matches(doc, x)
    &&& index_ids(c2[user_sessions_key(user_id)]) == Some(listed_ids(c, user_sessions_key(user_id)).push(x.id@))
}

/// What reading session `id` at `now` gives and leaves in storage: nothing,
/// with storage unchanged, when there is no readable record or it has
/// expired; else the session with its activity set to `now`, stored back.
pub open spec fn session_fetched(
    c: Map<Seq<char>, Seq<char>>,
    c2: Map<Seq<char>, Seq<char>>,
    id: Seq<char>,
    now: u128,
    r: Option<Session>,
) -> bool {
    match stored_session_doc(c, id) {
        Some(doc) => if session_expired_at(doc_expiry(doc), now) {
            r is None && c2 == c
        } else {
            &&& r matches Some(x)
            &&& session_doc_reads(doc, x, now)
            &&& c2.dom() == c.dom()
            &&& forall|k: Seq<char>| k != session_key(id) && #[trigger] c.dom().contains(k) ==> c2[k] == c[k]
            &&& exists|d2: JsonValue| {
                &&& session_doc_matches(d2, x)
                &&& utf8(c2[session_key(id)]) == json_text(d2)
                &&& canonical_within(JsonValue::Object(x.metadata), 31) ==> json_parse(utf8(c2[session_key(id)])) == Some(d2)
            }
        },
        None => r is None && c2 == c,
    }
}

/// The session keys of the listed ids.
pub open spec fn listed_session_keys(ids: Seq<Seq<char>>) -> Set<Seq<char>> {
    Set::new(|k: Seq<char>| exists|i: int| 0 <= i < ids.len() && k == #[trigger] session_key(ids[i]))
}

/// `c2` is `c` after session `id` was revoked: its record goes and, when the
/// record names its user, the id leaves that user's index.
pub open spec fn session_revoked(c: Map<Seq<char>, Seq<char>>, c2: Map<Seq<char>, Seq<char>>, id: Seq<char>) -> bool {
    match session_owner(c, id) {
        Some(u) => index_dropped(c.remove(session_key(id)), c2, user_sessions_key(u), id),
        None => c2 == c.remove(session_key(id)),
    }
}

/// `c2` is `c` after the sessions of `user_id` were revoked: every session
/// its index lists goes, and the index too.
pub open spec fn user_sessions_revoked(c: Map<Seq<char>, Seq<char>>, c2: Map<Seq<char>, Seq<char>>, user_id: Seq<char>) -> bool {
    c2 == c.remove_keys(listed_session_keys(listed_ids(c, user_sessions_key(user_id))).insert(user_sessions_key(user_id)))
}

/// A copy of an optional string slice.
fn owned_text(s: Option<&str>) -> (r: Option<String>)
    ensures
        opt_view(r) == opt_str_view(s),
{
    match s {
        Some(x) => Some(x.to_owned()),
        None => None,
    }
}

/// The clock reading for session checks: zero before the epoch, and no later
/// than the last instant the clock can represent.
fn session_now() -> (r: u128)
    ensures
        r <= MAX_INSTANT,
{
    match current_time() {
        Some(t) => if t > MAX_INSTANT { MAX_INSTANT } else { t },
        None => 0,
    }
}

/// Manages user sessions.
#[derive(Debug)]
pub struct SessionManager {
    storage: InMemoryStorage,
    default_ttl: i64,
}

impl SessionManager {
    /// The storage contents.
    pub closed spec fn stored(&self) -> Map<Seq<char>, Seq<char>> {
        self.storage.contents()
    }

    /// The lifetime of sessions created with a zero lifetime.
    pub closed spec fn ttl(&self) -> i64 {
        self.default_ttl
    }

    /// A manager with the given default lifetime in seconds and empty
    /// in-memory storage.
    pub fn new(default_ttl: i64) -> (r: SessionManager)
        ensures
            r.ttl() == default_ttl,
            r.stored() == Map::<Seq<char>, Seq<char>>::empty(),
    {
        SessionManager { storage: InMemoryStorage::new(), default_ttl }
    }

    /// A manager with the given default lifetime keeping its records in
    /// `storage`.
    pub fn new_with_storage(default_ttl: i64, storage: InMemoryStorage) -> (r: SessionManager)
        ensures
            r.ttl() == default_ttl,
            r.stored() == storage.contents(),
    {
        SessionManager { storage, default_ttl }
    }

    /// Drops `session_id` from the index of `user_id`; see [`index_dropped`].
    fn drop_from_index(&mut self, user_id: &str, session_id: &str)
        ensures
            final(self).ttl() == old(self).ttl(),
            index_dropped(old(self).stored(), final(self).stored(), user_sessions_key(user_id@), session_id@),
    {
        let ik = storage_user_sessions_key(user_id);
        let ghost c0 = self.stored();
        match self.storage.get(ik.as_str()) {
            Some(t) => match read_index(&t) {
                Some(list) => {
                    let rest = ids_without(&list, session_id);
                    assert(string_views(rest@).len() == rest@.len());
                    assert(index_ids(c0[ik@]) == Some(string_views(list@)));
                    if rest.len() == 0 {
                        self.storage.delete(ik.as_str());
                        assert(self.stored() == c0.remove(ik@));
                    } else {
                        let text = write_index(&rest);
                        let ghost tv = text@;
                        self.storage.set(ik.as_str(), text);
                        assert(self.stored() == c0.insert(ik@, tv));
                        assert(self.stored().dom() =~= c0.dom());
                        assert(index_ids(self.stored()[ik@]) == Some(string_views(rest@)));
                    }
                },
                None => {},
            },
            None => {},
        }
    }

    /// Creates a session with id `id` for `user_id` at instant `now`, living
    /// `ttl` seconds (the default when zero; already expired when negative);
    /// see [`session_created`].
    pub fn create_session_at(
        &mut self,
        user_id: &str,
        device_id: Option<&str>,
        ip_address: Option<&str>,
        user_agent: Option<&str>,
        ttl: i64,
        now: u128,
        id: String,
    ) -> (r: Result<Session, AuthError>)
        requires
            now <= MAX_INSTANT,
        ensures
            final(self).ttl() == old(self).ttl(),
            match r {
                Ok(x) => x.id@ == id@ && session_created(old(self).stored(), final(self).stored(), x, user_id@,
                    opt_str_view(device_id), opt_str_view(ip_address), opt_str_view(user_agent),
                    session_lifetime(old(self).ttl(), ttl), now),
                Err(e) => e is TimeError && !representable(expiry_after(now, session_lifetime(old(self).ttl(), ttl)))
                    && final(self).stored() == old(self).stored(),
            },
    {
        proof { lemma_session_key_kinds(); }
        let lifetime = if ttl == 0 { self.default_ttl } else { ttl };
        let expires_at = expiry_instant(now, lifetime)?;
        let mut session = Session {
            id: id.clone(),
            user_id: user_id.to_owned(),
            device_id: owned_text(device_id),
            ip_address: owned_text(ip_address),
            user_agent: owned_text(user_agent),
            created_at: now,
            last_activity: now,
            expires_at: Some(expires_at),
            metadata: StringMap::new(),
        };
        proof {
            crate::json::lemma_object_within(session.metadata, 31);
        }
        let json = session_to_json(&mut session);
        let ghost c0 = self.stored();
        let ghost json_v = json@;
        self.storage.set(storage_session_key(id.as_str()).as_str(), json);
        let ghost c1 = self.stored();
        let index_key = storage_user_sessions_key(user_id);
        let mut list = match self.storage.get(index_key.as_str()) {
            Some(t) => match read_index(&t) {
                Some(l) => l,
                None => Vec::new(),
            },
            None => Vec::new(),
        };
        assert(string_views(list@) == listed_ids(c0, user_sessions_key(user_id@)));
        list.push(id.clone());
        assert(string_views(list@) =~= listed_ids(c0, user_sessions_key(user_id@)).push(id@));
        let text = write_index(&list);
        self.storage.set(index_key.as_str(), text);
        proof {
            assert(self.stored()[session_key(id@)] == json_v);
            assert(self.stored().dom() =~= c0.dom().insert(session_key(id@)).insert(user_sessions_key(user_id@)));
        }
        Ok(session)
    }

    /// Creates a session with a fresh random id at the current time.
    pub fn create_session(
        &mut self,
        user_id: &str,
        device_id: Option<&str>,
        ip_address: Option<&str>,
        user_agent: Option<&str>,
        ttl: i64,
    ) -> (r: Result<Session, AuthError>)
        ensures
            final(self).ttl() == old(self).ttl(),
            match r {
                Ok(x) => {
                    &&& exists|b: Seq<u8>| b.len() == 32 && x.id@ == base64_url(b)
                    &&& x.id@.len() == 43
                    &&& session_created(old(self).stored(), final(self).stored(), x, user_id@,
                        opt_str_view(device_id), opt_str_view(ip_address), opt_str_view(user_agent),
                        session_lifetime(old(self).ttl(), ttl), x.created_at)
                },
                Err(e) => (e is TimeError || e is Crypto) && final(self).stored() == old(self).stored(),
            },
    {
        let id = random_id(32)?;
        let now = match current_time() {
            Some(t) => t,
            None => return Err(AuthError::TimeError),
        };
        if now > MAX_INSTANT {
            return Err(AuthError::TimeError);
        }
        self.create_session_at(user_id, device_id, ip_address, user_agent, ttl, now, id)
    }

    /// Reads session `session_id` at instant `now`, recording the activity;
    /// see [`session_fetched`].
    pub fn get_session_at(&mut self, session_id: &str, now: u128) -> (r: Option<Session>)
        requires
            now <= MAX_INSTANT,
        ensures
            final(self).ttl() == old(self).ttl(),
            session_fetched(old(self).stored(), final(self).stored(), session_id@, now, r),
    {
        let key = storage_session_key(session_id);
        let s = match self.storage.get(key.as_str()) {
            Some(s) => s,
            None => return None,
        };
        let mut session = match session_from_json(s.as_str()) {
            Some(x) => x,
            None => return None,
        };
        if session.is_expired_at(now) {
            return None;
        }
        session.touch_at(now);
        let ghost c0 = self.stored();
        let json = session_to_json(&mut session);
        let ghost jv = json@;
        self.storage.set(key.as_str(), json);
        proof {
            assert(self.stored()[session_key(session_id@)] == jv);
            assert(self.stored().dom() =~= c0.dom());
        }
        Some(session)
    }

    /// Reads session `session_id` now, recording the activity.
    pub fn get_session(&mut self, session_id: &str) -> (r: Option<Session>)
        ensures
            final(self).ttl() == old(self).ttl(),
            exists|now: u128| now <= MAX_INSTANT
                && session_fetched(old(self).stored(), final(self).stored(), session_id@, now, r),
    {
        let now = session_now();
        self.get_session_at(session_id, now)
    }

    /// Removes session `session_id`, dropping it from its user's index.
    pub fn revoke_session(&mut self, session_id: &str)
        ensures
            final(self).ttl() == old(self).ttl(),
            session_revoked(old(self).stored(), final(self).stored(), session_id@),
    {
        proof { lemma_session_key_kinds(); }
        let ghost c0 = self.stored();
        let key = storage_session_key(session_id);
        match self.storage.get(key.as_str()) {
            Some(s) => match parse_json(s.as_str().as_bytes()) {
                Ok(v) => match str_claim(&v, "user_id") {
                    Some(u) => {
                        self.drop_from_index(u.as_str(), session_id);
                    },
                    None => {},
                },
                Err(_) => {},
            },
            None => {},
        }
        let ghost c1 = self.stored();
        self.storage.delete(key.as_str());
        proof {
            match session_owner(c0, session_id@) {
                Some(u) => {
                    let ik = user_sessions_key(u);
                    let sk = session_key(session_id@);
                    let c0r = c0.remove(sk);
                    assert(c0r.dom().contains(ik) == c0.dom().contains(ik));
                    if c0.dom().contains(ik) {
                        assert(c0r[ik] == c0[ik]);
                    }
                    if c0.dom().contains(ik) && index_ids(c0[ik]) is Some {
                        let rest = drop_id(index_ids(c0[ik]).unwrap(), session_id@);
                        if rest.len() == 0 {
                            assert(self.stored() =~= c0r.remove(ik));
                        } else {
                            assert(self.stored().dom() =~= c0r.dom());
                        }
                    } else {
                        assert(self.stored() =~= c0r);
                    }
                },
                None => {},
            }
        }
    }

    /// Removes every session the index of `user_id` lists, and the index.
    pub fn revoke_user_sessions(&mut self, user_id: &str)
        ensures
            final(self).ttl() == old(self).ttl(),
            user_sessions_revoked(old(self).stored(), final(self).stored(), user_id@),
    {
        proof { lemma_session_key_kinds(); }
        let ghost c0 = self.stored();
        let ghost ik = user_sessions_key(user_id@);
        let index_key = storage_user_sessions_key(user_id);
        let list = match self.storage.get(index_key.as_str()) {
            Some(t) => match read_index(&t) {
                Some(l) => l,
                None => Vec::new(),
            },
            None => Vec::new(),
        };
        let ghost ids = string_views(list@);
        assert(ids == listed_ids(c0, ik));
        let mut i: usize = 0;
        while i < list.len()
            invariant
                i <= list@.len(),
                ids == string_views(list@),
                self.stored() == c0.remove_keys(listed_session_keys(ids.take(i as int))),
                self.ttl() == old(self).ttl(),
            decreases list@.len() - i,
        {
            let ghost before = self.stored();
            self.storage.delete(storage_session_key(list[i].as_str()).as_str());
            proof {
                assert(ids[i as int] == list@[i as int]@);
                assert(listed_session_keys(ids.take(i + 1)) =~= listed_session_keys(ids.take(i as int)).insert(session_key(ids[i as int]))) by {
                    assert forall|k: Seq<char>| #[trigger] listed_session_keys(ids.take(i + 1)).contains(k)
                        <==> listed_session_keys(ids.take(i as int)).insert(session_key(ids[i as int])).contains(k) by {
                        if listed_session_keys(ids.take(i + 1)).contains(k) {
                            let j = choose|j: int| 0 <= j < ids.take(i + 1).len() && k == #[trigger] session_key(ids.take(i + 1)[j]);
                            if j < i {
                                assert(ids.take(i as int)[j] == ids.take(i + 1)[j]);
                            }
                        }
                        if listed_session_keys(ids.take(i as int)).contains(k) {
                            let j = choose|j: int| 0 <= j < ids.take(i as int).len() && k == #[trigger] session_key(ids.take(i as int)[j]);
                            assert(ids.take(i + 1)[j] == ids.take(i as int)[j]);
                        }
                        if k == session_key(ids[i as int]) {
                            assert(ids.take(i + 1)[i as int] == ids[i as int]);
                        }
                    }
                }
                assert(self.stored() =~= c0.remove_keys(listed_session_keys(ids.take(i + 1))));
            }
            i += 1;
        }
        self.storage.delete(index_key.as_str());
        proof {
            assert(ids.take(list@.len() as int) =~= ids);
            assert(self.stored() =~= c0.remove_keys(listed_session_keys(ids).insert(ik)));
        }
    }
}

/// The user and id an expired session record names, if the record is one
/// that has expired at `now`.
pub open spec fn expired_pair(s: Seq<char>, now: u128) -> Option<(Seq<char>, Seq<char>)> {
    if expired_record(s, now) {
        let doc = json_parse(utf8(s))->Some_0;
        Some((json_str(json_get(doc, "user_id"@))->Some_0, json_str(json_get(doc, "id"@))->Some_0))
    } else {
        None
    }
}

/// The ids of the sessions of `user` whose records, among those under
/// `keys`, have expired at `now`.
pub open spec fn expired_ids_of(c: Map<Seq<char>, Seq<char>>, keys: Set<Seq<char>>, now: u128, user: Seq<char>) -> Set<Seq<char>> {
    Set::new(|id: Seq<char>| exists|k: Seq<char>| keys.contains(k) && c.dom().contains(k)
        && #[trigger] expired_pair(c[k], now) == Some((user, id)))
}

/// The session record keys.
pub open spec fn session_record_keys() -> Set<Seq<char>> {
    Set::new(|k: Seq<char>| has_prefix(k, "session:"@))
}

/// The index of `user` in `c2` is that of `c` without the ids in `gone`: as
/// it was when `gone` is empty or the index is absent or unreadable; else
/// gone when no id is left, or listing the rest in order.
pub open spec fn index_without(c: Map<Seq<char>, Seq<char>>, c2: Map<Seq<char>, Seq<char>>, user: Seq<char>, gone: Set<Seq<char>>) -> bool {
    let ik = user_sessions_key(user);
    if gone == Set::<Seq<char>>::empty() || !(c.dom().contains(ik) && index_ids(c[ik]) is Some) {
        &&& c2.dom().contains(ik) == c.dom().contains(ik)
        &&& c.dom().contains(ik) ==> c2[ik] == c[ik]
    } else {
        let rest = index_ids(c[ik])->Some_0.filter(not_in(gone));
        if rest.len() == 0 {
            !c2.dom().contains(ik)
        } else {
            c2.dom().contains(ik) && index_ids(c2[ik]) == Some(rest)
        }
    }
}

/// Filtering with predicates that agree everywhere gives the same sequence.
proof fn lemma_filter_ext(s: Seq<Seq<char>>, p: spec_fn(Seq<char>) -> bool, q: spec_fn(Seq<char>) -> bool)
    requires
        forall|x: Seq<char>| #[trigger] p(x) == q(x),
    ensures
        s.filter(p) == s.filter(q),
    decreases s.len(),
{
    reveal(Seq::filter);
    if s.len() > 0 {
        lemma_filter_ext(s.drop_last(), p, q);
    }
}

/// Filtering twice is filtering by both predicates.
proof fn lemma_filter_twice(s: Seq<Seq<char>>, p: spec_fn(Seq<char>) -> bool, q: spec_fn(Seq<char>) -> bool)
    ensures
        s.filter(p).filter(q) == s.filter(|x: Seq<char>| p(x) && q(x)),
    decreases s.len(),
{
    reveal(Seq::filter);
    if s.len() > 0 {
        lemma_filter_twice(s.drop_last(), p, q);
        let a = s.drop_last().filter(p);
        if p(s.last()) {
            assert(a.push(s.last()).drop_last() =~= a);
        }
    }
}

/// Dropping one more id from an index, as the sessions' cleanup does.
proof fn lemma_index_without_step(
    c0: Map<Seq<char>, Seq<char>>,
    before: Map<Seq<char>, Seq<char>>,
    mid: Map<Seq<char>, Seq<char>>,
    user: Seq<char>,
    gone: Set<Seq<char>>,
    id: Seq<char>,
)
    requires
        index_without(c0, before, user, gone),
        index_dropped(before, mid, user_sessions_key(user), id),
    ensures
        index_without(c0, mid, user, gone.insert(id)),
{
    let ik = user_sessions_key(user);
    let g2 = gone.insert(id);
    assert(g2 != Set::<Seq<char>>::empty()) by {
        assert(g2.contains(id));
    }
    if c0.dom().contains(ik) && index_ids(c0[ik]) is Some {
        let l = index_ids(c0[ik])->Some_0;
        let p = not_in(gone);
        let q = other_than(id);
        let pg2 = not_in(g2);
        lemma_filter_twice(l, p, q);
        lemma_filter_ext(l, |x: Seq<char>| p(x) && q(x), pg2);
        assert(l.filter(pg2) == l.filter(p).filter(q));
        if gone == Set::<Seq<char>>::empty() {
            lemma_filter_ext(l, p, |x: Seq<char>| true);
            lemma_filter_all(l);
            assert(l.filter(p) == l);
        } else if l.filter(p).len() == 0 {
            assert(l.filter(p).filter(q) =~= Seq::<Seq<char>>::empty()) by {
                reveal(Seq::filter);
            }
        }
    }
}

/// Filtering by a predicate that always holds keeps the sequence.
proof fn lemma_filter_all(s: Seq<Seq<char>>)
    ensures
        s.filter(|x: Seq<char>| true) == s,
    decreases s.len(),
{
    reveal(Seq::filter);
    if s.len() > 0 {
        lemma_filter_all(s.drop_last());
        assert(s.drop_last().push(s.last()) =~= s);
    }
}

/// Index keys of different users differ.
proof fn lemma_user_sessions_key_injective(a: Seq<char>, b: Seq<char>)
    requires
        user_sessions_key(a) == user_sessions_key(b),
    ensures
        a == b,
{
    reveal_strlit("user_sessions:");
    let n = "user_sessions:"@.len() as int;
    assert(a =~= user_sessions_key(a).subrange(n, user_sessions_key(a).len() as int));
    assert(b =~= user_sessions_key(b).subrange(n, user_sessions_key(b).len() as int));
}

/// The expired ids of a user after one more record key is looked at.
proof fn lemma_expired_ids_step(c0: Map<Seq<char>, Seq<char>>, keys: Set<Seq<char>>, kk: Seq<char>, now: u128, u: Seq<char>)
    requires
        c0.dom().contains(kk),
    ensures
        expired_ids_of(c0, keys.insert(kk), now, u) == (match expired_pair(c0[kk], now) {
            Some(pair) => if pair.0 == u {
                expired_ids_of(c0, keys, now, u).insert(pair.1)
            } else {
                expired_ids_of(c0, keys, now, u)
            },
            None => expired_ids_of(c0, keys, now, u),
        }),
{
    let before = expired_ids_of(c0, keys, now, u);
    let after = expired_ids_of(c0, keys.insert(kk), now, u);
    let expected = match expired_pair(c0[kk], now) {
        Some(pair) => if pair.0 == u { before.insert(pair.1) } else { before },
        None => before,
    };
    assert forall|id: Seq<char>| after.contains(id) <==> expected.contains(id) by {
        if after.contains(id) {
            let k = choose|k: Seq<char>| keys.insert(kk).contains(k) && c0.dom().contains(k)
                && #[trigger] expired_pair(c0[k], now) == Some((u, id));
            if k != kk {
                assert(before.contains(id));
            }
        }
        if before.contains(id) {
            let k = choose|k: Seq<char>| keys.contains(k) && c0.dom().contains(k)
                && #[trigger] expired_pair(c0[k], now) == Some((u, id));
            assert(keys.insert(kk).contains(k));
        }
        if expected.contains(id) && !before.contains(id) {
            assert(expired_pair(c0[kk], now) == Some((u, id)));
            assert(keys.insert(kk).contains(kk));
        }
    }
    assert(after =~= expected);
}

/// What an index looks like depends only on its own entry.
proof fn lemma_index_without_frame(
    c0: Map<Seq<char>, Seq<char>>,
    m1: Map<Seq<char>, Seq<char>>,
    m2: Map<Seq<char>, Seq<char>>,
    u: Seq<char>,
    g: Set<Seq<char>>,
)
    requires
        index_without(c0, m1, u, g),
        m2.dom().contains(user_sessions_key(u)) == m1.dom().contains(user_sessions_key(u)),
        m1.dom().contains(user_sessions_key(u)) ==> m2[user_sessions_key(u)] == m1[user_sessions_key(u)],
    ensures
        index_without(c0, m2, u, g),
{
}

impl SessionManager {
    /// Removes every stored session that has expired at instant `now`,
    /// dropping each from its user's index; other records stay as they are.
    pub fn cleanup_expired_at(&mut self, now: u128)
        ensures
            final(self).ttl() == old(self).ttl(),
            expired_removed(old(self).stored(), final(self).stored(), now),
            forall|k: Seq<char>| #[trigger] final(self).stored().dom().contains(k) ==> old(self).stored().dom().contains(k),
            forall|k: Seq<char>| #[trigger] final(self).stored().dom().contains(k) && !has_prefix(k, "user_sessions:"@)
                ==> final(self).stored()[k] == old(self).stored()[k],
            forall|k: Seq<char>| #[trigger] old(self).stored().dom().contains(k) && !has_prefix(k, "session:"@)
                && !has_prefix(k, "user_sessions:"@) ==> final(self).stored().dom().contains(k),
            forall|u: Seq<char>| #[trigger] index_without(old(self).stored(), final(self).stored(), u,
                expired_ids_of(old(self).stored(), session_record_keys(), now, u)),
    {
        proof { lemma_session_key_kinds(); }
        let ghost c0 = self.stored();
        let keys = self.storage.keys("session:");
        proof {
            assert forall|u: Seq<char>| #[trigger] index_without(c0, self.stored(), u,
                expired_ids_of(c0, string_views(keys@).take(0).to_set(), now, u)) by {
                assert(expired_ids_of(c0, string_views(keys@).take(0).to_set(), now, u) =~= Set::<Seq<char>>::empty());
            }
        }
        let ghost kv = string_views(keys@);
        let mut i: usize = 0;
        while i < keys.len()
            invariant
                i <= keys@.len(),
                kv == string_views(keys@),
                crate::collections::no_duplicates(kv),
                forall|k: Seq<char>| #[trigger] kv.contains(k) <==> (c0.dom().contains(k) && has_prefix(k, "session:"@)),
                forall|k: Seq<char>| #[trigger] has_prefix(k, "session:"@) ==> (self.stored().dom().contains(k)
                    <==> (c0.dom().contains(k) && !(kv.take(i as int).contains(k) && expired_record(c0[k], now)))),
                forall|k: Seq<char>| #[trigger] self.stored().dom().contains(k) ==> c0.dom().contains(k),
                forall|k: Seq<char>| #[trigger] self.stored().dom().contains(k) && !has_prefix(k, "user_sessions:"@)
                    ==> self.stored()[k] == c0[k],
                forall|k: Seq<char>| #[trigger] c0.dom().contains(k) && !has_prefix(k, "session:"@)
                    && !has_prefix(k, "user_sessions:"@) ==> self.stored().dom().contains(k),
                forall|k: Seq<char>| has_prefix(k, "session:"@) ==> !#[trigger] has_prefix(k, "user_sessions:"@),
                forall|b: Seq<char>| !has_prefix(#[trigger] user_sessions_key(b), "session:"@),
                forall|b: Seq<char>| has_prefix(#[trigger] user_sessions_key(b), "user_sessions:"@),
                forall|u: Seq<char>| #[trigger] index_without(c0, self.stored(), u,
                    expired_ids_of(c0, kv.take(i as int).to_set(), now, u)),
                self.ttl() == old(self).ttl(),
            decreases keys@.len() - i,
        {
            let key = &keys[i];
            let ghost kk = key@;
            let ghost before = self.stored();
            proof {
                assert(kv[i as int] == kk);
                assert(kv.contains(kk));
                if kv.take(i as int).contains(kk) {
                    let j = kv.take(i as int).index_of(kk);
                    assert(kv[j] == kv[i as int]);
                }
                assert(before.dom().contains(kk));
            }
            let ghost mut removed = false;
            let ghost mut mid = before;
            let ghost mut owner = Seq::<char>::empty();
            let ghost mut sid = Seq::<char>::empty();
            match self.storage.get(key.as_str()) {
                Some(s) => match session_from_json(s.as_str()) {
                    Some(session) => {
                        if session.is_expired_at(now) {
                            proof { removed = true; }
                            match parse_json(s.as_str().as_bytes()) {
                                Ok(v) => match str_claim(&v, "user_id") {
                                    Some(u) => {
                                        self.drop_from_index(u.as_str(), session.id.as_str());
                                        proof {
                                            lemma_index_dropped_frame(before, self.stored(), user_sessions_key(u@), session.id@);
                                            mid = self.stored();
                                            owner = u@;
                                            sid = session.id@;
                                            assert(expired_pair(c0[kk], now) == Some((owner, sid)));
                                        }
                                    },
                                    None => {},
                                },
                                Err(_) => {},
                            }
                            self.storage.delete(key.as_str());
                        }
                    },
                    None => {},
                },
                None => {},
            }
            proof {
                assert(kv.take(i + 1) =~= kv.take(i as int).push(kk));
                kv.take(i as int).lemma_push_to_set_commute(kk);
                assert(kv.take(i + 1).to_set() == kv.take(i as int).to_set().insert(kk));
                assert(removed == expired_record(c0[kk], now));
                assert forall|u: Seq<char>| #[trigger] index_without(c0, self.stored(), u,
                    expired_ids_of(c0, kv.take(i + 1).to_set(), now, u)) by {
                    let g = expired_ids_of(c0, kv.take(i as int).to_set(), now, u);
                    lemma_expired_ids_step(c0, kv.take(i as int).to_set(), kk, now, u);
                    assert(index_without(c0, before, u, g));
                    if removed {
                        assert(expired_pair(c0[kk], now) == Some((owner, sid)));
                        if u == owner {
                            lemma_index_without_step(c0, before, mid, u, g, sid);
                            lemma_index_without_frame(c0, mid, self.stored(), u, g.insert(sid));
                        } else {
                            if user_sessions_key(u) == user_sessions_key(owner) {
                                lemma_user_sessions_key_injective(u, owner);
                            }
                            lemma_index_without_frame(c0, before, self.stored(), u, g);
                        }
                    } else {
                        lemma_index_without_frame(c0, before, self.stored(), u, g);
                    }
                }
                assert(self.stored().dom().contains(kk) == !removed);
                assert forall|k: Seq<char>| #[trigger] has_prefix(k, "session:"@) implies (self.stored().dom().contains(k)
                    <==> (c0.dom().contains(k) && !(kv.take(i + 1).contains(k) && expired_record(c0[k], now)))) by {
                    if k != kk {
                        assert(kv.take(i + 1).contains(k) == kv.take(i as int).contains(k)) by {
                            if kv.take(i + 1).contains(k) {
                                let j = kv.take(i + 1).index_of(k);
                                assert(kv.take(i as int)[j] == k);
                            }
                            if kv.take(i as int).contains(k) {
                                let j = kv.take(i as int).index_of(k);
                                assert(kv.take(i + 1)[j] == k);
                            }
                        }
                        assert(self.stored().dom().contains(k) == before.dom().contains(k));
                    } else {
                        assert(kv.take(i + 1)[i as int] == kk);
                    }
                }
            }
            i += 1;
        }
        proof {
            assert(kv.take(keys@.len() as int) =~= kv);
            assert forall|u: Seq<char>| #[trigger] index_without(c0, self.stored(), u,
                expired_ids_of(c0, session_record_keys(), now, u)) by {
                assert(expired_ids_of(c0, kv.to_set(), now, u) =~= expired_ids_of(c0, session_record_keys(), now, u)) by {
                    assert forall|id: Seq<char>| expired_ids_of(c0, kv.to_set(), now, u).contains(id)
                        <==> expired_ids_of(c0, session_record_keys(), now, u).contains(id) by {
                        if expired_ids_of(c0, session_record_keys(), now, u).contains(id) {
                            let k = choose|k: Seq<char>| session_record_keys().contains(k) && c0.dom().contains(k)
                                && #[trigger] expired_pair(c0[k], now) == Some((u, id));
                            assert(kv.contains(k));
                        }
                        if expired_ids_of(c0, kv.to_set(), now, u).contains(id) {
                            let k = choose|k: Seq<char>| kv.to_set().contains(k) && c0.dom().contains(k)
                                && #[trigger] expired_pair(c0[k], now) == Some((u, id));
                            assert(kv.contains(k));
                            assert(session_record_keys().contains(k));
                        }
                    }
                }
            }
        }
    }

    /// Removes every stored session that has expired now.
    pub fn cleanup_expired(&mut self)
        ensures
            final(self).ttl() == old(self).ttl(),
            exists|now: u128| now <= MAX_INSTANT && #[trigger] sessions_cleaned(old(self).stored(), final(self).stored(), now),
            forall|k: Seq<char>| #[trigger] final(self).stored().dom().contains(k) ==> old(self).stored().dom().contains(k),
            forall|k: Seq<char>| #[trigger] final(self).stored().dom().contains(k) && !has_prefix(k, "user_sessions:"@)
                ==> final(self).stored()[k] == old(self).stored()[k],
            forall|k: Seq<char>| #[trigger] old(self).stored().dom().contains(k) && !has_prefix(k, "session:"@)
                && !has_prefix(k, "user_sessions:"@) ==> final(self).stored().dom().contains(k),
    {
        let now = session_now();
        self.cleanup_expired_at(now);
        assert(sessions_cleaned(old(self).stored(), self.stored(), now));
    }
}

impl Default for SessionManager {
    /// A manager whose sessions live an hour by default, with empty storage.
    fn default() -> (r: Self)
        ensures
            r.ttl() == 3600,
            r.stored() == Map::<Seq<char>, Seq<char>>::empty(),
    {
        SessionManager::new(3600)
    }
}

} // verus!
