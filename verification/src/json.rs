//! JSON documents as plain values, and their text form.

use vstd::prelude::*;
use crate::collections::{StringMap, StringSet, string_views};

verus! {

/// A JSON value.
#[derive(Debug)]
pub enum JsonValue {
    Null,
    Bool(bool),
    /// A number that is a non-negative integer fitting in 64 bits.
    UInt(u64),
    /// A negative integer fitting in 64 bits.
    NegInt(i64),
    /// Any other number.
    Float(serde_json::Number),
    Str(String),
    Array(Vec<JsonValue>),
    Object(StringMap<JsonValue>),
}

#[verifier::external_type_specification]
#[verifier::external_body]
pub struct ExJsonNumber(serde_json::Number);

/// `serde_json::Number` derives `Clone` over its plain fields: the copy is
/// the same number.
pub assume_specification[ <serde_json::Number as Clone>::clone ](n: &serde_json::Number) -> (r: serde_json::Number)
    ensures
        r == *n,
;

#[verifier::external_type_specification]
#[verifier::external_body]
pub struct ExJsonDocument(serde_json::Value);

#[verifier::external_type_specification]
#[verifier::external_body]
pub struct ExJsonError(serde_json::Error);

/// Lexicographic order on character sequences, by code point.
pub open spec fn seq_char_lt(a: Seq<char>, b: Seq<char>) -> bool
    decreases a.len(),
{
    if a.len() == 0 {
        b.len() > 0
    } else if b.len() == 0 {
        false
    } else if a[0] != b[0] {
        (a[0] as u32) < (b[0] as u32)
    } else {
        seq_char_lt(a.drop_first(), b.drop_first())
    }
}

/// `a` is before or equal to `b` in lexicographic order.
pub open spec fn seq_char_le(a: Seq<char>, b: Seq<char>) -> bool {
    a == b || seq_char_lt(a, b)
}

/// Lexicographic order is transitive.
pub proof fn lemma_char_lt_transitive(a: Seq<char>, b: Seq<char>, c: Seq<char>)
    requires
        seq_char_lt(a, b),
        seq_char_lt(b, c),
    ensures
        seq_char_lt(a, c),
    decreases a.len(),
{
    if a.len() > 0 && b.len() > 0 && c.len() > 0 && a[0] == b[0] && b[0] == c[0] {
        lemma_char_lt_transitive(a.drop_first(), b.drop_first(), c.drop_first());
    }
}

/// The keys are in strictly increasing order.
pub open spec fn keys_sorted(keys: Seq<Seq<char>>) -> bool {
    forall|i: int, j: int| 0 <= i < j < keys.len() ==> seq_char_lt(keys[i], keys[j])
}

/// `v` nests arrays and objects at most `depth` deep, keeps object keys in
/// increasing order, and holds no numbers but integers.
pub closed spec fn canonical_within(v: JsonValue, depth: nat) -> bool
    decreases v,
{
    match v {
        JsonValue::NegInt(n) => n < 0,
        JsonValue::Float(_) => false,
        JsonValue::Array(items) => depth > 0 && forall|i: int|
            0 <= i < items.len() ==> canonical_within(#[trigger] items@[i], (depth - 1) as nat),
        JsonValue::Object(m) => {
            &&& depth > 0
            &&& keys_sorted(m.keys())
            &&& forall|i: int|
                0 <= i < m.entries.len() ==> canonical_within(#[trigger] m.entries@[i].1, (depth - 1) as nat)
        },
        _ => true,
    }
}

/// A value that its text form gives back exactly when read again.
pub open spec fn json_canonical(v: JsonValue) -> bool {
    canonical_within(v, 32)
}

/// What `serde_json` reads from the bytes `text`, if they hold a JSON document.
pub uninterp spec fn json_parse(text: Seq<u8>) -> Option<JsonValue>;

/// The compact JSON text that `serde_json` writes for `v`.
pub uninterp spec fn json_text(v: JsonValue) -> Seq<u8>;

/// The entry for `key` of an object; nothing for other values.
pub open spec fn json_get(v: JsonValue, key: Seq<char>) -> Option<JsonValue> {
    match v {
        JsonValue::Object(m) => if m.to_map().dom().contains(key) {
            Some(m.to_map()[key])
        } else {
            None
        },
        _ => None,
    }
}

/// The characters of a string value.
pub open spec fn json_str(v: Option<JsonValue>) -> Option<Seq<char>> {
    match v {
        Some(JsonValue::Str(s)) => Some(s@),
        _ => None,
    }
}

/// The number of a non-negative integer value.
pub open spec fn json_u64(v: Option<JsonValue>) -> Option<u64> {
    match v {
        Some(JsonValue::UInt(n)) => Some(n),
        _ => None,
    }
}

/// The string items of a sequence of values, in order; other items are skipped.
pub open spec fn strings_in(items: Seq<JsonValue>) -> Seq<Seq<char>>
    decreases items.len(),
{
    if items.len() == 0 {
        Seq::empty()
    } else {
        let rest = strings_in(items.drop_last());
        match items.last() {
            JsonValue::Str(s) => rest.push(s@),
            _ => rest,
        }
    }
}

/// The string items of an array value.
pub open spec fn json_strings(v: Option<JsonValue>) -> Option<Seq<Seq<char>>> {
    match v {
        Some(JsonValue::Array(items)) => Some(strings_in(items@)),
        _ => None,
    }
}

/// An array of the given strings.
pub open spec fn is_string_array(v: JsonValue, items: Seq<Seq<char>>) -> bool {
    match v {
        JsonValue::Array(a) => a@.len() == items.len() && forall|i: int|
            0 <= i < items.len() ==> (#[trigger] a@[i] matches JsonValue::Str(s) && s@ == items[i]),
        _ => false,
    }
}

proof fn lemma_strings_in_all(items: Seq<JsonValue>, strs: Seq<Seq<char>>)
    requires
        items.len() == strs.len(),
        forall|i: int| 0 <= i < strs.len() ==> (#[trigger] items[i] matches JsonValue::Str(s) && s@ == strs[i]),
    ensures
        strings_in(items) == strs,
    decreases items.len(),
{
    if items.len() > 0 {
        lemma_strings_in_all(items.drop_last(), strs.drop_last());
        assert(items[items.len() - 1] matches JsonValue::Str(s) && s@ == strs[strs.len() - 1]);
        assert(strs =~= strs.drop_last().push(strs.last()));
    }
}

proof fn lemma_char_lt_irreflexive(a: Seq<char>)
    ensures
        !seq_char_lt(a, a),
    decreases a.len(),
{
    if a.len() > 0 {
        lemma_char_lt_irreflexive(a.drop_first());
    }
}

/// No sequence is before itself.
pub proof fn lemma_char_lt_irreflexive_pub(a: Seq<char>)
    ensures
        !seq_char_lt(a, a),
{
    lemma_char_lt_irreflexive(a);
}

proof fn lemma_sorted_distinct(keys: Seq<Seq<char>>)
    requires
        keys_sorted(keys),
    ensures
        crate::collections::no_duplicates(keys),
{
    assert forall|i: int, j: int| 0 <= i < keys.len() && 0 <= j < keys.len() && i != j implies keys[i] != keys[j] by {
        lemma_char_lt_irreflexive(keys[i]);
        lemma_char_lt_irreflexive(keys[j]);
    }
}

/// An array of strings reads back as those strings.
pub proof fn lemma_string_array(v: JsonValue, items: Seq<Seq<char>>)
    requires
        is_string_array(v, items),
    ensures
        json_strings(Some(v)) == Some(items),
        json_canonical(v),
{
    if let JsonValue::Array(a) = v {
        lemma_strings_in_all(a@, items);
        assert forall|i: int| 0 <= i < a.len() implies canonical_within(#[trigger] a@[i], 31) by {
            assert(a@[i] matches JsonValue::Str(_));
        }
    }
}

/// An object whose keys are in increasing order and whose values are
/// canonical scalars or string arrays is canonical.
pub proof fn lemma_flat_object_canonical(m: StringMap<JsonValue>)
    requires
        keys_sorted(m.keys()),
        forall|k: Seq<char>| #![auto] m.to_map().dom().contains(k) ==> {
            let x = m.to_map()[k];
            x is Null || x is Bool || x is UInt || x is Str || exists|s: Seq<Seq<char>>| is_string_array(x, s)
        },
    ensures
        json_canonical(JsonValue::Object(m)),
{
    m.lemma_entries();
    lemma_sorted_distinct(m.keys());
    m.lemma_shape();
    assert forall|i: int| 0 <= i < m.entries@.len() implies canonical_within(#[trigger] m.entries@[i].1, 31) by {
        m.lemma_to_map_at(i);
        let x = m.entries@[i].1;
        assert(x == m.to_map()[m.keys()[i]]);
        assert(m.to_map().dom().contains(m.keys()[i]));
        if !(x is Null || x is Bool || x is UInt || x is Str) {
            let s = choose|s: Seq<Seq<char>>| is_string_array(x, s);
            lemma_string_array(x, s);
            if let JsonValue::Array(a) = x {
                assert forall|j: int| 0 <= j < a.len() implies canonical_within(#[trigger] a@[j], 30) by {
                    assert(a@[j] matches JsonValue::Str(_));
                }
            }
        }
    }
}

/// An object whose keys are in increasing order and whose values are
/// canonical, and nested at most one level less deep, is canonical.
pub proof fn lemma_object_canonical(m: StringMap<JsonValue>)
    requires
        keys_sorted(m.keys()),
        forall|k: Seq<char>| #![auto] m.to_map().dom().contains(k) ==> canonical_within(m.to_map()[k], 31),
    ensures
        json_canonical(JsonValue::Object(m)),
{
    m.lemma_entries();
    lemma_sorted_distinct(m.keys());
    m.lemma_shape();
    assert forall|i: int| 0 <= i < m.entries@.len() implies canonical_within(#[trigger] m.entries@[i].1, 31) by {
        m.lemma_to_map_at(i);
        assert(m.to_map().dom().contains(m.keys()[i]));
        assert(m.entries@[i].1 == m.to_map()[m.keys()[i]]);
    }
}

/// Canonical values nested at most `d` deep stay canonical when nested deeper
/// limits are allowed.
pub proof fn lemma_canonical_flat_scalar(v: JsonValue, d: nat)
    requires
        v is Null || v is Bool || v is UInt || v is Str,
    ensures
        canonical_within(v, d),
{
}

/// A string array is canonical at any positive depth.
pub proof fn lemma_string_array_within(v: JsonValue, items: Seq<Seq<char>>, d: nat)
    requires
        is_string_array(v, items),
        d > 0,
    ensures
        canonical_within(v, d),
{
    if let JsonValue::Array(a) = v {
        assert forall|i: int| 0 <= i < a.len() implies canonical_within(#[trigger] a@[i], (d - 1) as nat) by {
            assert(a@[i] matches JsonValue::Str(_));
        }
    }
}

/// An object of depth-limited values is canonical one level up.
pub proof fn lemma_object_within(m: StringMap<JsonValue>, d: nat)
    requires
        d > 0,
        keys_sorted(m.keys()),
        forall|k: Seq<char>| #![auto] m.to_map().dom().contains(k) ==> canonical_within(m.to_map()[k], (d - 1) as nat),
    ensures
        canonical_within(JsonValue::Object(m), d),
{
    m.lemma_entries();
    lemma_sorted_distinct(m.keys());
    m.lemma_shape();
    assert forall|i: int| 0 <= i < m.entries@.len() implies canonical_within(#[trigger] m.entries@[i].1, (d - 1) as nat) by {
        m.lemma_to_map_at(i);
        assert(m.to_map().dom().contains(m.keys()[i]));
        assert(m.entries@[i].1 == m.to_map()[m.keys()[i]]);
    }
}

/// Adds `key` with `value` after the existing entries of an object being
/// built in key order; every existing key is at most `bound`, which is before
/// `key`.
pub fn push_field(m: &mut StringMap<JsonValue>, key: &str, value: JsonValue, Ghost(bound): Ghost<Seq<char>>)
    requires
        keys_sorted(old(m).keys()),
        forall|i: int| 0 <= i < old(m).keys().len() ==> seq_char_le(#[trigger] old(m).keys()[i], bound),
        seq_char_lt(bound, key@),
    ensures
        final(m).keys() == old(m).keys().push(key@),
        final(m).to_map() == old(m).to_map().insert(key@, value),
        keys_sorted(final(m).keys()),
        forall|i: int| 0 <= i < final(m).keys().len() ==> seq_char_le(#[trigger] final(m).keys()[i], key@),
{
    let ghost old_keys = m.keys();
    proof {
        assert forall|i: int| 0 <= i < old_keys.len() implies seq_char_lt(#[trigger] old_keys[i], key@) by {
            if old_keys[i] != bound {
                lemma_char_lt_transitive(old_keys[i], bound, key@);
            }
        }
        if old_keys.contains(key@) {
            let i = choose|i: int| 0 <= i < old_keys.len() && old_keys[i] == key@;
            assert(seq_char_lt(old_keys[i], key@));
            lemma_char_lt_irreflexive(key@);
        }
        assert(!m.to_map().dom().contains(key@));
    }
    m.insert(key.to_owned(), value);
    proof {
        let nk = m.keys();
        assert forall|i: int, j: int| 0 <= i < j < nk.len() implies seq_char_lt(nk[i], nk[j]) by {
            if j == nk.len() - 1 {
                assert(nk[i] == old_keys[i]);
            } else {
                assert(nk[i] == old_keys[i] && nk[j] == old_keys[j]);
            }
        }
        assert forall|i: int| 0 <= i < nk.len() implies seq_char_le(#[trigger] nk[i], key@) by {
            if i < old_keys.len() {
                assert(nk[i] == old_keys[i]);
                assert(seq_char_lt(old_keys[i], key@));
            }
        }
    }
}

impl JsonValue {
    /// The entry for `key` if this is an object holding it.
    pub fn get(&self, key: &str) -> (r: Option<&JsonValue>)
        ensures
            match r {
                Some(x) => json_get(*self, key@) == Some(*x),
                None => json_get(*self, key@) is None,
            },
    {
        match self {
            JsonValue::Object(m) => m.get(key),
            _ => None,
        }
    }

    /// The string, if this is a string value.
    pub fn as_str(&self) -> (r: Option<&String>)
        ensures
            match r {
                Some(s) => json_str(Some(*self)) == Some(s@),
                None => json_str(Some(*self)) is None,
            },
    {
        match self {
            JsonValue::Str(s) => Some(s),
            _ => None,
        }
    }

    /// The number, if this is a non-negative integer value.
    pub fn as_u64(&self) -> (r: Option<u64>)
        ensures
            r == json_u64(Some(*self)),
    {
        match self {
            JsonValue::UInt(n) => Some(*n),
            _ => None,
        }
    }

    /// Whether this is null.
    pub fn is_null(&self) -> (r: bool)
        ensures
            r == (*self is Null),
    {
        match self {
            JsonValue::Null => true,
            _ => false,
        }
    }

    /// The string items of this array, in order; `None` for other values.
    pub fn string_items(&self) -> (r: Option<Vec<String>>)
        ensures
            match r {
                Some(v) => json_strings(Some(*self)) == Some(string_views(v@)),
                None => json_strings(Some(*self)) is None,
            },
    {
        match self {
            JsonValue::Array(items) => {
                let mut out: Vec<String> = Vec::new();
                let mut i: usize = 0;
                while i < items.len()
                    invariant
                        i <= items@.len(),
                        string_views(out@) == strings_in(items@.take(i as int)),
                    decreases items@.len() - i,
                {
                    assert(items@.take(i + 1).drop_last() =~= items@.take(i as int));
                    match &items[i] {
                        JsonValue::Str(s) => {
                            out.push(s.clone());
                            assert(string_views(out@) =~= strings_in(items@.take(i as int)).push(s@));
                        },
                        _ => {},
                    }
                    i += 1;
                }
                assert(items@.take(items@.len() as int) =~= items@);
                Some(out)
            },
            _ => None,
        }
    }

    /// An array holding the members of `set`, in its iteration order.
    pub fn from_string_set(set: &StringSet) -> (r: JsonValue)
        ensures
            is_string_array(r, set.elems()),
    {
        let mut items: Vec<JsonValue> = Vec::new();
        let mut i: usize = 0;
        while i < set.len()
            invariant
                i <= set.elems().len(),
                items@.len() == i,
                forall|k: int| 0 <= k < i ==> (#[trigger] items@[k] matches JsonValue::Str(s) && s@ == set.elems()[k]),
            decreases set.elems().len() - i,
        {
            items.push(JsonValue::Str(set.get(i).clone()));
            i += 1;
        }
        JsonValue::Array(items)
    }

    /// An array holding the given strings, in order.
    pub fn from_strings(values: &Vec<String>) -> (r: JsonValue)
        ensures
            is_string_array(r, string_views(values@)),
    {
        let mut items: Vec<JsonValue> = Vec::new();
        let mut i: usize = 0;
        while i < values.len()
            invariant
                i <= values@.len(),
                items@.len() == i,
                forall|k: int| 0 <= k < i ==> (#[trigger] items@[k] matches JsonValue::Str(s) && s@ == values@[k]@),
            decreases values@.len() - i,
        {
            items.push(JsonValue::Str(values[i].clone()));
            i += 1;
        }
        JsonValue::Array(items)
    }
}

/// Moves a `serde_json::Number` into a value, telling its integer kinds
/// apart with `Number::as_u64` and `Number::as_i64`; claims nothing.
#[verifier::external_body]
fn from_number(n: serde_json::Number) -> JsonValue {
    match (n.as_u64(), n.as_i64()) {
        (Some(u), _) => JsonValue::UInt(u),
        (None, Some(i)) => JsonValue::NegInt(i),
        (None, None) => JsonValue::Float(n),
    }
}

/// Moves a `serde_json::Value` into a value, variant for variant (object
/// entries in the order `serde_json::Map` yields them); claims nothing.
#[verifier::external_body]
fn from_document(v: serde_json::Value) -> JsonValue {
    match v {
        serde_json::Value::Null => JsonValue::Null,
        serde_json::Value::Bool(b) => JsonValue::Bool(b),
        serde_json::Value::Number(n) => from_number(n),
        serde_json::Value::String(s) => JsonValue::Str(s),
        serde_json::Value::Array(a) => JsonValue::Array(a.into_iter().map(from_document).collect()),
        serde_json::Value::Object(o) => JsonValue::Object(StringMap { entries: o.into_iter().map(|(k, x)| (k, from_document(x))).collect() }),
    }
}

/// Copies a value into a `serde_json::Value`, variant for variant; claims
/// nothing.
#[verifier::external_body]
fn to_document(v: &JsonValue) -> serde_json::Value {
    match v {
        JsonValue::Null => serde_json::Value::Null,
        JsonValue::Bool(b) => serde_json::Value::Bool(*b),
        JsonValue::UInt(u) => serde_json::Value::from(*u),
        JsonValue::NegInt(i) => serde_json::Value::from(*i),
        JsonValue::Float(n) => serde_json::Value::Number(n.clone()),
        JsonValue::Str(s) => serde_json::Value::String(s.clone()),
        JsonValue::Array(a) => serde_json::Value::Array(a.iter().map(to_document).collect()),
        JsonValue::Object(m) => serde_json::Value::Object(m.entries.iter().map(|(k, x)| (k.clone(), to_document(x))).collect()),
    }
}

/// Reads a JSON document with `serde_json::from_slice`. Claims that the result
/// is what [`json_parse`] names for these bytes, and that an error comes
/// exactly when that names nothing.
#[verifier::external_body]
pub fn parse_json(text: &[u8]) -> (r: Result<JsonValue, serde_json::Error>)
    ensures
        match r {
            Ok(v) => json_parse(text@) == Some(v),
            Err(_) => json_parse(text@) is None,
        },
{
    serde_json::from_slice::<serde_json::Value>(text).map(from_document)
}

/// Writes `v` as compact JSON text with `serde_json::to_string`. Claims that
/// this succeeds (writing a JSON value into memory cannot fail), that the
/// text's UTF-8 bytes are what [`json_text`] names for `v`, and that reading
/// those bytes back gives `v` again when `v` is canonical (`serde_json` keeps
/// object keys in increasing order and reads integers back as integers).
#[verifier::external_body]
pub fn write_json(v: &JsonValue) -> (r: Result<String, serde_json::Error>)
    ensures
        match r {
            Ok(s) => {
                &&& vstd::utf8::encode_utf8(s@) == json_text(*v)
                &&& json_canonical(*v) ==> json_parse(vstd::utf8::encode_utf8(s@)) == Some(*v)
            },
            Err(_) => false,
        },
{
    serde_json::to_string(&to_document(v))
}

/// `b` is a copy of `a` as far as its top level goes: the same variant
/// holding the same scalar or text, an array of the same length, or an
/// object with the same keys.
pub open spec fn same_top(a: JsonValue, b: JsonValue) -> bool {
    match (a, b) {
        (JsonValue::Null, JsonValue::Null) => true,
        (JsonValue::Bool(x), JsonValue::Bool(y)) => x == y,
        (JsonValue::UInt(x), JsonValue::UInt(y)) => x == y,
        (JsonValue::NegInt(x), JsonValue::NegInt(y)) => x == y,
        (JsonValue::Float(x), JsonValue::Float(y)) => x == y,
        (JsonValue::Str(x), JsonValue::Str(y)) => x@ == y@,
        (JsonValue::Array(x), JsonValue::Array(y)) => x@.len() == y@.len(),
        (JsonValue::Object(x), JsonValue::Object(y)) => x.keys() == y.keys(),
        _ => false,
    }
}

/// `b` is a deep copy of `a`: the same tree of variants, scalars, texts
/// and keys.
pub closed spec fn json_same(a: JsonValue, b: JsonValue) -> bool
    decreases a,
{
    match a {
        JsonValue::Array(x) => match b {
            JsonValue::Array(y) => x@.len() == y@.len() && forall|i: int|
                0 <= i < x@.len() ==> json_same(#[trigger] x@[i], y@[i]),
            _ => false,
        },
        JsonValue::Object(m) => match b {
            JsonValue::Object(n) => m.keys() == n.keys() && m.entries@.len() == n.entries@.len() && forall|i: int|
                0 <= i < m.entries@.len() ==> json_same(#[trigger] m.entries@[i].1, n.entries@[i].1),
            _ => false,
        },
        _ => same_top(a, b),
    }
}

impl JsonValue {
    /// A deep copy of this value.
    pub fn duplicate(&self) -> (r: JsonValue)
        ensures
            json_same(*self, r),
        decreases self,
    {
        match self {
            JsonValue::Null => JsonValue::Null,
            JsonValue::Bool(b) => JsonValue::Bool(*b),
            JsonValue::UInt(n) => JsonValue::UInt(*n),
            JsonValue::NegInt(n) => JsonValue::NegInt(*n),
            JsonValue::Float(n) => JsonValue::Float(n.clone()),
            JsonValue::Str(s) => JsonValue::Str(s.clone()),
            JsonValue::Array(items) => {
                let mut out: Vec<JsonValue> = Vec::new();
                let mut i: usize = 0;
                while i < items.len()
                    invariant
                        i <= items@.len(),
                        out@.len() == i,
                        *self == JsonValue::Array(*items),
                        forall|j: int| 0 <= j < i ==> json_same(#[trigger] items@[j], out@[j]),
                    decreases items@.len() - i,
                {
                    proof {
                        assert(decreases_to!(*self => (*self)->Array_0));
                        assert(decreases_to!(*items => items@));
                        assert(decreases_to!(items@ => items@[i as int]));
                    }
                    out.push(items[i].duplicate());
                    i += 1;
                }
                let r = JsonValue::Array(out);
                assert(json_same(*self, r));
                r
            },
            JsonValue::Object(m) => {
                let mut out: StringMap<JsonValue> = StringMap::new();
                let n = m.len();
                proof { m.lemma_entries(); out.lemma_entries(); }
                let mut i: usize = 0;
                while i < n
                    invariant
                        n == m.keys().len(),
                        n == m.values().len(),
                        i <= n,
                        out.keys() == m.keys().take(i as int),
                        out.values().len() == i,
                        crate::collections::no_duplicates(m.keys()),
                        *self == JsonValue::Object(*m),
                        forall|j: int| 0 <= j < i ==> json_same(m.values()[j], #[trigger] out.values()[j]),
                    decreases n - i,
                {
                    let k = m.key_at(i);
                    let v = m.value_at(i);
                    proof {
                        m.lemma_entries();
                        m.lemma_value_decreases(i as int);
                        assert(decreases_to!(*self => (*self)->Object_0));
                        if m.keys().take(i as int).contains(k@) {
                            let j = m.keys().take(i as int).index_of(k@);
                            assert(m.keys()[j] == m.keys()[i as int]);
                        }
                        out.lemma_entries();
                        assert(!out.to_map().dom().contains(k@));
                    }
                    let d = v.duplicate();
                    let ghost dv = d;
                    out.insert(k.clone(), d);
                    proof {
                        out.lemma_entries();
                        out.lemma_shape();
                        assert(out.keys() == m.keys().take(i as int).push(k@));
                        assert(out.to_map()[k@] == dv);
                        assert(out.keys()[i as int] == k@);
                        assert(out.values()[i as int] == dv);
                        assert forall|j: int| 0 <= j < i + 1 implies json_same(m.values()[j], #[trigger] out.values()[j]) by {
                            if j < i {
                                assert(out.keys()[j] == m.keys()[j]);
                                assert(out.to_map()[out.keys()[j]] == out.values()[j]);
                            }
                        }
                    }
                    assert(m.keys().take(i + 1) =~= m.keys().take(i as int).push(k@));
                    i += 1;
                }
                assert(m.keys().take(n as int) =~= m.keys());
                proof {
                    m.lemma_entries();
                    out.lemma_entries();
                }
                let r = JsonValue::Object(out);
                assert(json_same(*self, r));
                r
            },
        }
    }
}

/// A deep copy of a map of JSON values: the same keys in the same order,
/// each value copied.
pub fn duplicate_map(m: &StringMap<JsonValue>) -> (r: StringMap<JsonValue>)
    ensures
        r.keys() == m.keys(),
        r.values().len() == m.values().len(),
        forall|i: int| 0 <= i < m.values().len() ==> json_same(m.values()[i], #[trigger] r.values()[i]),
{
    let mut out: StringMap<JsonValue> = StringMap::new();
    let n = m.len();
    proof { m.lemma_entries(); out.lemma_entries(); }
    let mut i: usize = 0;
    while i < n
        invariant
            n == m.keys().len(),
            n == m.values().len(),
            i <= n,
            out.keys() == m.keys().take(i as int),
            out.values().len() == i,
            crate::collections::no_duplicates(m.keys()),
            forall|j: int| 0 <= j < i ==> json_same(m.values()[j], #[trigger] out.values()[j]),
        decreases n - i,
    {
        let k = m.key_at(i);
        let v = m.value_at(i);
        proof {
            if m.keys().take(i as int).contains(k@) {
                let j = m.keys().take(i as int).index_of(k@);
                assert(m.keys()[j] == m.keys()[i as int]);
            }
            out.lemma_entries();
            assert(!out.to_map().dom().contains(k@));
        }
        let ghost before = out.values();
        let d = v.duplicate();
        let ghost dv = d;
        out.insert(k.clone(), d);
        proof {
            out.lemma_entries();
            out.lemma_shape();
            assert(out.keys() == m.keys().take(i as int).push(k@));
            assert(out.to_map()[k@] == dv);
            assert(out.keys()[i as int] == k@);
            assert(out.values()[i as int] == dv);
            assert forall|j: int| 0 <= j < i + 1 implies json_same(m.values()[j], #[trigger] out.values()[j]) by {
                if j < i {
                    assert(out.keys()[j] == m.keys()[j]);
                    assert(out.to_map()[out.keys()[j]] == out.values()[j]);
                }
            }
        }
        assert(m.keys().take(i + 1) =~= m.keys().take(i as int).push(k@));
        i += 1;
    }
    assert(m.keys().take(n as int) =~= m.keys());
    out
}

} // verus!
