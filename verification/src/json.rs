//! JSON documents, as far as the manager reads them.
//!
//! Nexus answers in JSON and collection archives carry a JSON manifest. The
//! text is decoded by serde_json; what the logic here reads of the result is
//! this tree: numbers only as far as they are whole numbers that fit a `u64`,
//! and objects as their fields in the order the decoder gives them, each key
//! once.

use vstd::prelude::*;

use crate::text::{chars_eq, chars_of};

verus! {

/// A decoded JSON value.
#[derive(Debug)]
pub enum JsonValue {
    Null,
    Bool(bool),
    /// A number: its value when it is a whole number a `u64` holds.
    Number(Option<u64>),
    String(String),
    Array(Vec<JsonValue>),
    Object(Vec<(String, JsonValue)>),
}

/// The index of the first field from `i` on named `key`.
pub open spec fn field_index(es: Seq<(String, JsonValue)>, key: Seq<char>, i: int) -> Option<int>
    decreases es.len() - i,
{
    if i < 0 || i >= es.len() {
        None
    } else if es[i].0@ == key {
        Some(i)
    } else {
        field_index(es, key, i + 1)
    }
}

/// The field `key` of an object; nothing for anything else.
pub open spec fn get_of(v: JsonValue, key: Seq<char>) -> Option<JsonValue> {
    match v {
        JsonValue::Object(es) => match field_index(es@, key, 0) {
            Some(i) => Some(es@[i].1),
            None => None,
        },
        _ => None,
    }
}

/// A field, when there is a value to look in.
pub open spec fn field_of(v: Option<JsonValue>, key: Seq<char>) -> Option<JsonValue> {
    match v {
        Some(x) => get_of(x, key),
        None => None,
    }
}

/// The text of a value, when it is a string.
pub open spec fn str_of(v: Option<JsonValue>) -> Option<Seq<char>> {
    match v {
        Some(JsonValue::String(s)) => Some(s@),
        _ => None,
    }
}

/// A value, when it is a boolean.
pub open spec fn bool_of(v: Option<JsonValue>) -> Option<bool> {
    match v {
        Some(JsonValue::Bool(b)) => Some(b),
        _ => None,
    }
}

/// A value, when it is a whole number a `u64` holds.
pub open spec fn u64_of(v: Option<JsonValue>) -> Option<u64> {
    match v {
        Some(JsonValue::Number(n)) => n,
        _ => None,
    }
}

pub(crate) fn find_field(es: &Vec<(String, JsonValue)>, key: &str) -> (r: Option<usize>)
    ensures
        r matches Some(i) ==> i < es.len() && field_index(es@, key@, 0) == Some(i as int),
        r is None ==> field_index(es@, key@, 0) is None,
{
    let k = chars_of(key);
    let mut i: usize = 0;
    while i < es.len()
        invariant
            i <= es.len(),
            k@ == key@,
            field_index(es@, key@, i as int) == field_index(es@, key@, 0),
        decreases es.len() - i,
    {
        if chars_eq(chars_of(es[i].0.as_str()).as_slice(), k.as_slice()) {
            return Some(i);
        }
        i = i + 1;
    }
    None
}

impl JsonValue {
    /// The field `key` of an object.
    pub fn get(&self, key: &str) -> (r: Option<&JsonValue>)
        ensures
            match r {
                Some(v) => get_of(*self, key@) == Some(*v),
                None => get_of(*self, key@) is None,
            },
    {
        match self {
            JsonValue::Object(es) => match find_field(es, key) {
                Some(i) => Some(&es[i].1),
                None => None,
            },
            _ => None,
        }
    }

    /// The text, when this is a string.
    pub fn as_str(&self) -> (r: Option<&str>)
        ensures
            match r {
                Some(s) => str_of(Some(*self)) == Some(s@),
                None => str_of(Some(*self)) is None,
            },
    {
        match self {
            JsonValue::String(s) => Some(s.as_str()),
            _ => None,
        }
    }

    /// The value, when this is a boolean.
    pub fn as_bool(&self) -> (r: Option<bool>)
        ensures
            r == bool_of(Some(*self)),
    {
        match self {
            JsonValue::Bool(b) => Some(*b),
            _ => None,
        }
    }

    /// The value, when this is a whole number a `u64` holds.
    pub fn as_u64(&self) -> (r: Option<u64>)
        ensures
            r == u64_of(Some(*self)),
    {
        match self {
            JsonValue::Number(n) => *n,
            _ => None,
        }
    }
}

/// Whether every number in a tree has a known value: a tree whose numbers
/// are all whole numbers a `u64` holds is one that can be written out as it
/// stands.
pub open spec fn encodable(v: JsonValue) -> bool
    decreases v, 0nat,
{
    match v {
        JsonValue::Number(n) => n is Some,
        JsonValue::Array(items) => encodable_items(items@, items@.len()),
        JsonValue::Object(fields) => encodable_fields(fields@, fields@.len()),
        _ => true,
    }
}

/// Whether the first `n` items can be written out.
pub open spec fn encodable_items(items: Seq<JsonValue>, n: nat) -> bool
    decreases items, n,
{
    if n == 0 || n > items.len() {
        true
    } else {
        encodable_items(items, (n - 1) as nat) && encodable(items[n - 1])
    }
}

/// Whether the values of the first `n` fields can be written out.
pub open spec fn encodable_fields(fields: Seq<(String, JsonValue)>, n: nat) -> bool
    decreases fields, n,
{
    if n == 0 || n > fields.len() {
        true
    } else {
        encodable_fields(fields, (n - 1) as nat) && encodable(fields[n - 1].1)
    }
}

/// Whether every number in a tree has a known value, so that it can be
/// written out.
pub fn is_encodable(value: &JsonValue) -> (r: bool)
    ensures
        r == encodable(*value),
    decreases value,
{
    match value {
        JsonValue::Number(n) => n.is_some(),
        JsonValue::Array(items) => {
            let mut i: usize = 0;
            while i < items.len()
                invariant
                    i <= items.len(),
                    *value == JsonValue::Array(*items),
                    encodable_items(items@, i as nat),
                decreases items.len() - i,
            {
                assert(decreases_to!(*value => (*value)->Array_0));
                assert(decreases_to!((*value)->Array_0 => (*value)->Array_0@));
                assert(decreases_to!((*value)->Array_0@ => (*value)->Array_0@[i as int]));
                if !is_encodable(&items[i]) {
                    proof {
                        lemma_items_stay_unencodable(items@, (i + 1) as nat, items@.len());
                    }
                    return false;
                }
                i = i + 1;
            }
            true
        },
        JsonValue::Object(fields) => {
            let mut i: usize = 0;
            while i < fields.len()
                invariant
                    i <= fields.len(),
                    *value == JsonValue::Object(*fields),
                    encodable_fields(fields@, i as nat),
                decreases fields.len() - i,
            {
                assert(decreases_to!(*value => (*value)->Object_0));
                assert(decreases_to!((*value)->Object_0 => (*value)->Object_0@));
                assert(decreases_to!((*value)->Object_0@ => (*value)->Object_0@[i as int]));
                assert(decreases_to!((*value)->Object_0@[i as int] => (*value)->Object_0@[i as int].1));
                if !is_encodable(&fields[i].1) {
                    proof {
                        lemma_fields_stay_unencodable(fields@, (i + 1) as nat, fields@.len());
                    }
                    return false;
                }
                i = i + 1;
            }
            true
        },
        _ => true,
    }
}

proof fn lemma_items_stay_unencodable(items: Seq<JsonValue>, k: nat, n: nat)
    requires
        0 < k <= n <= items.len(),
        !encodable_items(items, k),
    ensures
        !encodable_items(items, n),
    decreases n - k,
{
    if k < n {
        lemma_items_stay_unencodable(items, k, (n - 1) as nat);
    }
}

proof fn lemma_fields_stay_unencodable(fields: Seq<(String, JsonValue)>, k: nat, n: nat)
    requires
        0 < k <= n <= fields.len(),
        !encodable_fields(fields, k),
    ensures
        !encodable_fields(fields, n),
    decreases n - k,
{
    if k < n {
        lemma_fields_stay_unencodable(fields, k, (n - 1) as nat);
    }
}

/// serde_json's own tree, carried through opaquely to be converted.
#[verifier::external_type_specification]
#[verifier::external_body]
pub struct ExSerdeJsonValue(serde_json::Value);

/// What `serde_json::from_str::<serde_json::Value>` gives for a text: the
/// decoded tree, or the message of its error. A function of the text alone.
pub uninterp spec fn json_decoded(text: Seq<char>) -> Result<JsonValue, Seq<char>>;

/// serde_json's tree as this crate's, variant for variant: numbers through
/// `as_u64`, object fields in the order the map yields them.
#[verifier::external_body]
fn tree_of(value: serde_json::Value) -> JsonValue {
    match value {
        serde_json::Value::Null => JsonValue::Null,
        serde_json::Value::Bool(b) => JsonValue::Bool(b),
        serde_json::Value::Number(n) => JsonValue::Number(n.as_u64()),
        serde_json::Value::String(s) => JsonValue::String(s),
        serde_json::Value::Array(items) => JsonValue::Array(items.into_iter().map(tree_of).collect()),
        serde_json::Value::Object(fields) => JsonValue::Object(
            fields.into_iter().map(|(k, v)| (k, tree_of(v))).collect(),
        ),
    }
}

/// Decodes a JSON text with `serde_json::from_str` into a
/// `serde_json::Value` and hands it over as a [`JsonValue`]; on failure, the
/// error's message. Claimed: the outcome is [`json_decoded`] of the text.
#[verifier::external_body]
pub(crate) fn decode_json(text: &str) -> (r: Result<JsonValue, String>)
    ensures
        match (r, json_decoded(text@)) {
            (Ok(v), Ok(w)) => v == w,
            (Err(m), Err(n)) => m@ == n,
            _ => false,
        },
{
    match serde_json::from_str::<serde_json::Value>(text) {
        Ok(value) => Ok(tree_of(value)),
        Err(e) => Err(e.to_string()),
    }
}

/// What serde_json writes for a tree (`serde_json::Value`'s `Display`, which
/// is `serde_json::to_string`). A function of the tree alone.
pub uninterp spec fn json_encoded(v: JsonValue) -> Seq<char>;

/// This crate's tree as serde_json's, variant for variant. Only trees whose
/// numbers all have a value are converted (see [`encode_json`]); the arm for
/// a number without one is there for the match to be complete.
#[verifier::external_body]
fn value_of(tree: &JsonValue) -> serde_json::Value {
    match tree {
        JsonValue::Null => serde_json::Value::Null,
        JsonValue::Bool(b) => serde_json::Value::Bool(*b),
        JsonValue::Number(Some(n)) => serde_json::Value::from(*n),
        JsonValue::Number(None) => serde_json::Value::Null,
        JsonValue::String(s) => serde_json::Value::String(s.clone()),
        JsonValue::Array(items) => serde_json::Value::Array(items.iter().map(value_of).collect()),
        JsonValue::Object(fields) => serde_json::Value::Object(
            fields.iter().map(|(k, v)| (k.clone(), value_of(v))).collect(),
        ),
    }
}

/// Writes a tree as JSON text through `serde_json::Value`'s `Display`.
/// Claimed: the text is [`json_encoded`] of the tree.
#[verifier::external_body]
pub(crate) fn encode_json(tree: &JsonValue) -> (r: String)
    requires
        encodable(*tree),
    ensures
        r@ == json_encoded(*tree),
{
    value_of(tree).to_string()
}

} // verus!
