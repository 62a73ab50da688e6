//! A plain JSON tree and access to the fields the reports read.
use vstd::prelude::*;

verus! {

/// A JSON value held as plain data. Object members keep the order in which
/// the parser hands them out (by key, for `serde_json`'s default map).
pub enum JsonValue {
    Null,
    Bool(bool),
    /// A number, kept as its JSON text.
    Number(String),
    Str(String),
    Array(Vec<JsonValue>),
    Object(Vec<(String, JsonValue)>),
}

#[verifier::external_type_specification]
#[verifier::external_body]
pub struct ExSerdeJsonValue(serde_json::Value);

/// What `serde_json::from_str::<Vec<serde_json::Value>>` gives back for a text,
/// each element converted to a `JsonValue`: the array's elements, or nothing
/// when the text is not a JSON array.
pub uninterp spec fn json_array_parse(text: Seq<char>) -> Option<Seq<JsonValue>>;

/// Converts a `serde_json::Value` into a `JsonValue`, variant for variant
/// (numbers by their JSON text, object members in the map's iteration order).
#[verifier::external_body]
fn json_from_serde(v: serde_json::Value) -> JsonValue {
    match v {
        serde_json::Value::Null => JsonValue::Null,
        serde_json::Value::Bool(b) => JsonValue::Bool(b),
        serde_json::Value::Number(n) => JsonValue::Number(n.to_string()),
        serde_json::Value::String(s) => JsonValue::Str(s),
        serde_json::Value::Array(a) => JsonValue::Array(a.into_iter().map(json_from_serde).collect()),
        serde_json::Value::Object(m) => JsonValue::Object(
            m.into_iter().map(|(k, x)| (k, json_from_serde(x))).collect(),
        ),
    }
}

/// Calls `serde_json::from_str::<Vec<serde_json::Value>>` on the text; the
/// result is named by `json_array_parse`.
#[verifier::external_body]
pub(crate) fn parse_json_array(text: &str) -> (r: Option<Vec<JsonValue>>)
    ensures
        match r {
            Some(v) => json_array_parse(text@) == Some(v@),
            None => json_array_parse(text@).is_none(),
        },
{
    match serde_json::from_str::<Vec<serde_json::Value>>(text) {
        Ok(items) => Some(items.into_iter().map(json_from_serde).collect()),
        Err(_) => None,
    }
}

/// The text of a JSON string, if the value is one.
pub open spec fn str_of(v: JsonValue) -> Option<Seq<char>> {
    match v {
        JsonValue::Str(s) => Some(s@),
        _ => None,
    }
}

/// The value of the first member named `key`.
pub open spec fn member(entries: Seq<(String, JsonValue)>, key: Seq<char>) -> Option<JsonValue>
    decreases entries.len(),
{
    if entries.len() == 0 {
        None
    } else if entries[0].0@ == key {
        Some(entries[0].1)
    } else {
        member(entries.drop_first(), key)
    }
}

/// The member `key` of an object (nothing for any other value).
pub open spec fn field(v: JsonValue, key: Seq<char>) -> Option<JsonValue> {
    match v {
        JsonValue::Object(entries) => member(entries@, key),
        _ => None,
    }
}

/// The text of the string member `key`, or `-` when there is none.
pub open spec fn str_field_or_dash(v: JsonValue, key: Seq<char>) -> Seq<char> {
    match field(v, key) {
        Some(x) => match str_of(x) {
            Some(s) => s,
            None => "-"@,
        },
        None => "-"@,
    }
}

/// Looks up the member `key` of an object value.
pub fn get_field<'a>(v: &'a JsonValue, key: &str) -> (r: Option<&'a JsonValue>)
    ensures
        match r {
            Some(x) => field(*v, key@) == Some(*x),
            None => field(*v, key@).is_none(),
        },
{
    match v {
        JsonValue::Object(entries) => {
            let n = entries.len();
            let mut i: usize = 0;
            assert(entries@.skip(0) =~= entries@);
            while i < n
                invariant
                    i <= n,
                    n == entries@.len(),
                    field(*v, key@) == member(entries@.skip(i as int), key@),
                decreases n - i,
            {
                proof {
                    assert(entries@.skip(i as int).drop_first() =~= entries@.skip(i + 1));
                }
                if crate::text::str_equal(entries[i].0.as_str(), key) {
                    proof {
                        assert(entries@.skip(i as int)[0] == entries@[i as int]);
                    }
                    return Some(&entries[i].1);
                }
                i = i + 1;
            }
            None
        },
        _ => None,
    }
}

/// The text of the string member `key`, or `-`.
pub fn get_str_field_or_dash(v: &JsonValue, key: &str) -> (r: String)
    ensures
        r@ == str_field_or_dash(*v, key@),
{
    match get_field(v, key) {
        Some(JsonValue::Str(s)) => s.clone(),
        _ => "-".to_owned(),
    }
}

} // verus!
