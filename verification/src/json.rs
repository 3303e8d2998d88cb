//! JSON documents as the library reads them, parsed by `serde_json`.

use vstd::prelude::*;

verus! {

/// A JSON value. Objects keep their members in the order the parser
/// gives them.
#[derive(Debug)]
pub enum JsonValue {
    Null,
    Bool(bool),
    /// A number, as JSON text.
    Number(String),
    Str(String),
    Array(Vec<JsonValue>),
    Object(Vec<(String, JsonValue)>),
}

#[verifier::external_type_specification]
#[verifier::external_body]
pub struct ExSerdeJsonValue(serde_json::Value);

/// What `serde_json::from_str::<serde_json::Value>` makes of a text, as a
/// [`JsonValue`]; `None` when the text is not one JSON document.
pub uninterp spec fn parsed_json(raw: Seq<char>) -> Option<JsonValue>;

/// `serde_json::from_str::<serde_json::Value>`: parses `raw` as one JSON
/// document, `None` when it is not valid JSON. Claimed: the result is
/// [`parsed_json`] of the text, that is, the same text always parses to
/// the same value.
#[verifier::external_body]
pub(crate) fn parse_json(raw: &str) -> (r: Option<JsonValue>)
    ensures
        r == parsed_json(raw@),
{
    serde_json::from_str::<serde_json::Value>(raw).ok().map(json_value_from)
}

/// Carries a `serde_json::Value` over into a [`JsonValue`], variant for
/// variant and member for member, numbers as their JSON text.
#[verifier::external_body]
fn json_value_from(v: serde_json::Value) -> JsonValue {
    match v {
        serde_json::Value::Null => JsonValue::Null,
        serde_json::Value::Bool(b) => JsonValue::Bool(b),
        serde_json::Value::Number(n) => JsonValue::Number(n.to_string()),
        serde_json::Value::String(s) => JsonValue::Str(s),
        serde_json::Value::Array(a) => JsonValue::Array(a.into_iter().map(json_value_from).collect()),
        serde_json::Value::Object(m) => JsonValue::Object(
            m.into_iter().map(|(k, x)| (k, json_value_from(x))).collect(),
        ),
    }
}

/// The value of the first member named `key` among `members`.
pub open spec fn member(members: Seq<(String, JsonValue)>, key: Seq<char>) -> Option<JsonValue>
    decreases members.len(),
{
    if members.len() == 0 {
        None
    } else if members[0].0@ == key {
        Some(members[0].1)
    } else {
        member(members.drop_first(), key)
    }
}

/// `Value::get(key)`: the member `key` of an object.
pub open spec fn field(v: JsonValue, key: Seq<char>) -> Option<JsonValue> {
    match v {
        JsonValue::Object(m) => member(m@, key),
        _ => None,
    }
}

/// `Value::as_str`: the text of a string value.
pub open spec fn as_str(v: Option<JsonValue>) -> Option<Seq<char>> {
    match v {
        Some(JsonValue::Str(s)) => Some(s@),
        _ => None,
    }
}

/// The member `key` of `v`, when `v` is an object that has one.
pub fn get_field<'a>(v: &'a JsonValue, key: &str) -> (r: Option<&'a JsonValue>)
    ensures
        match r {
            Some(x) => field(*v, key@) == Some(*x),
            None => field(*v, key@) is None,
        },
{
    match v {
        JsonValue::Object(m) => {
            let mut i: usize = 0;
            assert(m@.skip(0) == m@);
            assert(field(*v, key@) == member(m@, key@));
            while i < m.len()
                invariant
                    i <= m@.len(),
                    field(*v, key@) == member(m@, key@),
                    member(m@, key@) == member(m@.skip(i as int), key@),
                decreases m.len() - i,
            {
                assert(m@.skip(i as int)[0] == m@[i as int]);
                if crate::text::str_eq(m[i].0.as_str(), key) {
                    assert(member(m@.skip(i as int), key@) == Some(m@[i as int].1));
                    let r = &m[i].1;
                    assert(*r == m@[i as int].1);
                    return Some(r);
                }
                assert(m@.skip(i as int).drop_first() == m@.skip(i + 1));
                i = i + 1;
            }
            None
        },
        _ => None,
    }
}

} // verus!
