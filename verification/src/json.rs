//! JSON documents as trees of plain values.

use crate::text::same_text;
use vstd::prelude::*;
use vstd::string::*;

verus! {

/// A JSON value. A number is held as its decimal text; the members of an
/// object are held in the order in which the parser hands them out.
#[derive(Debug, PartialEq, Eq)]
pub enum JsonValue {
    Null,
    Bool(bool),
    Number(String),
    Text(String),
    List(Vec<JsonValue>),
    Object(Vec<(String, JsonValue)>),
}

/// A text that is not a JSON document.
#[derive(Clone, Copy, Debug, PartialEq, Eq, Structural)]
pub struct JsonError {}

/// A parsed document of the `serde_json` crate.
#[verifier::external_type_specification]
#[verifier::external_body]
pub struct ExValue(serde_json::Value);

/// The parse error of the `serde_json` crate.
#[verifier::external_type_specification]
#[verifier::external_body]
pub struct ExError(serde_json::Error);

/// The document that a text denotes, as `serde_json` reads it; none where
/// the text is not JSON.
pub uninterp spec fn json_of(text: Seq<char>) -> Option<JsonValue>;

/// Copies a `serde_json::Value` into a `JsonValue`, variant by variant. A
/// number becomes its `to_string`, an object the pairs of `Map::iter`.
/// Nothing is claimed of it.
#[verifier::external_body]
fn tree_of(v: &serde_json::Value) -> JsonValue {
    match v {
        serde_json::Value::Null => JsonValue::Null,
        serde_json::Value::Bool(b) => JsonValue::Bool(*b),
        serde_json::Value::Number(n) => JsonValue::Number(n.to_string()),
        serde_json::Value::String(s) => JsonValue::Text(s.clone()),
        serde_json::Value::Array(a) => JsonValue::List(a.iter().map(tree_of).collect()),
        serde_json::Value::Object(m) => JsonValue::Object(
            m.iter().map(|(k, x)| (k.clone(), tree_of(x))).collect(),
        ),
    }
}

/// Calls `serde_json::from_str` for a `Value` and copies what it gives into
/// a `JsonValue`. Nothing is proved of it: the contract only names the
/// document read, and says that an error comes exactly where there is none.
#[verifier::external_body]
pub(crate) fn from_str(text: &str) -> (r: Result<JsonValue, serde_json::Error>)
    ensures
        match r {
            Ok(v) => json_of(text@) == Some(v),
            Err(_) => json_of(text@).is_none(),
        },
{
    serde_json::from_str::<serde_json::Value>(text).map(|v| tree_of(&v))
}

/// The value of the first pair under `key`, if there is one.
pub open spec fn lookup(pairs: Seq<(String, JsonValue)>, key: Seq<char>) -> Option<JsonValue>
    decreases pairs.len(),
{
    if pairs.len() == 0 {
        None
    } else {
        match lookup(pairs.drop_last(), key) {
            Some(x) => Some(x),
            None => if pairs.last().0@ == key {
                Some(pairs.last().1)
            } else {
                None
            },
        }
    }
}

/// The member of an object under `key`; none for a missing key and for a
/// value that is no object.
pub open spec fn member_of(v: JsonValue, key: Seq<char>) -> Option<JsonValue> {
    match v {
        JsonValue::Object(pairs) => lookup(pairs@, key),
        _ => None,
    }
}

impl JsonValue {
    /// Finds the member of an object under `key`.
    pub fn member(&self, key: &str) -> (r: Option<&JsonValue>)
        ensures
            match r {
                Some(x) => member_of(*self, key@) == Some(*x),
                None => member_of(*self, key@).is_none(),
            },
    {
        match self {
            JsonValue::Object(pairs) => {
                let mut found: Option<usize> = None;
                let mut i: usize = 0;
                assert(pairs@.take(0) =~= Seq::empty());
                while i < pairs.len()
                    invariant
                        i <= pairs.len(),
                        match found {
                            Some(k) => k < i && lookup(pairs@.take(i as int), key@) == Some(
                                pairs@[k as int].1,
                            ),
                            None => lookup(pairs@.take(i as int), key@).is_none(),
                        },
                    decreases pairs.len() - i,
                {
                    proof {
                        let cur = pairs@.take(i as int + 1);
                        assert(cur.drop_last() =~= pairs@.take(i as int));
                        assert(cur.last() == pairs@[i as int]);
                    }
                    if found.is_none() && same_text(pairs[i].0.as_str(), key) {
                        found = Some(i);
                    }
                    i += 1;
                }
                assert(pairs@.take(pairs.len() as int) =~= pairs@);
                match found {
                    Some(k) => Some(&pairs[k].1),
                    None => None,
                }
            },
            _ => None,
        }
    }
}

} // verus!
