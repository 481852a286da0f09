//! A model of parsed JSON documents. The parsing itself is serde_json's
//! work; everything that reads the parsed document is verified here.

use vstd::prelude::*;

verus! {

use crate::strings::str_eq;

#[verifier::external_type_specification]
#[verifier::external_body]
pub struct ExValue(serde_json::Value);

/// A parsed JSON document. A number keeps its value only when it is an
/// unsigned integer that fits `u64`, which is all the manifest reader asks
/// of numbers; object entries arrive key-sorted, as serde_json's map yields
/// them, though nothing here depends on that order beyond first-match lookup.
pub enum Json {
    Null,
    Bool(bool),
    Num(Option<u64>),
    Str(String),
    Arr(Vec<Json>),
    Obj(Vec<(String, Json)>),
}

/// What serde_json makes of a text: nothing on a parse error, otherwise the
/// parsed document. The result depends on the text alone.
pub uninterp spec fn spec_json_of(text: Seq<char>) -> Option<Json>;

/// Relies on serde_json::from_str::<Value>: deterministic parsing of a JSON
/// text, handed over variant for variant into the library's model.
#[verifier::external_body]
pub fn parse_json_text(text: &str) -> (r: Option<Json>)
    ensures
        r == spec_json_of(text@),
{
    match serde_json::from_str::<serde_json::Value>(text) {
        Ok(v) => Some(json_from_value(&v)),
        Err(_) => None,
    }
}

/// Relies on serde_json::Value and Number::as_u64: carries a parsed value
/// over into the library's model, one arm for one variant, field by field.
#[verifier::external_body]
fn json_from_value(v: &serde_json::Value) -> Json {
    match v {
        serde_json::Value::Null => Json::Null,
        serde_json::Value::Bool(b) => Json::Bool(*b),
        serde_json::Value::Number(n) => Json::Num(n.as_u64()),
        serde_json::Value::String(s) => Json::Str(s.clone()),
        serde_json::Value::Array(a) => Json::Arr(a.iter().map(json_from_value).collect()),
        serde_json::Value::Object(m) => Json::Obj(
            m.iter().map(|(k, x)| (k.clone(), json_from_value(x))).collect(),
        ),
    }
}

/// First-match lookup among an object's entries.
pub open spec fn spec_obj_get(entries: Seq<(String, Json)>, key: Seq<char>) -> Option<Json>
    decreases entries.len(),
{
    if entries.len() == 0 {
        None
    } else if entries.first().0@ == key {
        Some(entries.first().1)
    } else {
        spec_obj_get(entries.drop_first(), key)
    }
}

/// The value under `key` when the document is an object holding it.
pub open spec fn spec_get(j: Json, key: Seq<char>) -> Option<Json> {
    match j {
        Json::Obj(entries) => spec_obj_get(entries@, key),
        _ => None,
    }
}

/// The numeric value of a document that is an integer fitting `u64`.
pub open spec fn spec_as_u64(j: Json) -> Option<u64> {
    match j {
        Json::Num(n) => n,
        _ => None,
    }
}

/// The text of a document that is a string.
pub open spec fn spec_as_str(j: Json) -> Option<Seq<char>> {
    match j {
        Json::Str(s) => Some(s@),
        _ => None,
    }
}

impl Json {
    /// Look a key up in an object; nothing on any other document shape.
    pub fn get<'a>(&'a self, key: &str) -> (r: Option<&'a Json>)
        ensures
            match r {
                Some(j) => spec_get(*self, key@) == Some(*j),
                None => spec_get(*self, key@) is None,
            },
    {
        match self {
            Json::Obj(entries) => {
                let mut i: usize = 0;
                assert(entries@.skip(0) =~= entries@);
                while i < entries.len()
                    invariant
                        i <= entries@.len(),
                        *self == Json::Obj(*entries),
                        spec_obj_get(entries@, key@) == spec_obj_get(
                            entries@.skip(i as int),
                            key@,
                        ),
                    decreases entries@.len() - i,
                {
                    let e = &entries[i];
                    proof {
                        assert(entries@.skip(i as int).first() == entries@[i as int]);
                        assert(entries@.skip(i as int).drop_first() =~= entries@.skip(i + 1));
                    }
                    if str_eq(e.0.as_str(), key) {
                        return Some(&e.1);
                    }
                    i = i + 1;
                }
                assert(entries@.skip(entries@.len() as int).len() == 0);
                None
            },
            _ => None,
        }
    }

    /// The value of an integer document that fits `u64`.
    pub fn as_u64_opt(&self) -> (r: Option<u64>)
        ensures
            r == spec_as_u64(*self),
    {
        match self {
            Json::Num(n) => *n,
            _ => None,
        }
    }

    /// The string of a text document.
    pub fn as_string<'a>(&'a self) -> (r: Option<&'a String>)
        ensures
            match r {
                Some(s) => spec_as_str(*self) == Some(s@),
                None => spec_as_str(*self) is None,
            },
    {
        match self {
            Json::Str(s) => Some(s),
            _ => None,
        }
    }
}

} // verus!
