//! JSON values as plain data, and the member look-ups that the
//! configuration files are read with.

use vstd::prelude::*;
use crate::text::str_eq;

verus! {

/// A JSON value; a number is kept as its text.
pub enum Json {
    Null,
    Bool(bool),
    Num(String),
    Str(String),
    Arr(Vec<Json>),
    Obj(Vec<(String, Json)>),
}

/// A JSON value as character sequences.
pub enum JsonV {
    Null,
    Bool(bool),
    Num(Seq<char>),
    Str(Seq<char>),
    Arr(Seq<JsonV>),
    Obj(Seq<(Seq<char>, JsonV)>),
}

pub open spec fn json_view(j: Json) -> JsonV
    decreases j,
{
    match j {
        Json::Null => JsonV::Null,
        Json::Bool(b) => JsonV::Bool(b),
        Json::Num(n) => JsonV::Num(n@),
        Json::Str(s) => JsonV::Str(s@),
        Json::Arr(v) => JsonV::Arr(
            Seq::new(
                v.len() as nat,
                |i: int|
                    if 0 <= i < v.len() {
                        proof {
                            broadcast use vstd::std_specs::vec::axiom_vec_index_decreases;
                        }
                        json_view(v[i])
                    } else {
                        JsonV::Null
                    },
            ),
        ),
        Json::Obj(m) => JsonV::Obj(
            Seq::new(
                m.len() as nat,
                |i: int|
                    if 0 <= i < m.len() {
                        proof {
                            broadcast use vstd::std_specs::vec::axiom_vec_index_decreases;
                        }
                        (m[i].0@, json_view(m[i].1))
                    } else {
                        (Seq::empty(), JsonV::Null)
                    },
            ),
        ),
    }
}

impl View for Json {
    type V = JsonV;

    open spec fn view(&self) -> JsonV {
        json_view(*self)
    }
}

/// The value of the first member `key` at or after `from`.
pub open spec fn member_from(ms: Seq<(Seq<char>, JsonV)>, key: Seq<char>, from: nat) -> Option<JsonV>
    decreases ms.len() - from,
{
    if from >= ms.len() {
        None
    } else if ms[from as int].0 == key {
        Some(ms[from as int].1)
    } else {
        member_from(ms, key, from + 1)
    }
}

/// A member found by `member_from` is one of the members.
pub proof fn lemma_member_from_index(ms: Seq<(Seq<char>, JsonV)>, key: Seq<char>, from: nat)
    ensures
        member_from(ms, key, from) matches Some(x) ==> exists|i: int|
            0 <= i < ms.len() && #[trigger] ms[i] == (key, x),
    decreases ms.len() - from,
{
    if from < ms.len() && ms[from as int].0 != key {
        lemma_member_from_index(ms, key, from + 1);
    } else if from < ms.len() {
        assert(ms[from as int] == (key, ms[from as int].1));
    }
}

/// The member `key` of an object; none for a value that is not an object.
pub open spec fn member_opt(v: JsonV, key: Seq<char>) -> Option<JsonV> {
    match v {
        JsonV::Obj(ms) => member_from(ms, key, 0),
        _ => None,
    }
}

/// `value[key]` as `serde_json` reads it: the member `key` of an object,
/// `Null` when the value is not an object or has no such member.
pub open spec fn member(v: JsonV, key: Seq<char>) -> JsonV {
    match member_opt(v, key) {
        Some(x) => x,
        None => JsonV::Null,
    }
}

/// The member `key` of `v`, when `v` is an object that has one.
pub fn get_member<'a>(v: &'a Json, key: &str) -> (r: Option<&'a Json>)
    ensures
        match r {
            Some(x) => member_opt(v@, key@) == Some(x@),
            None => member_opt(v@, key@) is None,
        },
{
    match v {
        Json::Obj(ms) => {
            let ghost vs = match v@ {
                JsonV::Obj(vs) => vs,
                _ => Seq::empty(),
            };
            assert(vs.len() == ms@.len());
            let n = ms.len();
            let mut i: usize = 0;
            while i < n
                invariant
                    n == ms@.len(),
                    vs.len() == n,
                    i <= n,
                    v@ == JsonV::Obj(vs),
                    *v == Json::Obj(*ms),
                    member_from(vs, key@, 0) == member_from(vs, key@, i as nat),
                decreases n - i,
            {
                assert(vs[i as int] == (ms@[i as int].0@, ms@[i as int].1@));
                if str_eq(ms[i].0.as_str(), key) {
                    return Some(&ms[i].1);
                }
                i += 1;
            }
            None
        },
        _ => None,
    }
}

/// Whether `v` is present and not `Null`.
pub fn is_set(v: Option<&Json>) -> (b: bool)
    ensures
        b == (v matches Some(x) && !(x@ is Null)),
{
    match v {
        Some(Json::Null) => false,
        Some(_) => true,
        None => false,
    }
}

// ---------------------------------------------------------------- parsing

#[verifier::external_type_specification]
#[verifier::external_body]
pub struct ExJsonValue(serde_json::Value);

/// What `serde_json` parses out of a text: `None` when it is not JSON.
pub uninterp spec fn parsed_json(text: Seq<char>) -> Option<JsonV>;

/// The value as plain data, one variant for one variant; a number by its
/// `Display` text. The conversion half of `parse_json`, in a function of
/// its own because it recurses into arrays and objects.
#[verifier::external_body]
fn json_of_value(v: &serde_json::Value) -> Json {
    match v {
        serde_json::Value::Null => Json::Null,
        serde_json::Value::Bool(b) => Json::Bool(*b),
        serde_json::Value::Number(n) => Json::Num(n.to_string()),
        serde_json::Value::String(s) => Json::Str(s.clone()),
        serde_json::Value::Array(a) => Json::Arr(a.iter().map(json_of_value).collect()),
        serde_json::Value::Object(m) => Json::Obj(m.iter().map(|(k, x)| (k.clone(), json_of_value(x))).collect()),
    }
}

/// `serde_json`: `from_str::<Value>(text)`, the value converted by
/// `json_of_value`. The outcome depends on the text alone; it is named,
/// not described.
#[verifier::external_body]
pub(crate) fn parse_json(text: &str) -> (r: Option<Json>)
    ensures
        match r {
            Some(j) => parsed_json(text@) == Some(j@),
            None => parsed_json(text@) is None,
        },
{
    match serde_json::from_str::<serde_json::Value>(text) {
        Ok(v) => Some(json_of_value(&v)),
        Err(_) => None,
    }
}

} // verus!
