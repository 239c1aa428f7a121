//! A JSON document as plain values, and the lenient field access the Web API
//! parsers use: a missing key, a wrong kind or an index past the end all read
//! as `null`.
use vstd::prelude::*;
use crate::text::str_equal;

verus! {

/// What a JSON number offers as an integer: `as_u64` for non-negative
/// integers, `as_i64` for integers within `i64`; both are `None` for other
/// numbers.
#[derive(Clone, Copy, Debug, PartialEq, Eq, Structural)]
pub struct JsonNumber {
    pub as_u64: Option<u64>,
    pub as_i64: Option<i64>,
}

/// A JSON value. Object members keep their document order; keys are unique.
#[derive(Debug)]
pub enum JsonValue {
    Null,
    Bool(bool),
    Number(JsonNumber),
    Str(String),
    Array(Vec<JsonValue>),
    Object(Vec<(String, JsonValue)>),
}

/// The value under `key` among object members (the first such member).
pub open spec fn lookup(members: Seq<(String, JsonValue)>, key: Seq<char>) -> Option<JsonValue>
    decreases members.len(),
{
    if members.len() == 0 {
        None
    } else {
        match lookup(members.drop_last(), key) {
            Some(v) => Some(v),
            None => if members.last().0@ == key {
                Some(members.last().1)
            } else {
                None
            },
        }
    }
}

/// The member of object `v` under `key`; `None` when `v` is not an object
/// or has no such member.
pub open spec fn member(v: JsonValue, key: Seq<char>) -> Option<JsonValue> {
    match v {
        JsonValue::Object(ms) => lookup(ms@, key),
        _ => None,
    }
}

/// `v[key]`: the member's value, or `null` when `v` is not an object or has
/// no such member.
pub open spec fn field(v: JsonValue, key: Seq<char>) -> JsonValue {
    match v {
        JsonValue::Object(ms) => match lookup(ms@, key) {
            Some(x) => x,
            None => JsonValue::Null,
        },
        _ => JsonValue::Null,
    }
}

/// `v[i]`: the element, or `null` when `v` is not an array or is too short.
pub open spec fn elem(v: JsonValue, i: int) -> JsonValue {
    match v {
        JsonValue::Array(a) => if 0 <= i < a@.len() {
            a@[i]
        } else {
            JsonValue::Null
        },
        _ => JsonValue::Null,
    }
}

pub open spec fn as_str(v: JsonValue) -> Option<Seq<char>> {
    match v {
        JsonValue::Str(s) => Some(s@),
        _ => None,
    }
}

pub open spec fn as_u64(v: JsonValue) -> Option<u64> {
    match v {
        JsonValue::Number(n) => n.as_u64,
        _ => None,
    }
}

pub open spec fn as_i64(v: JsonValue) -> Option<i64> {
    match v {
        JsonValue::Number(n) => n.as_i64,
        _ => None,
    }
}

pub open spec fn as_bool(v: JsonValue) -> Option<bool> {
    match v {
        JsonValue::Bool(b) => Some(b),
        _ => None,
    }
}

pub open spec fn as_array(v: JsonValue) -> Option<Seq<JsonValue>> {
    match v {
        JsonValue::Array(a) => Some(a@),
        _ => None,
    }
}

pub open spec fn is_object(v: JsonValue) -> bool {
    v is Object
}

pub open spec fn is_null(v: JsonValue) -> bool {
    v is Null
}

/// `opt.unwrap_or(default)` for texts.
pub open spec fn str_or(v: JsonValue, default: Seq<char>) -> Seq<char> {
    match as_str(v) {
        Some(s) => s,
        None => default,
    }
}

/// The elements when `v` is an array, none otherwise.
pub open spec fn items_of(v: JsonValue) -> Seq<JsonValue> {
    match as_array(v) {
        Some(a) => a,
        None => Seq::empty(),
    }
}

proof fn lemma_lookup_extends(ms: Seq<(String, JsonValue)>, rest: Seq<(String, JsonValue)>, key: Seq<char>)
    requires
        lookup(ms, key) is Some,
    ensures
        lookup(ms + rest, key) == lookup(ms, key),
    decreases rest.len(),
{
    if rest.len() > 0 {
        lemma_lookup_extends(ms, rest.drop_last(), key);
        assert((ms + rest).drop_last() =~= ms + rest.drop_last());
    } else {
        assert(ms + rest =~= ms);
    }
}

/// The JSON `null`.
pub fn null() -> (v: JsonValue)
    ensures
        v == JsonValue::Null,
{
    JsonValue::Null
}

impl JsonValue {
    /// `self.get(key)`: the member under `key` when `self` is an object that
    /// has one (a member whose value is `null` included).
    pub fn get(&self, key: &str) -> (r: Option<&JsonValue>)
        ensures
            match r {
                Some(x) => member(*self, key@) == Some(*x) && *x == field(*self, key@),
                None => member(*self, key@) is None && field(*self, key@) == JsonValue::Null,
            },
    {
        match self {
            JsonValue::Object(ms) => {
                let mut i: usize = 0;
                while i < ms.len()
                    invariant
                        i <= ms.len(),
                        *self == JsonValue::Object(*ms),
                        lookup(ms@.take(i as int), key@) is None,
                    decreases ms.len() - i,
                {
                    assert(ms@.take(i as int + 1).drop_last() =~= ms@.take(i as int));
                    if str_equal(ms[i].0.as_str(), key) {
                        proof {
                            assert(ms@.take(i as int + 1).last() == ms@[i as int]);
                            assert(lookup(ms@.take(i as int + 1), key@) == Some(ms@[i as int].1));
                            lemma_lookup_extends(ms@.take(i as int + 1), ms@.skip(i as int + 1), key@);
                            assert(ms@.take(i as int + 1) + ms@.skip(i as int + 1) =~= ms@);
                        }
                        return Some(&ms[i].1);
                    }
                    i += 1;
                }
                assert(ms@.take(ms.len() as int) =~= ms@);
                None
            },
            _ => None,
        }
    }

    /// `self[i]` when present; `None` stands for `null`.
    pub fn at(&self, i: usize) -> (r: Option<&JsonValue>)
        ensures
            match r {
                Some(x) => *x == elem(*self, i as int),
                None => elem(*self, i as int) == JsonValue::Null,
            },
    {
        match self {
            JsonValue::Array(a) => if i < a.len() {
                Some(&a[i])
            } else {
                None
            },
            _ => None,
        }
    }

    pub fn as_str(&self) -> (r: Option<&str>)
        ensures
            match r {
                Some(s) => as_str(*self) == Some(s@),
                None => as_str(*self) is None,
            },
    {
        match self {
            JsonValue::Str(s) => Some(s.as_str()),
            _ => None,
        }
    }

    pub fn as_u64(&self) -> (r: Option<u64>)
        ensures
            r == as_u64(*self),
    {
        match self {
            JsonValue::Number(n) => n.as_u64,
            _ => None,
        }
    }

    pub fn as_i64(&self) -> (r: Option<i64>)
        ensures
            r == as_i64(*self),
    {
        match self {
            JsonValue::Number(n) => n.as_i64,
            _ => None,
        }
    }

    pub fn as_bool(&self) -> (r: Option<bool>)
        ensures
            r == as_bool(*self),
    {
        match self {
            JsonValue::Bool(b) => Some(*b),
            _ => None,
        }
    }

    pub fn as_array(&self) -> (r: Option<&Vec<JsonValue>>)
        ensures
            match r {
                Some(a) => as_array(*self) == Some(a@),
                None => as_array(*self) is None,
            },
    {
        match self {
            JsonValue::Array(a) => Some(a),
            _ => None,
        }
    }

    pub fn is_null(&self) -> (r: bool)
        ensures
            r == is_null(*self),
    {
        match self {
            JsonValue::Null => true,
            _ => false,
        }
    }

    pub fn is_object(&self) -> (r: bool)
        ensures
            r == is_object(*self),
    {
        match self {
            JsonValue::Object(_) => true,
            _ => false,
        }
    }
}

/// `v[key]`, reading a missing member as `null`.
pub fn field_of<'a>(v: &'a JsonValue, key: &str, null_value: &'a JsonValue) -> (r: &'a JsonValue)
    requires
        *null_value == JsonValue::Null,
    ensures
        *r == field(*v, key@),
{
    match v.get(key) {
        Some(x) => x,
        None => null_value,
    }
}

/// `v[i]`, reading a missing element as `null`.
pub fn elem_of<'a>(v: &'a JsonValue, i: usize, null_value: &'a JsonValue) -> (r: &'a JsonValue)
    requires
        *null_value == JsonValue::Null,
    ensures
        *r == elem(*v, i as int),
{
    match v.at(i) {
        Some(x) => x,
        None => null_value,
    }
}

/// `v.as_str().unwrap_or(default).to_string()`.
pub fn string_or(v: &JsonValue, default: &str) -> (s: String)
    ensures
        s@ == str_or(*v, default@),
{
    match v.as_str() {
        Some(s) => s.to_owned(),
        None => default.to_owned(),
    }
}

} // verus!
