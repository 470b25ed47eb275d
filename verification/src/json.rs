//! A plain JSON document, as the fixture checks read it, with lookups.
use vstd::prelude::*;
use crate::text::str_eq;

verus! {

/// A JSON number, by the two integer readings the checks use.
#[derive(Debug, Clone, Copy, PartialEq, Eq)]
pub struct JsonNumber {
    /// The number as a `u64`, when it is a non-negative integer that fits.
    pub as_u64: Option<u64>,
    /// The number as an `i64`, when it is an integer that fits.
    pub as_i64: Option<i64>,
}

/// A JSON value. An object keeps its members in document order.
#[derive(Debug)]
pub enum JsonValue {
    Null,
    Bool(bool),
    Number(JsonNumber),
    Text(String),
    Array(Vec<JsonValue>),
    Object(Vec<(String, JsonValue)>),
}

/// Index of the first member named `key`, or `-1`.
pub open spec fn first_member(es: Seq<(String, JsonValue)>, key: Seq<char>) -> int
    decreases es.len(),
{
    if es.len() == 0 {
        -1
    } else {
        let i = first_member(es.drop_last(), key);
        if i >= 0 {
            i
        } else if es.last().0@ == key {
            es.len() - 1
        } else {
            -1
        }
    }
}

/// The member `key` of an object (`Value::get` with a `&str`).
pub open spec fn member(v: JsonValue, key: Seq<char>) -> Option<JsonValue> {
    match v {
        JsonValue::Object(es) => {
            let i = first_member(es@, key);
            if i >= 0 {
                Some(es@[i].1)
            } else {
                None
            }
        },
        _ => None,
    }
}

/// An optional reference, read as an optional value.
pub open spec fn deref_opt(o: Option<&JsonValue>) -> Option<JsonValue> {
    match o {
        Some(x) => Some(*x),
        None => None,
    }
}

/// `o.and_then(|v| v.get(key))`.
pub open spec fn jget(o: Option<JsonValue>, key: Seq<char>) -> Option<JsonValue> {
    match o {
        Some(v) => member(v, key),
        None => None,
    }
}

/// `a.or_else(|| b)`.
pub open spec fn jor(a: Option<JsonValue>, b: Option<JsonValue>) -> Option<JsonValue> {
    if a is Some {
        a
    } else {
        b
    }
}

/// `o.and_then(Value::as_u64)`.
pub open spec fn ju64(o: Option<JsonValue>) -> Option<u64> {
    match o {
        Some(JsonValue::Number(n)) => n.as_u64,
        _ => None,
    }
}

/// `o.and_then(Value::as_i64)`.
pub open spec fn ji64(o: Option<JsonValue>) -> Option<i64> {
    match o {
        Some(JsonValue::Number(n)) => n.as_i64,
        _ => None,
    }
}

/// `o.and_then(Value::as_str)`.
pub open spec fn jstr(o: Option<JsonValue>) -> Option<Seq<char>> {
    match o {
        Some(JsonValue::Text(s)) => Some(s@),
        _ => None,
    }
}

/// `o.and_then(Value::as_array)`.
pub open spec fn jarr(o: Option<JsonValue>) -> Option<Seq<JsonValue>> {
    match o {
        Some(JsonValue::Array(a)) => Some(a@),
        _ => None,
    }
}

/// `o == Some(&Value::Bool(b))`.
pub open spec fn jis_bool(o: Option<JsonValue>, b: bool) -> bool {
    o == Some(JsonValue::Bool(b))
}

/// `o.and_then(Value::as_str) == Some(text)`.
pub open spec fn jstr_is(o: Option<JsonValue>, text: Seq<char>) -> bool {
    jstr(o) == Some(text)
}

impl JsonValue {
    /// The member `key` of an object; `None` for other values.
    pub fn get(&self, key: &str) -> (r: Option<&JsonValue>)
        ensures
            deref_opt(r) == member(*self, key@),
    {
        match self {
            JsonValue::Object(es) => {
                let mut i: usize = 0;
                while i < es.len()
                    invariant
                        i <= es@.len(),
                        *self == JsonValue::Object(*es),
                        first_member(es@.subrange(0, i as int), key@) == -1,
                    decreases es@.len() - i,
                {
                    proof {
                        assert(es@.subrange(0, i as int + 1).drop_last() =~= es@.subrange(0, i as int));
                    }
                    if str_eq(es[i].0.as_str(), key) {
                        proof {
                            lemma_first_prefix(es@, key@, i as int);
                            assert(member(*self, key@) == Some(es@[i as int].1));
                        }
                        return Some(&es[i].1);
                    }
                    i = i + 1;
                }
                proof {
                    assert(es@.subrange(0, es@.len() as int) =~= es@);
                }
                None
            },
            _ => None,
        }
    }
}

/// The first match in a prefix that ends at a match, when nothing before matched.
proof fn lemma_first_prefix(es: Seq<(String, JsonValue)>, key: Seq<char>, i: int)
    requires
        0 <= i < es.len(),
        first_member(es.subrange(0, i), key) == -1,
        es[i].0@ == key,
    ensures
        first_member(es, key) == i,
{
    lemma_first_extend(es, key, i + 1);
    let p = es.subrange(0, i + 1);
    assert(p.drop_last() =~= es.subrange(0, i));
}

/// The first match of a sequence is the first match of any prefix that holds a match.
proof fn lemma_first_extend(es: Seq<(String, JsonValue)>, key: Seq<char>, n: int)
    requires
        0 <= n <= es.len(),
        first_member(es.subrange(0, n), key) >= 0,
    ensures
        first_member(es, key) == first_member(es.subrange(0, n), key),
    decreases es.len() - n,
{
    if n < es.len() {
        let q = es.subrange(0, n + 1);
        assert(q.drop_last() =~= es.subrange(0, n));
        lemma_first_extend(es, key, n + 1);
    } else {
        assert(es.subrange(0, n) =~= es);
    }
}

/// `o.and_then(|v| v.get(key))`.
pub fn get_in<'a>(o: Option<&'a JsonValue>, key: &str) -> (r: Option<&'a JsonValue>)
    ensures
        deref_opt(r) == jget(deref_opt(o), key@),
{
    match o {
        Some(v) => v.get(key),
        None => None,
    }
}

/// `a.or_else(|| b)`.
pub fn or_else_ref<'a>(a: Option<&'a JsonValue>, b: Option<&'a JsonValue>) -> (r: Option<&'a JsonValue>)
    ensures
        deref_opt(r) == jor(deref_opt(a), deref_opt(b)),
{
    match a {
        Some(x) => Some(x),
        None => b,
    }
}

/// `o.and_then(Value::as_u64)`.
pub fn as_u64(o: Option<&JsonValue>) -> (r: Option<u64>)
    ensures
        r == ju64(deref_opt(o)),
{
    match o {
        Some(JsonValue::Number(n)) => n.as_u64,
        _ => None,
    }
}

/// `o.and_then(Value::as_i64)`.
pub fn as_i64(o: Option<&JsonValue>) -> (r: Option<i64>)
    ensures
        r == ji64(deref_opt(o)),
{
    match o {
        Some(JsonValue::Number(n)) => n.as_i64,
        _ => None,
    }
}

/// `o.and_then(Value::as_str)`.
pub fn as_str<'a>(o: Option<&'a JsonValue>) -> (r: Option<&'a str>)
    ensures
        match r {
            Some(s) => jstr(deref_opt(o)) == Some(s@),
            None => jstr(deref_opt(o)) is None,
        },
{
    match o {
        Some(JsonValue::Text(s)) => Some(s.as_str()),
        _ => None,
    }
}

/// `o.and_then(Value::as_array)`.
pub fn as_array<'a>(o: Option<&'a JsonValue>) -> (r: Option<&'a Vec<JsonValue>>)
    ensures
        match r {
            Some(a) => jarr(deref_opt(o)) == Some(a@),
            None => jarr(deref_opt(o)) is None,
        },
{
    match o {
        Some(JsonValue::Array(a)) => Some(a),
        _ => None,
    }
}

/// `o == Some(&Value::Bool(b))`.
pub fn is_bool(o: Option<&JsonValue>, b: bool) -> (r: bool)
    ensures
        r == jis_bool(deref_opt(o), b),
{
    match o {
        Some(JsonValue::Bool(x)) => *x == b,
        _ => false,
    }
}

/// `o.and_then(Value::as_str) == Some(text)`.
pub fn str_is(o: Option<&JsonValue>, text: &str) -> (r: bool)
    ensures
        r == jstr_is(deref_opt(o), text@),
{
    match as_str(o) {
        Some(s) => str_eq(s, text),
        None => false,
    }
}

} // verus!
