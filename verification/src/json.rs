//! JSON documents as plain values, with the accessors that reading provider
//! answers needs. Parsing the text is the caller's part; an object holds each
//! key once, as a parsed document does.

use vstd::prelude::*;

verus! {

/// A JSON number: a non-negative integer, a negative one, or a fraction, whose
/// value nothing here reads.
#[derive(Debug, Clone, Copy, PartialEq, Eq, Structural)]
pub enum JsonNumber {
    PosInt(u64),
    NegInt(i64),
    Float,
}

#[derive(Debug, PartialEq, Eq)]
pub enum JsonValue {
    Null,
    Bool(bool),
    Number(JsonNumber),
    String(String),
    Array(Vec<JsonValue>),
    Object(Vec<(String, JsonValue)>),
}

/// The value under a key of an object's entries.
pub open spec fn entry(pairs: Seq<(String, JsonValue)>, key: Seq<char>) -> Option<JsonValue>
    decreases pairs.len(),
{
    if pairs.len() == 0 {
        None
    } else if pairs[0].0@ == key {
        Some(pairs[0].1)
    } else {
        entry(pairs.drop_first(), key)
    }
}

/// `Value::get` with a key: the member of an object.
pub open spec fn field(v: JsonValue, key: Seq<char>) -> Option<JsonValue> {
    match v {
        JsonValue::Object(pairs) => entry(pairs@, key),
        _ => None,
    }
}

/// `Value::as_str`.
pub open spec fn text_of(v: JsonValue) -> Option<Seq<char>> {
    match v {
        JsonValue::String(s) => Some(s@),
        _ => None,
    }
}

/// `Value::as_u64`.
pub open spec fn unsigned_of(v: JsonValue) -> Option<u64> {
    match v {
        JsonValue::Number(JsonNumber::PosInt(n)) => Some(n),
        _ => None,
    }
}

/// `Value::as_i64`.
pub open spec fn signed_of(v: JsonValue) -> Option<i64> {
    match v {
        JsonValue::Number(JsonNumber::PosInt(n)) => if n <= i64::MAX {
            Some(n as i64)
        } else {
            None
        },
        JsonValue::Number(JsonNumber::NegInt(n)) => Some(n),
        _ => None,
    }
}

/// `Value::as_bool`.
pub open spec fn bool_of(v: JsonValue) -> Option<bool> {
    match v {
        JsonValue::Bool(b) => Some(b),
        _ => None,
    }
}

/// `Value::as_array`.
pub open spec fn items_of(v: JsonValue) -> Option<Seq<JsonValue>> {
    match v {
        JsonValue::Array(items) => Some(items@),
        _ => None,
    }
}

/// The value under a key of an object's entries.
pub fn get_entry<'a>(pairs: &'a Vec<(String, JsonValue)>, key: &str) -> (r: Option<&'a JsonValue>)
    ensures
        match r {
            Some(x) => entry(pairs@, key@) == Some(*x),
            None => entry(pairs@, key@) is None,
        },
{
    let mut i: usize = 0;
    assert(pairs@.skip(0) =~= pairs@);
    while i < pairs.len()
        invariant
            i <= pairs@.len(),
            entry(pairs@, key@) == entry(pairs@.skip(i as int), key@),
        decreases pairs@.len() - i,
    {
        let ghost rest = pairs@.skip(i as int);
        assert(rest[0] == pairs@[i as int]);
        assert(rest.drop_first() =~= pairs@.skip(i + 1));
        if crate::text::str_eq(pairs[i].0.as_str(), key) {
            return Some(&pairs[i].1);
        }
        i = i + 1;
    }
    None
}

/// A member of an object, by key.
pub fn get<'a>(v: &'a JsonValue, key: &str) -> (r: Option<&'a JsonValue>)
    ensures
        match r {
            Some(x) => field(*v, key@) == Some(*x),
            None => field(*v, key@) is None,
        },
{
    match v {
        JsonValue::Object(pairs) => get_entry(pairs, key),
        _ => None,
    }
}

/// The text of a string value.
pub fn as_text(v: &JsonValue) -> (r: Option<&str>)
    ensures
        match r {
            Some(s) => text_of(*v) == Some(s@),
            None => text_of(*v) is None,
        },
{
    match v {
        JsonValue::String(s) => Some(s.as_str()),
        _ => None,
    }
}

pub fn as_unsigned(v: &JsonValue) -> (r: Option<u64>)
    ensures
        r == unsigned_of(*v),
{
    match v {
        JsonValue::Number(JsonNumber::PosInt(n)) => Some(*n),
        _ => None,
    }
}

pub fn as_signed(v: &JsonValue) -> (r: Option<i64>)
    ensures
        r == signed_of(*v),
{
    match v {
        JsonValue::Number(JsonNumber::PosInt(n)) => {
            if *n <= i64::MAX as u64 {
                Some(*n as i64)
            } else {
                None
            }
        },
        JsonValue::Number(JsonNumber::NegInt(n)) => Some(*n),
        _ => None,
    }
}

pub fn as_bool(v: &JsonValue) -> (r: Option<bool>)
    ensures
        r == bool_of(*v),
{
    match v {
        JsonValue::Bool(b) => Some(*b),
        _ => None,
    }
}

pub fn as_items(v: &JsonValue) -> (r: Option<&Vec<JsonValue>>)
    ensures
        match r {
            Some(items) => items_of(*v) == Some(items@),
            None => items_of(*v) is None,
        },
{
    match v {
        JsonValue::Array(items) => Some(items),
        _ => None,
    }
}

/// A string member, as text.
pub open spec fn text_field(v: JsonValue, key: Seq<char>) -> Option<Seq<char>> {
    match field(v, key) {
        Some(x) => text_of(x),
        None => None,
    }
}

/// The text of a string member.
pub fn get_text<'a>(v: &'a JsonValue, key: &str) -> (r: Option<&'a str>)
    ensures
        match r {
            Some(s) => text_field(*v, key@) == Some(s@),
            None => text_field(*v, key@) is None,
        },
{
    match get(v, key) {
        Some(x) => as_text(x),
        None => None,
    }
}

/// An unsigned integer member.
pub open spec fn unsigned_field(v: JsonValue, key: Seq<char>) -> Option<u64> {
    match field(v, key) {
        Some(x) => unsigned_of(x),
        None => None,
    }
}

/// The value of an unsigned integer member.
pub fn get_unsigned(v: &JsonValue, key: &str) -> (r: Option<u64>)
    ensures
        r == unsigned_field(*v, key@),
{
    match get(v, key) {
        Some(x) => as_unsigned(x),
        None => None,
    }
}

/// An entry added under a new key is found under it; other keys are unchanged.
pub proof fn lemma_entry_push(pairs: Seq<(String, JsonValue)>, x: (String, JsonValue), key: Seq<char>)
    requires
        entry(pairs, x.0@) is None,
    ensures
        entry(pairs.push(x), key) == if key == x.0@ {
            Some(x.1)
        } else {
            entry(pairs, key)
        },
    decreases pairs.len(),
{
    let pushed = pairs.push(x);
    if pairs.len() == 0 {
        assert(pushed.drop_first() =~= Seq::<(String, JsonValue)>::empty());
        assert(pushed[0] == x);
        assert(entry(pushed.drop_first(), key) is None);
        assert(entry(pushed, key) == (if x.0@ == key { Some(x.1) } else { None }));
    } else {
        assert(pairs.push(x).drop_first() =~= pairs.drop_first().push(x));
        assert(pairs.push(x)[0] == pairs[0]);
        assert(pairs[0].0@ != x.0@);
        assert(entry(pairs.drop_first(), x.0@) is None);
        lemma_entry_push(pairs.drop_first(), x, key);
        if pairs[0].0@ == key {
            assert(entry(pushed, key) == Some(pairs[0].1));
        } else {
            assert(entry(pushed, key) == entry(pushed.drop_first(), key));
        }
    }
}

} // verus!
