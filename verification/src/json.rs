//! The JSON value model the wire codec decodes from.
//!
//! Backend responses arrive as JSON documents; the codec reads them through
//! this model, which holds exactly what the decode rules inspect: null,
//! booleans, integers, strings, arrays and objects. Numbers outside the
//! signed 64-bit range (and non-integers) decode as [`JsonValue::Other`],
//! which no rule accepts. The boundary that talks to a JSON parser builds
//! this model from the parser's value type.

use vstd::prelude::*;

verus! {

/// One JSON value, as the decode rules see it.
#[derive(Debug)]
pub enum JsonValue {
    /// JSON `null`.
    Null,
    /// A boolean.
    Bool(bool),
    /// An integer that fits in `i64`.
    Num(i64),
    /// A string.
    Str(String),
    /// An array.
    Arr(Vec<JsonValue>),
    /// An object: fields in document order.
    Obj(Vec<(String, JsonValue)>),
    /// A number no decode rule accepts (non-integer or out of range).
    Other,
}

/// The value of the first field named `key`, if any.
pub open spec fn obj_lookup(fields: Seq<(String, JsonValue)>, key: Seq<char>) -> Option<JsonValue>
    decreases fields.len(),
{
    if fields.len() == 0 {
        None
    } else if fields[0].0@ == key {
        Some(fields[0].1)
    } else {
        obj_lookup(fields.drop_first(), key)
    }
}

/// The field `key` of `v`, when `v` is an object that has it.
pub open spec fn json_get(v: JsonValue, key: Seq<char>) -> Option<JsonValue> {
    match v {
        JsonValue::Obj(fields) => obj_lookup(fields@, key),
        _ => None,
    }
}

/// The integer behind `v`, when `v` holds one.
pub open spec fn json_i64(v: Option<JsonValue>) -> Option<i64> {
    match v {
        Some(JsonValue::Num(n)) => Some(n),
        _ => None,
    }
}

/// The string behind `v`, when `v` holds one.
pub open spec fn json_str(v: Option<JsonValue>) -> Option<Seq<char>> {
    match v {
        Some(JsonValue::Str(s)) => Some(s@),
        _ => None,
    }
}

/// A lookup that skipped a non-matching prefix sees the rest alone.
proof fn lemma_obj_lookup_skip(fields: Seq<(String, JsonValue)>, key: Seq<char>, i: int)
    requires
        0 <= i <= fields.len(),
        forall|k: int| 0 <= k < i ==> (#[trigger] fields[k]).0@ != key,
    ensures
        obj_lookup(fields, key) == obj_lookup(fields.subrange(i, fields.len() as int), key),
    decreases i,
{
    if i == 0 {
        assert(fields.subrange(0, fields.len() as int) =~= fields);
    } else {
        assert((fields[0]).0@ != key);
        assert forall|k: int| 0 <= k < i - 1 implies (#[trigger] fields.drop_first()[k]).0@
            != key by {
            assert(fields.drop_first()[k] == fields[k + 1]);
        }
        lemma_obj_lookup_skip(fields.drop_first(), key, i - 1);
        assert(fields.drop_first().subrange(i - 1, fields.drop_first().len() as int) =~= fields
            .subrange(i, fields.len() as int));
    }
}

impl JsonValue {
    /// The first field named `key`, when this is an object that has one.
    #[verifier::loop_isolation(false)]
    pub fn get<'a>(&'a self, key: &str) -> (r: Option<&'a JsonValue>)
        ensures
            match r {
                Some(f) => json_get(*self, key@) == Some(*f),
                None => json_get(*self, key@) is None,
            },
    {
        match self {
            JsonValue::Obj(fields) => {
                let k: String = key.to_owned();
                let n = fields.len();
                let mut i: usize = 0;
                while i < n
                    invariant
                        i <= n,
                        n == fields@.len(),
                        forall|j: int| 0 <= j < i ==> (#[trigger] fields@[j]).0@ != key@,
                    decreases n - i,
                {
                    if fields[i].0 == k {
                        proof {
                            lemma_obj_lookup_skip(fields@, key@, i as int);
                            assert(fields@.subrange(i as int, fields@.len() as int)[0]
                                == fields@[i as int]);
                        }
                        return Some(&fields[i].1);
                    }
                    i = i + 1;
                }
                proof {
                    lemma_obj_lookup_skip(fields@, key@, n as int);
                    assert(fields@.subrange(n as int, fields@.len() as int) =~= Seq::<
                        (String, JsonValue),
                    >::empty());
                }
                None
            },
            _ => None,
        }
    }

    /// The integer this value holds, if it is an in-range integer.
    pub fn as_i64(&self) -> (r: Option<i64>)
        ensures
            r == json_i64(Some(*self)),
    {
        match self {
            JsonValue::Num(n) => Some(*n),
            _ => None,
        }
    }

    /// The string this value holds, if it is a string.
    pub fn as_str<'a>(&'a self) -> (r: Option<&'a String>)
        ensures
            match r {
                Some(s) => json_str(Some(*self)) == Some(s@),
                None => json_str(Some(*self)) is None,
            },
    {
        match self {
            JsonValue::Str(s) => Some(s),
            _ => None,
        }
    }
}

} // verus!
