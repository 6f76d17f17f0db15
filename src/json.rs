//! A JSON document as plain values.
use vstd::prelude::*;

verus! {

/// A JSON number, classified as the service's JSON reader reports it.
#[derive(Debug, Clone, PartialEq)]
pub enum JsonNumber {
    /// A non-negative integer that fits in 64 unsigned bits.
    PosInt(u64),
    /// A negative integer that fits in 64 signed bits.
    NegInt(i64),
    /// Any other number, as its IEEE-754 binary64 bit pattern.
    Float(u64),
}

/// A JSON value. An object holds its members in the order the JSON reader
/// hands them over (for `serde_json` by default: sorted by name).
#[derive(Debug)]
pub enum JsonValue {
    Null,
    Bool(bool),
    Number(JsonNumber),
    String(String),
    Array(Vec<JsonValue>),
    Object(Vec<(String, JsonValue)>),
}

/// The first member of `fields` named `k`.
pub open spec fn obj_get(fields: Seq<(String, JsonValue)>, k: Seq<char>) -> Option<JsonValue>
    decreases fields.len(),
{
    if fields.len() == 0 {
        None
    } else if fields[0].0@ == k {
        Some(fields[0].1)
    } else {
        obj_get(fields.drop_first(), k)
    }
}

/// The member `k` of `j` when `j` is an object.
pub open spec fn json_get(j: JsonValue, k: Seq<char>) -> Option<JsonValue> {
    match j {
        JsonValue::Object(fields) => obj_get(fields@, k),
        _ => None,
    }
}

impl JsonValue {
    /// The member `key` of this value when it is an object.
    pub fn get(&self, key: &str) -> (r: Option<&JsonValue>)
        ensures
            match r {
                Some(v) => json_get(*self, key@) == Some(*v),
                None => json_get(*self, key@) is None,
            },
    {
        match self {
            JsonValue::Object(fields) => {
                let k = String::from_str(key);
                let n = fields.len();
                let mut i: usize = 0;
                assert(fields@.subrange(0, n as int) =~= fields@);
                while i < n
                    invariant
                        n == fields@.len(),
                        i <= n,
                        obj_get(fields@, key@) == obj_get(fields@.subrange(i as int, n as int), key@),
                        k@ == key@,
                        json_get(*self, key@) == obj_get(fields@, key@),
                    decreases n - i,
                {
                    let ghost rest = fields@.subrange(i as int, n as int);
                    assert(rest.drop_first() =~= fields@.subrange(i + 1, n as int));
                    assert(rest[0] == fields@[i as int]);
                    if fields[i].0 == k {
                        assert(obj_get(rest, key@) == Some(fields@[i as int].1));
                        return Some(&fields[i].1);
                    }
                    i = i + 1;
                }
                None
            },
            _ => None,
        }
    }
}

} // verus!
