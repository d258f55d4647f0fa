//! The library's model of an already-deserialized JSON document.
//!
//! The transport layer deserializes response bytes into this shape before the
//! typed extraction in `parse` runs. A number is kept as the exact value the
//! deserializer saw: a signed integer, an unsigned integer, or the raw
//! IEEE-754 bit pattern of a double. The bit pattern is never interpreted
//! here; it is handed back to the caller untouched.

use vstd::prelude::*;

verus! {

/// A JSON number: a signed integer, an unsigned integer, or the bit pattern
/// of a 64-bit IEEE-754 floating-point value.
#[derive(Clone, Copy, PartialEq, Eq, Structural, Debug)]
pub enum JsonNumber {
    /// An integer literal in signed 64-bit range.
    Int(i64),
    /// An integer literal in unsigned 64-bit range.
    UInt(u64),
    /// The bits of a floating-point literal, as `f64::to_bits` gives them.
    FloatBits(u64),
}

impl JsonNumber {
    /// The number as a signed 64-bit integer, when it is an integer literal
    /// in range; a floating-point literal never counts as an integer.
    pub open spec fn spec_as_int(self) -> Option<i64> {
        match self {
            JsonNumber::Int(i) => Some(i),
            JsonNumber::UInt(u) => if u <= i64::MAX as u64 {
                Some(u as i64)
            } else {
                None::<i64>
            },
            JsonNumber::FloatBits(_) => None::<i64>,
        }
    }

    /// Read the number back as a signed 64-bit integer, when it is one.
    pub fn as_int(&self) -> (r: Option<i64>)
        ensures
            r == self.spec_as_int(),
    {
        match *self {
            JsonNumber::Int(i) => Some(i),
            JsonNumber::UInt(u) => if u <= i64::MAX as u64 {
                Some(u as i64)
            } else {
                None
            },
            JsonNumber::FloatBits(_) => None,
        }
    }
}

/// A generic JSON value. An object is an ordered list of key/value pairs;
/// when a key occurs twice, lookups read the first occurrence.
pub enum JsonValue {
    Null,
    Bool(bool),
    Number(JsonNumber),
    Text(String),
    Array(Vec<JsonValue>),
    Object(Vec<(String, JsonValue)>),
}

/// The value under `key` in an object's pair list: the first pair whose key
/// matches, or nothing when no pair does.
pub open spec fn spec_lookup(ps: Seq<(String, JsonValue)>, key: Seq<char>) -> Option<JsonValue>
    decreases ps.len(),
{
    if ps.len() == 0 {
        None::<JsonValue>
    } else if ps[0].0@ == key {
        Some(ps[0].1)
    } else {
        spec_lookup(ps.drop_first(), key)
    }
}

/// Find the value under `key` in an object's pair list.
pub fn lookup<'a>(pairs: &'a Vec<(String, JsonValue)>, key: &str) -> (r: Option<&'a JsonValue>)
    ensures
        match r {
            Some(v) => spec_lookup(pairs@, key@) == Some(*v),
            None => spec_lookup(pairs@, key@) is None,
        },
{
    let k: String = key.to_owned();
    let mut i: usize = 0;
    proof {
        assert(pairs@.skip(0) =~= pairs@);
    }
    while i < pairs.len()
        invariant
            0 <= i <= pairs@.len(),
            k@ == key@,
            spec_lookup(pairs@, key@) == spec_lookup(pairs@.skip(i as int), key@),
        decreases pairs@.len() - i,
    {
        proof {
            assert(pairs@.skip(i as int)[0] == pairs@[i as int]);
            assert(pairs@.skip(i as int).drop_first() =~= pairs@.skip(i as int + 1));
        }
        let p = &pairs[i];
        if p.0 == k {
            return Some(&p.1);
        }
        i = i + 1;
    }
    proof {
        assert(pairs@.skip(i as int) =~= Seq::<(String, JsonValue)>::empty());
    }
    None
}

} // verus!
