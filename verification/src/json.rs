//! A plain model of parsed JSON documents.
//!
//! Catalog answers arrive as JSON text.  The text is parsed by an outside
//! parser behind a trusted boundary; everything read out of the parsed tree
//! is handled by the verified accessors below.  A number keeps its decimal
//! rendering as a string, so the model holds plain values only.

use vstd::prelude::*;
use crate::strutil::{chars_of, digits_val, is_digit, is_digit_exec, lemma_digits_val_bound,
    lemma_pow10_mono, pow10, str_eq};

verus! {

/// A parsed JSON value over plain data.
pub enum JsonValue {
    /// The JSON null value.
    Null,
    /// A JSON boolean.
    Bool(bool),
    /// A JSON number, kept as its decimal rendering.
    Num(String),
    /// A JSON string.
    Str(String),
    /// A JSON array.
    Arr(Vec<JsonValue>),
    /// A JSON object, as its key-value pairs in sorted key order, the way
    /// the parser's object representation yields them; keys are unique.
    Obj(Vec<(String, JsonValue)>),
}

#[verifier::external_type_specification]
#[verifier::external_body]
pub struct ExJsonRaw(serde_json::Value);

/// What parsing a JSON text yields: a function of the text alone.
pub uninterp spec fn json_of(s: Seq<char>) -> Option<JsonValue>;

/// Relies on serde_json::Value: one arm per variant of the parsed tree,
/// moving its contents into the plain model; a number keeps serde_json's
/// decimal rendering.
#[verifier::external_body]
fn to_plain(v: &serde_json::Value) -> JsonValue {
    match v {
        serde_json::Value::Null => JsonValue::Null,
        serde_json::Value::Bool(b) => JsonValue::Bool(*b),
        serde_json::Value::Number(n) => JsonValue::Num(n.to_string()),
        serde_json::Value::String(s) => JsonValue::Str(s.clone()),
        serde_json::Value::Array(a) => JsonValue::Arr(a.iter().map(to_plain).collect()),
        serde_json::Value::Object(m) => JsonValue::Obj(
            m.iter().map(|(k, x)| (k.clone(), to_plain(x))).collect(),
        ),
    }
}

/// Relies on serde_json::from_str: parses JSON text; what the same text
/// parses to never changes.
#[verifier::external_body]
pub fn parse_json(s: &str) -> (r: Option<JsonValue>)
    ensures
        r == json_of(s@),
{
    match serde_json::from_str::<serde_json::Value>(s) {
        Ok(v) => Some(to_plain(&v)),
        Err(_) => None,
    }
}

/// The value under `key` when the value is an object holding that key.
pub open spec fn obj_lookup(pairs: Seq<(String, JsonValue)>, key: Seq<char>) -> Option<JsonValue>
    decreases pairs.len(),
{
    if pairs.len() == 0 {
        None
    } else if pairs[0].0@ == key {
        Some(pairs[0].1)
    } else {
        obj_lookup(pairs.skip(1), key)
    }
}

/// The member of an object value under `key`, if the value is an object and
/// holds the key.
pub open spec fn spec_get(v: JsonValue, key: Seq<char>) -> Option<JsonValue> {
    match v {
        JsonValue::Obj(pairs) => obj_lookup(pairs@, key),
        _ => None,
    }
}

/// The characters of a string value.
pub open spec fn spec_as_str(v: JsonValue) -> Option<Seq<char>> {
    match v {
        JsonValue::Str(s) => Some(s@),
        _ => None,
    }
}

/// The elements of an array value.
pub open spec fn spec_as_arr(v: JsonValue) -> Option<Seq<JsonValue>> {
    match v {
        JsonValue::Arr(a) => Some(a@),
        _ => None,
    }
}

/// Every character of the sequence is a decimal digit.
pub open spec fn all_digits(s: Seq<char>) -> bool {
    forall|i: int| 0 <= i < s.len() ==> is_digit(#[trigger] s[i])
}

/// The integer a decimal rendering stands for: an optional minus sign and
/// one to eighteen digits; anything else (a fraction, an exponent, a longer
/// number) stands for no integer.
pub open spec fn int_of_rendering(s: Seq<char>) -> Option<int> {
    if s.len() >= 2 && s[0] == '-' && all_digits(s.skip(1)) && s.len() <= 19 {
        Some(-digits_val(s.skip(1)))
    } else if s.len() >= 1 && all_digits(s) && s.len() <= 18 {
        Some(digits_val(s))
    } else {
        None
    }
}

/// The integer a number value stands for, if it is one.
pub open spec fn spec_as_int(v: JsonValue) -> Option<int> {
    match v {
        JsonValue::Num(s) => int_of_rendering(s@),
        _ => None,
    }
}

/// The decimal rendering of a number value.
pub open spec fn spec_num_rendering(v: JsonValue) -> Option<Seq<char>> {
    match v {
        JsonValue::Num(s) => Some(s@),
        _ => None,
    }
}

impl JsonValue {
    /// The member under `key`, when this is an object holding that key.
    pub fn get<'a>(&'a self, key: &str) -> (r: Option<&'a JsonValue>)
        ensures
            match r {
                Some(v) => spec_get(*self, key@) == Some(*v),
                None => spec_get(*self, key@) is None,
            },
    {
        match self {
            JsonValue::Obj(pairs) => {
                let ghost all = pairs@;
                let mut i: usize = 0;
                proof {
                    assert(all.skip(0) =~= all);
                }
                while i < pairs.len()
                    invariant
                        i <= pairs@.len(),
                        pairs@ == all,
                        spec_get(*self, key@) == obj_lookup(all, key@),
                        obj_lookup(all, key@) == obj_lookup(all.skip(i as int), key@),
                    decreases pairs.len() - i,
                {
                    proof {
                        assert(all.skip(i as int)[0] == all[i as int]);
                        assert(all.skip(i as int).skip(1) =~= all.skip(i as int + 1));
                    }
                    if str_eq(pairs[i].0.as_str(), key) {
                        proof {
                            assert(all.skip(i as int).len() > 0);
                            assert(all.skip(i as int)[0].0@ == key@);
                            assert(obj_lookup(all.skip(i as int), key@) == Some(all[i as int].1));
                            assert(obj_lookup(all, key@) == Some(all[i as int].1));
                            assert(spec_get(*self, key@) == obj_lookup(all, key@));
                        }
                        return Some(&pairs[i].1);
                    }
                    i = i + 1;
                }
                proof {
                    assert(all.skip(i as int) =~= Seq::<(String, JsonValue)>::empty());
                }
                None
            },
            _ => None,
        }
    }

    /// The string contents, when this is a string value.
    pub fn as_str<'a>(&'a self) -> (r: Option<&'a String>)
        ensures
            match r {
                Some(s) => *self == JsonValue::Str(*s) && spec_as_str(*self) == Some(s@),
                None => spec_as_str(*self) is None,
            },
    {
        match self {
            JsonValue::Str(s) => Some(s),
            _ => None,
        }
    }

    /// The elements, when this is an array value.
    pub fn as_arr<'a>(&'a self) -> (r: Option<&'a Vec<JsonValue>>)
        ensures
            match r {
                Some(a) => *self == JsonValue::Arr(*a) && spec_as_arr(*self) == Some(a@),
                None => spec_as_arr(*self) is None,
            },
    {
        match self {
            JsonValue::Arr(a) => Some(a),
            _ => None,
        }
    }

    /// The decimal rendering, when this is a number value.
    pub fn num_rendering<'a>(&'a self) -> (r: Option<&'a String>)
        ensures
            match r {
                Some(s) => *self == JsonValue::Num(*s) && spec_num_rendering(*self) == Some(s@),
                None => spec_num_rendering(*self) is None,
            },
    {
        match self {
            JsonValue::Num(s) => Some(s),
            _ => None,
        }
    }

    /// The integer this number value stands for, when it is one.
    pub fn as_int(&self) -> (r: Option<i64>)
        ensures
            match r {
                Some(v) => spec_as_int(*self) == Some(v as int),
                None => spec_as_int(*self) is None,
            },
    {
        match self {
            JsonValue::Num(s) => parse_int_str(s.as_str()),
            _ => None,
        }
    }
}

/// The integer a decimal rendering stands for, if any.
pub fn parse_int_str(s: &str) -> (r: Option<i64>)
    ensures
        match r {
            Some(v) => int_of_rendering(s@) == Some(v as int),
            None => int_of_rendering(s@) is None,
        },
{
    let v = chars_of(s);
    let n = v.len();
    if n == 0 {
        return None;
    }
    let neg = v[0] == '-';
    let start: usize = if neg {
        1
    } else {
        0
    };
    if n - start < 1 || n - start > 18 {
        return None;
    }
    let mut i = start;
    while i < n
        invariant
            start <= i <= n == v@.len(),
            v@ == s@,
            n >= 1,
            neg == (v@[0] == '-'),
            start == if neg {
                1int
            } else {
                0int
            },
            forall|k: int| start <= k < i ==> is_digit(#[trigger] v@[k]),
        decreases n - i,
    {
        if !is_digit_exec(v[i]) {
            proof {
                if neg {
                    assert(s@.skip(1)[i - 1] == s@[i as int]);
                    assert(!all_digits(s@.skip(1)));
                } else {
                    assert(!all_digits(s@));
                }
            }
            return None;
        }
        i = i + 1;
    }
    proof {
        if neg {
            assert(forall|k: int|
                0 <= k < s@.skip(1).len() ==> is_digit(#[trigger] s@.skip(1)[k]));
        }
        lemma_digits_val_bound(v@.subrange(start as int, n as int));
        lemma_pow10_mono((n - start) as nat, 18);
        reveal_with_fuel(pow10, 19);
        assert(pow10(18) == 1000000000000000000int);
    }
    let hi = parse_digits_wide(&v, start, n);
    if neg {
        proof {
            assert(s@.skip(1) =~= v@.subrange(1, n as int));
        }
        Some(-hi)
    } else {
        proof {
            assert(s@ =~= v@.subrange(0, n as int));
        }
        Some(hi)
    }
}

/// The value of up to eighteen digits, most significant first.
fn parse_digits_wide(s: &Vec<char>, start: usize, end: usize) -> (r: i64)
    requires
        start <= end <= s@.len(),
        1 <= end - start <= 18,
        forall|i: int| start <= i < end ==> is_digit(#[trigger] s@[i]),
    ensures
        r == digits_val(s@.subrange(start as int, end as int)),
        0 <= r,
{
    proof {
        lemma_digits_val_bound(s@.subrange(start as int, end as int));
    }
    let mut r: i64 = 0;
    let mut i = start;
    while i < end
        invariant
            start <= i <= end <= s@.len(),
            end - start <= 18,
            forall|k: int| start <= k < end ==> is_digit(#[trigger] s@[k]),
            r == digits_val(s@.subrange(start as int, i as int)),
            0 <= r < pow10((i - start) as nat),
        decreases end - i,
    {
        proof {
            lemma_digits_val_bound(s@.subrange(start as int, i as int));
            lemma_pow10_mono((i - start) as nat, 17);
            reveal_with_fuel(pow10, 19);
            assert(pow10(17) == 100000000000000000int);
            assert(s@.subrange(start as int, (i + 1) as int).drop_last() =~= s@.subrange(
                start as int,
                i as int,
            ));
            assert(s@.subrange(start as int, (i + 1) as int).last() == s@[i as int]);
        }
        r = r * 10 + (crate::strutil::digit_exec(s[i]) as i64);
        i = i + 1;
        proof {
            lemma_digits_val_bound(s@.subrange(start as int, i as int));
        }
    }
    r
}

} // verus!
