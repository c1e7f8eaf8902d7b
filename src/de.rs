//! Reading JSON text, through the `json` crate's parser.

use crate::error::WofError;
use crate::text::chars_of;
use crate::value::{well_formed, Number, Value};
use vstd::prelude::*;

verus! {

#[verifier::external_type_specification]
#[verifier::external_body]
pub struct ExOutsideJsonValue(json::JsonValue);

/// The most fraction digits that a number may have: the parser lowers an
/// `i16` exponent once per fraction digit.
pub open spec fn max_fraction_digits() -> int {
    32767
}

/// The state of a scan of JSON text: inside a string, right after a
/// backslash in a string, and the number of fraction digits read so far in
/// the current number (-1 outside a fraction).
pub open spec fn scan_step(st: (bool, bool, int), c: char) -> (bool, bool, int) {
    let (in_str, esc, frac) = st;
    if in_str {
        if esc {
            (true, false, -1)
        } else if c == '\\' {
            (true, true, -1)
        } else if c == '"' {
            (false, false, -1)
        } else {
            (true, false, -1)
        }
    } else if c == '"' {
        (true, false, -1)
    } else if c == '.' {
        (false, false, 0)
    } else if '0' <= c && c <= '9' && frac >= 0 {
        (false, false, frac + 1)
    } else {
        (false, false, -1)
    }
}

pub open spec fn scan_state(s: Seq<char>) -> (bool, bool, int)
    decreases s.len(),
{
    if s.len() == 0 {
        (false, false, -1)
    } else {
        scan_step(scan_state(s.drop_last()), s.last())
    }
}

/// No number of the text has a fraction longer than `max_fraction_digits`
/// (text inside strings does not count).
pub open spec fn fractions_short(s: Seq<char>) -> bool
    decreases s.len(),
{
    s.len() == 0 || (fractions_short(s.drop_last()) && scan_state(s).2 <= max_fraction_digits())
}

/// Whether the fractions of the numbers of a text are short enough for the parser.
pub fn check_fractions(text: &str) -> (r: bool)
    ensures
        r == fractions_short(text@),
{
    let cs = chars_of(text);
    let mut in_str = false;
    let mut esc = false;
    let mut frac: i64 = -1;
    let mut i: usize = 0;
    while i < cs.len()
        invariant
            i <= cs@.len(),
            cs@ == text@,
            scan_state(cs@.take(i as int)) == (in_str, esc, frac as int),
            fractions_short(cs@.take(i as int)),
            -1 <= frac <= max_fraction_digits(),
        decreases cs@.len() - i,
    {
        let c = cs[i];
        if in_str {
            if esc {
                esc = false;
            } else if c == '\\' {
                esc = true;
            } else if c == '"' {
                in_str = false;
            }
            frac = -1;
        } else if c == '"' {
            in_str = true;
            frac = -1;
        } else if c == '.' {
            frac = 0;
        } else if '0' <= c && c <= '9' && frac >= 0 {
            frac = frac + 1;
        } else {
            frac = -1;
        }
        assert(cs@.take(i + 1).drop_last() =~= cs@.take(i as int));
        assert(cs@.take(i + 1).last() == c);
        if frac > 32767 {
            proof {
                lemma_short_prefix(cs@, i + 1);
            }
            return false;
        }
        i = i + 1;
    }
    assert(cs@.take(cs@.len() as int) =~= cs@);
    true
}

proof fn lemma_short_prefix(s: Seq<char>, n: int)
    requires
        0 <= n <= s.len(),
        !fractions_short(s.take(n)),
    ensures
        !fractions_short(s),
    decreases s.len() - n,
{
    if n < s.len() {
        assert(s.take(n + 1).drop_last() =~= s.take(n));
        lemma_short_prefix(s, n + 1);
    } else {
        assert(s.take(n) =~= s);
    }
}

/// The tree that `json::parse` gives for a text, in the library's terms;
/// none for a text that it refuses.
pub uninterp spec fn parsed_json(text: Seq<char>) -> Option<Value>;

/// Relies on the variants of `json::JsonValue` and on `json::number::Number::as_parts`
/// and `is_nan`: the same tree, with strings copied and numbers kept as their parts.
#[verifier::external_body]
fn from_outside(v: &json::JsonValue) -> Value {
    match v {
        json::JsonValue::Null => Value::Null,
        json::JsonValue::Short(s) => Value::Str(s.as_str().to_string()),
        json::JsonValue::String(s) => Value::Str(s.clone()),
        json::JsonValue::Number(n) => Value::Number(number_of_parts(n.as_parts(), n.is_nan())),
        json::JsonValue::Boolean(b) => Value::Boolean(*b),
        json::JsonValue::Object(o) => Value::Object(o.iter().map(|(k, x)| (k.to_string(), from_outside(x))).collect()),
        json::JsonValue::Array(a) => Value::Array(a.iter().map(from_outside).collect()),
    }
}

fn number_of_parts(parts: (bool, u64, i16), nan: bool) -> (r: Number)
    ensures
        r == (Number { positive: parts.0, mantissa: parts.1, exponent: parts.2, nan }),
{
    Number { positive: parts.0, mantissa: parts.1, exponent: parts.2, nan }
}

/// Relies on `json::parse`: the tree of a JSON text, or the parser's message.
/// Its objects have distinct keys: the parser inserts each key through
/// `Object::insert_index`, which replaces the value of a key already present.
/// The parser lowers an `i16` exponent for each fraction digit of a number,
/// so a longer fraction would overflow it.
#[verifier::external_body]
fn parse_outside(text: &str) -> (r: Result<Value, String>)
    requires
        fractions_short(text@),
    ensures
        r is Ok <==> parsed_json(text@) is Some,
        r matches Ok(v) ==> parsed_json(text@) == Some(v) && well_formed(v),
{
    match json::parse(text) {
        Ok(v) => Ok(from_outside(&v)),
        Err(e) => Err(format!("{}", e)),
    }
}

/// Parses a JSON text into a tree. A number whose fraction has more than
/// 32,767 digits is refused.
pub fn parse_string_to_json(buffer: &String) -> (r: Result<Value, WofError>)
    ensures
        r is Ok <==> fractions_short(buffer@) && parsed_json(buffer@) is Some,
        r matches Ok(v) ==> parsed_json(buffer@) == Some(v) && well_formed(v),
        r matches Err(e) ==> e is Parse,
{
    if !check_fractions(buffer.as_str()) {
        return Err(WofError::Parse("number fraction too long".to_string()));
    }
    match parse_outside(buffer.as_str()) {
        Ok(v) => Ok(v),
        Err(m) => Err(WofError::Parse(m)),
    }
}

} // verus!
