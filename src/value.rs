//! The JSON tree that the library works on. Numbers keep the decimal parts
//! that a JSON text writes (sign, mantissa, exponent), so that no value is
//! rounded on its way from a parsed document to the canonical text.

use vstd::prelude::*;

verus! {

/// A JSON number: `±mantissa·10^exponent`, or NaN.
#[derive(Debug, Clone, Copy, PartialEq, Eq, Structural)]
pub struct Number {
    pub positive: bool,
    pub mantissa: u64,
    pub exponent: i16,
    pub nan: bool,
}

/// The number of the integer `n`.
pub open spec fn i64_number(n: i64) -> Number {
    Number {
        positive: n >= 0,
        mantissa: (if n >= 0 {
            n as int
        } else {
            -(n as int)
        }) as u64,
        exponent: 0,
        nan: false,
    }
}

impl Number {
    /// The number `±mantissa·10^exponent`.
    pub fn from_parts(positive: bool, mantissa: u64, exponent: i16) -> (r: Number)
        ensures
            r == (Number { positive, mantissa, exponent, nan: false }),
    {
        Number { positive, mantissa, exponent, nan: false }
    }

    /// The integer `n`.
    pub fn from_i64(n: i64) -> (r: Number)
        ensures
            r == i64_number(n),
    {
        if n >= 0 {
            Number { positive: true, mantissa: n as u64, exponent: 0, nan: false }
        } else {
            let m: u64 = if n == i64::MIN {
                9223372036854775808u64
            } else {
                (-n) as u64
            };
            Number { positive: false, mantissa: m, exponent: 0, nan: false }
        }
    }

    pub fn as_parts(&self) -> (r: (bool, u64, i16))
        ensures
            r == (self.positive, self.mantissa, self.exponent),
    {
        (self.positive, self.mantissa, self.exponent)
    }

    pub fn is_nan(&self) -> (r: bool)
        ensures
            r == self.nan,
    {
        self.nan
    }
}

/// A JSON value. An object keeps its entries in insertion order.
#[derive(Debug, PartialEq)]
pub enum Value {
    Null,
    Boolean(bool),
    Number(Number),
    Str(String),
    Array(Vec<Value>),
    Object(Vec<(String, Value)>),
}

/// Every object of the tree has distinct keys, as a JSON object does.
pub open spec fn well_formed(v: Value) -> bool
    decreases v,
{
    match v {
        Value::Array(items) => forall|i: int|
            0 <= i < items@.len() ==> well_formed(#[trigger] items@[i]),
        Value::Object(entries) => (forall|i: int, j: int|
            0 <= i < j < entries@.len() ==> #[trigger] entries@[i].0@ != #[trigger] entries@[j].0@)
            && forall|i: int| 0 <= i < entries@.len() ==> well_formed((#[trigger] entries@[i]).1),
        _ => true,
    }
}

/// The entries of a JSON object.
pub type JsonObject = Vec<(String, Value)>;

/// The keys of a list of entries.
pub open spec fn keys_of(entries: Seq<(String, Value)>) -> Seq<Seq<char>> {
    entries.map_values(|e: (String, Value)| e.0@)
}

/// The views of a list of strings.
pub open spec fn views_of(v: Seq<String>) -> Seq<Seq<char>> {
    v.map_values(|k: String| k@)
}

/// The value of `key` among `entries`, if any (the first one).
pub open spec fn lookup(entries: Seq<(String, Value)>, key: Seq<char>) -> Option<Value>
    decreases entries.len(),
{
    if entries.len() == 0 {
        None
    } else if entries[0].0@ == key {
        Some(entries[0].1)
    } else {
        lookup(entries.skip(1), key)
    }
}

/// The value that `get` returns.
pub open spec fn field(v: Value, key: Seq<char>) -> Option<Value> {
    match v {
        Value::Object(entries) => lookup(entries@, key),
        _ => None,
    }
}

impl Value {
    /// The value of `key` when `self` is an object that has it.
    pub fn get(&self, key: &str) -> (r: Option<&Value>)
        ensures
            field(*self, key@) is None <==> r is None,
            r matches Some(x) ==> field(*self, key@) == Some(*x),
    {
        match self {
            Value::Object(entries) => get_entry(entries, key),
            _ => None,
        }
    }
}

/// The value of `key` among `entries`, the first one.
pub fn get_entry<'a>(entries: &'a Vec<(String, Value)>, key: &str) -> (r: Option<&'a Value>)
    ensures
        lookup(entries@, key@) is None <==> r is None,
        r matches Some(x) ==> lookup(entries@, key@) == Some(*x),
{
    let mut i: usize = 0;
    assert(entries@.skip(0) == entries@);
    while i < entries.len()
        invariant
            i <= entries@.len(),
            lookup(entries@, key@) == lookup(entries@.skip(i as int), key@),
        decreases entries@.len() - i,
    {
        if entries[i].0 == key.to_string() {
            return Some(&entries[i].1);
        }
        assert(entries@.skip(i as int).skip(1) == entries@.skip(i + 1));
        i = i + 1;
    }
    None
}

/// The integer value of `n` when it is one and fits in an `i32`
/// (exponent zero, as a parsed integer has).
pub open spec fn number_i32(n: Number) -> Option<i32> {
    let v: int = if n.positive {
        n.mantissa as int
    } else {
        -(n.mantissa as int)
    };
    if !n.nan && n.exponent == 0 && i32::MIN <= v <= i32::MAX {
        Some(v as i32)
    } else {
        None
    }
}

/// The value that `as_i32` returns.
pub open spec fn value_i32(v: Value) -> Option<i32> {
    match v {
        Value::Number(n) => number_i32(n),
        _ => None,
    }
}

/// The name of the kind of `v`.
pub open spec fn kind_name(v: Value) -> Seq<char> {
    match v {
        Value::Object(_) => "Object"@,
        Value::Array(_) => "Array"@,
        Value::Number(_) => "Number"@,
        Value::Str(_) => "String"@,
        Value::Boolean(_) => "Boolean"@,
        Value::Null => "Null"@,
    }
}

impl Number {
    /// The value as an `i32`, when it is an integer in range.
    pub fn as_i32(&self) -> (r: Option<i32>)
        ensures
            r == number_i32(*self),
    {
        if self.nan || self.exponent != 0 {
            return None;
        }
        if self.positive {
            if self.mantissa <= 2147483647 {
                Some(self.mantissa as i32)
            } else {
                None
            }
        } else {
            if self.mantissa <= 2147483648 {
                Some((0 - (self.mantissa as i64)) as i32)
            } else {
                None
            }
        }
    }
}

impl Value {
    /// The value as an `i32`, when it is an integral number in range.
    pub fn as_i32(&self) -> (r: Option<i32>)
        ensures
            r == value_i32(*self),
    {
        match self {
            Value::Number(n) => n.as_i32(),
            _ => None,
        }
    }

    /// The text of a string value.
    pub fn as_str(&self) -> (r: Option<&str>)
        ensures
            (*self is Str) <==> r is Some,
            r matches Some(s) ==> s@ == self->Str_0@,
    {
        match self {
            Value::Str(s) => Some(s.as_str()),
            _ => None,
        }
    }
}

/// Inspection of JSON values.
pub trait JsonUtils {
    /// The value inspected.
    spec fn json_view(&self) -> Value;

    fn type_as_string(&self) -> (r: &'static str)
        ensures
            r@ == kind_name(self.json_view()),
    ;

    fn assert_is_object(&self) -> (r: Result<(), String>)
        ensures
            r is Ok <==> self.json_view() is Object,
            r matches Err(m) ==> m@ == "This is not an object but a "@ + kind_name(self.json_view()),
    ;

    fn assert_is_array(&self) -> (r: Result<(), String>)
        ensures
            r is Ok <==> self.json_view() is Array,
            r matches Err(m) ==> m@ == "This is not an array but a "@ + kind_name(self.json_view()),
    ;

    fn assert_is_number(&self) -> (r: Result<(), String>)
        ensures
            r is Ok <==> self.json_view() is Number,
            r matches Err(m) ==> m@ == "This is not a number but a "@ + kind_name(self.json_view()),
    ;

    fn assert_is_string(&self) -> (r: Result<(), String>)
        ensures
            r is Ok <==> self.json_view() is Str,
            r matches Err(m) ==> m@ == "This is not a String but a "@ + kind_name(self.json_view()),
    ;

    fn as_object(&self) -> (r: Option<&JsonObject>)
        ensures
            r is Some <==> self.json_view() is Object,
            r matches Some(o) ==> *o == self.json_view()->Object_0,
    ;

    fn as_array(&self) -> (r: Option<&Vec<Value>>)
        ensures
            r is Some <==> self.json_view() is Array,
            r matches Some(a) ==> *a == self.json_view()->Array_0,
    ;

    /// The keys of an object, in order; none for another value.
    fn keys(&self) -> (r: Vec<String>)
        ensures
            views_of(r@) == (match self.json_view() {
                Value::Object(entries) => keys_of(entries@),
                _ => Seq::empty(),
            }),
    ;
}

fn message(prefix: &str, v: &Value) -> (r: String)
    ensures
        r@ == prefix@ + kind_name(*v),
{
    let mut m = prefix.to_string();
    m.append(v.type_as_string());
    m
}

impl JsonUtils for Value {
    open spec fn json_view(&self) -> Value {
        *self
    }

    fn type_as_string(&self) -> (r: &'static str) {
        match self {
            Value::Object(_) => "Object",
            Value::Array(_) => "Array",
            Value::Number(_) => "Number",
            Value::Str(_) => "String",
            Value::Boolean(_) => "Boolean",
            Value::Null => "Null",
        }
    }

    fn assert_is_object(&self) -> (r: Result<(), String>) {
        match self {
            Value::Object(_) => Ok(()),
            _ => Err(message("This is not an object but a ", self)),
        }
    }

    fn assert_is_array(&self) -> (r: Result<(), String>) {
        match self {
            Value::Array(_) => Ok(()),
            _ => Err(message("This is not an array but a ", self)),
        }
    }

    fn assert_is_number(&self) -> (r: Result<(), String>) {
        match self {
            Value::Number(_) => Ok(()),
            _ => Err(message("This is not a number but a ", self)),
        }
    }

    fn assert_is_string(&self) -> (r: Result<(), String>) {
        match self {
            Value::Str(_) => Ok(()),
            _ => Err(message("This is not a String but a ", self)),
        }
    }

    fn as_object(&self) -> (r: Option<&JsonObject>) {
        match self {
            Value::Object(o) => Some(o),
            _ => None,
        }
    }

    fn as_array(&self) -> (r: Option<&Vec<Value>>) {
        match self {
            Value::Array(a) => Some(a),
            _ => None,
        }
    }

    fn keys(&self) -> (r: Vec<String>) {
        let mut keys: Vec<String> = Vec::new();
        match self {
            Value::Object(entries) => {
                let mut i: usize = 0;
                while i < entries.len()
                    invariant
                        i <= entries@.len(),
                        keys@.len() == i,
                        views_of(keys@) == keys_of(entries@).take(i as int),
                    decreases entries@.len() - i,
                {
                    let ghost prev = keys@;
                    keys.push(entries[i].0.clone());
                    assert(keys@ == prev.push(entries@[i as int].0));
                    assert forall|j: int| 0 <= j < i + 1 implies #[trigger] views_of(keys@)[j] == keys_of(entries@).take(i + 1)[j] by {
                        if j < i {
                            assert(keys@[j] == prev[j]);
                            assert(views_of(prev)[j] == keys_of(entries@).take(
                                i as int,
                            )[j]);
                        }
                    }
                    assert(views_of(keys@) =~= keys_of(entries@).take(i + 1));
                    i = i + 1;
                }
                assert(keys_of(entries@).take(entries@.len() as int) =~= keys_of(entries@));
            },
            _ => {
                assert(views_of(keys@) =~= Seq::<Seq<char>>::empty());
            },
        }
        keys
    }
}

/// The index of the first entry with key `k`, or the length when there is none.
pub open spec fn first_index(entries: Seq<(String, Value)>, k: Seq<char>) -> int
    decreases entries.len(),
{
    if entries.len() == 0 {
        0
    } else if entries[0].0@ == k {
        0
    } else {
        1 + first_index(entries.skip(1), k)
    }
}

/// The integer value of `n` when it is one and fits in an `i64`.
pub open spec fn number_i64(n: Number) -> Option<i64> {
    let v: int = if n.positive {
        n.mantissa as int
    } else {
        -(n.mantissa as int)
    };
    if !n.nan && n.exponent == 0 && i64::MIN <= v <= i64::MAX {
        Some(v as i64)
    } else {
        None
    }
}

pub open spec fn value_i64(v: Value) -> Option<i64> {
    match v {
        Value::Number(n) => number_i64(n),
        _ => None,
    }
}

impl Value {
    /// The value as an `i64`, when it is an integral number in range.
    pub fn as_i64(&self) -> (r: Option<i64>)
        ensures
            r == value_i64(*self),
    {
        match self {
            Value::Number(n) => {
                if n.nan || n.exponent != 0 {
                    None
                } else if n.positive {
                    if n.mantissa <= 9223372036854775807 {
                        Some(n.mantissa as i64)
                    } else {
                        None
                    }
                } else if n.mantissa <= 9223372036854775807 {
                    Some(-(n.mantissa as i64))
                } else if n.mantissa == 9223372036854775808 {
                    Some(i64::MIN)
                } else {
                    None
                }
            },
            _ => None,
        }
    }
}

pub proof fn lemma_first_index(entries: Seq<(String, Value)>, k: Seq<char>)
    ensures
        0 <= first_index(entries, k) <= entries.len(),
        forall|j: int| 0 <= j < first_index(entries, k) ==> entries[j].0@ != k,
        first_index(entries, k) < entries.len() ==> entries[first_index(entries, k)].0@ == k,
        lookup(entries, k) is Some <==> first_index(entries, k) < entries.len(),
        first_index(entries, k) < entries.len() ==> lookup(entries, k) == Some(
            entries[first_index(entries, k)].1,
        ),
    decreases entries.len(),
{
    if entries.len() > 0 && entries[0].0@ != k {
        lemma_first_index(entries.skip(1), k);
        assert forall|j: int| 0 <= j < first_index(entries, k) implies entries[j].0@ != k by {
            if j > 0 {
                assert(entries[j] == entries.skip(1)[j - 1]);
            }
        }
    }
}

/// Removing an entry with another key leaves a lookup as it was.
pub proof fn lemma_lookup_remove(entries: Seq<(String, Value)>, i: int, k: Seq<char>)
    requires
        0 <= i < entries.len(),
        entries[i].0@ != k,
    ensures
        lookup(entries.remove(i), k) == lookup(entries, k),
    decreases entries.len(),
{
    if i > 0 && entries[0].0@ != k {
        lemma_lookup_remove(entries.skip(1), i - 1, k);
        assert(entries.remove(i).skip(1) =~= entries.skip(1).remove(i - 1));
    } else if i == 0 {
        assert(entries.remove(0) =~= entries.skip(1));
    }
}

pub proof fn lemma_lookup_push(entries: Seq<(String, Value)>, e: (String, Value), k: Seq<char>)
    ensures
        lookup(entries.push(e), k) == (if lookup(entries, k) is Some {
            lookup(entries, k)
        } else if e.0@ == k {
            Some(e.1)
        } else {
            None
        }),
    decreases entries.len(),
{
    if entries.len() == 0 {
        assert(entries.push(e).skip(1) =~= Seq::<(String, Value)>::empty());
        assert(entries.push(e)[0] == e);
        assert(lookup(Seq::<(String, Value)>::empty(), k) is None);
    } else {
        assert(entries.push(e)[0] == entries[0]);
        if entries[0].0@ != k {
            lemma_lookup_push(entries.skip(1), e, k);
            assert(entries.push(e).skip(1) =~= entries.skip(1).push(e));
        }
    }
}

pub proof fn lemma_lookup_update(entries: Seq<(String, Value)>, i: int, e: (String, Value), k: Seq<char>)
    requires
        0 <= i < entries.len(),
        e.0@ == entries[i].0@,
        forall|j: int| 0 <= j < i ==> entries[j].0@ != e.0@,
    ensures
        lookup(entries.update(i, e), k) == (if k == e.0@ {
            Some(e.1)
        } else {
            lookup(entries, k)
        }),
    decreases entries.len(),
{
    assert(entries.update(i, e)[i] == e);
    if i == 0 {
        assert(entries.update(i, e).skip(1) =~= entries.skip(1));
    } else {
        assert(entries.update(i, e)[0] == entries[0]);
        if entries[0].0@ != k {
            assert forall|j: int| 0 <= j < i - 1 implies entries.skip(1)[j].0@ != e.0@ by {
                assert(entries.skip(1)[j] == entries[j + 1]);
            }
            lemma_lookup_update(entries.skip(1), i - 1, e, k);
            assert(entries.update(i, e).skip(1) =~= entries.skip(1).update(i - 1, e));
        }
    }
}

/// The index of the first entry with key `key`, or the length.
pub fn find_key(entries: &Vec<(String, Value)>, key: &str) -> (r: usize)
    ensures
        r as int == first_index(entries@, key@),
{
    let mut i: usize = 0;
    assert(entries@.skip(0) =~= entries@);
    while i < entries.len() && entries[i].0 != key.to_string()
        invariant
            i <= entries@.len(),
            first_index(entries@, key@) == i + first_index(entries@.skip(i as int), key@),
        decreases entries@.len() - i,
    {
        assert(entries@.skip(i as int).skip(1) =~= entries@.skip(i + 1));
        i = i + 1;
    }
    i
}

/// Sets `key` to `v`: its first entry takes the value, or a new entry is added.
pub fn set_value(entries: &mut Vec<(String, Value)>, key: &str, v: Value)
    ensures
        forall|k: Seq<char>|
            #[trigger] lookup(final(entries)@, k) == (if k == key@ {
                Some(v)
            } else {
                lookup(old(entries)@, k)
            }),
{
    let i = find_key(entries, key);
    proof {
        lemma_first_index(entries@, key@);
    }
    if i < entries.len() {
        let ghost before = entries@;
        let (k0, _old) = entries.remove(i);
        entries.insert(i, (k0, v));
        assert(entries@ =~= before.update(i as int, (k0, v)));
        assert forall|k: Seq<char>| #[trigger] lookup(entries@, k) == (if k == key@ {
            Some(v)
        } else {
            lookup(before, k)
        }) by {
            lemma_lookup_update(before, i as int, (k0, v), k);
        }
    } else {
        let ghost before = entries@;
        let pair = (key.to_string(), v);
        let ghost e = pair;
        entries.push(pair);
        assert forall|k: Seq<char>| #[trigger] lookup(entries@, k) == (if k == key@ {
            Some(v)
        } else {
            lookup(before, k)
        }) by {
            lemma_lookup_push(before, e, k);
        }
    }
}

/// Adds `key` with `v` when the entries do not have it.
pub fn set_default(entries: &mut Vec<(String, Value)>, key: &str, v: Value)
    ensures
        forall|k: Seq<char>|
            #[trigger] lookup(final(entries)@, k) == (if k == key@ && lookup(old(entries)@, k) is None {
                Some(v)
            } else {
                lookup(old(entries)@, k)
            }),
{
    let i = find_key(entries, key);
    proof {
        lemma_first_index(entries@, key@);
    }
    if i == entries.len() {
        let ghost before = entries@;
        let pair = (key.to_string(), v);
        let ghost e = pair;
        entries.push(pair);
        assert forall|k: Seq<char>| #[trigger] lookup(entries@, k) == (if k == key@ && lookup(
            before,
            k,
        ) is None {
            Some(v)
        } else {
            lookup(before, k)
        }) by {
            lemma_lookup_push(before, e, k);
        }
    }
}

/// `a` and `b` are the same tree: same kinds, same texts, same numbers, same
/// keys in the same order.
pub open spec fn same(a: Value, b: Value) -> bool
    decreases a,
{
    match (a, b) {
        (Value::Null, Value::Null) => true,
        (Value::Boolean(x), Value::Boolean(y)) => x == y,
        (Value::Number(x), Value::Number(y)) => x == y,
        (Value::Str(x), Value::Str(y)) => x@ == y@,
        (Value::Array(x), Value::Array(y)) => x@.len() == y@.len() && forall|i: int|
            0 <= i < x@.len() ==> same(#[trigger] x@[i], y@[i]),
        (Value::Object(x), Value::Object(y)) => x@.len() == y@.len() && forall|i: int|
            0 <= i < x@.len() ==> (#[trigger] x@[i]).0@ == y@[i].0@ && same(x@[i].1, y@[i].1),
        _ => false,
    }
}

pub open spec fn same_opt(a: Option<Value>, b: Option<Value>) -> bool {
    match (a, b) {
        (None, None) => true,
        (Some(x), Some(y)) => same(x, y),
        _ => false,
    }
}

pub proof fn lemma_same_refl(v: Value)
    ensures
        same(v, v),
    decreases v,
{
    match v {
        Value::Array(x) => {
            assert forall|i: int| 0 <= i < x@.len() implies same(#[trigger] x@[i], x@[i]) by {
                lemma_same_refl(x@[i]);
            }
        },
        Value::Object(x) => {
            assert forall|i: int| 0 <= i < x@.len() implies (#[trigger] x@[i]).0@ == x@[i].0@ && same(
                x@[i].1,
                x@[i].1,
            ) by {
                lemma_same_refl(x@[i].1);
            }
        },
        _ => {},
    }
}

pub proof fn lemma_same_sym(a: Value, b: Value)
    requires
        same(a, b),
    ensures
        same(b, a),
    decreases a,
{
    match (a, b) {
        (Value::Array(x), Value::Array(y)) => {
            assert forall|i: int| 0 <= i < y@.len() implies same(#[trigger] y@[i], x@[i]) by {
                lemma_same_sym(x@[i], y@[i]);
            }
        },
        (Value::Object(x), Value::Object(y)) => {
            assert forall|i: int| 0 <= i < y@.len() implies (#[trigger] y@[i]).0@ == x@[i].0@ && same(
                y@[i].1,
                x@[i].1,
            ) by {
                assert(x@[i].0@ == y@[i].0@ && same(x@[i].1, y@[i].1));
                lemma_same_sym(x@[i].1, y@[i].1);
            }
        },
        _ => {},
    }
}

impl Value {
    /// A copy of the tree.
    pub fn deep_clone(&self) -> (r: Value)
        ensures
            same(*self, r),
        decreases self, 1nat,
    {
        match self {
            Value::Null => Value::Null,
            Value::Boolean(b) => Value::Boolean(*b),
            Value::Number(n) => Value::Number(*n),
            Value::Str(s) => Value::Str(s.clone()),
            Value::Array(items) => Value::Array(clone_items(items)),
            Value::Object(entries) => Value::Object(clone_entries(entries)),
        }
    }
}

fn clone_items(items: &Vec<Value>) -> (r: Vec<Value>)
    ensures
        r@.len() == items@.len(),
        forall|i: int| 0 <= i < items@.len() ==> same(#[trigger] items@[i], r@[i]),
    decreases items, 0nat,
{
    let mut r: Vec<Value> = Vec::new();
    let mut i: usize = 0;
    while i < items.len()
        invariant
            i <= items@.len(),
            r@.len() == i,
            forall|j: int| 0 <= j < i ==> same(#[trigger] items@[j], r@[j]),
        decreases items@.len() - i,
    {
        r.push(items[i].deep_clone());
        i = i + 1;
    }
    r
}

fn clone_entries(entries: &Vec<(String, Value)>) -> (r: Vec<(String, Value)>)
    ensures
        r@.len() == entries@.len(),
        forall|i: int|
            0 <= i < entries@.len() ==> (#[trigger] entries@[i]).0@ == r@[i].0@ && same(
                entries@[i].1,
                r@[i].1,
            ),
    decreases entries, 0nat,
{
    let mut r: Vec<(String, Value)> = Vec::new();
    let mut i: usize = 0;
    while i < entries.len()
        invariant
            i <= entries@.len(),
            r@.len() == i,
            forall|j: int|
                0 <= j < i ==> (#[trigger] entries@[j]).0@ == r@[j].0@ && same(
                    entries@[j].1,
                    r@[j].1,
                ),
        decreases entries@.len() - i,
    {
        r.push((entries[i].0.clone(), entries[i].1.deep_clone()));
        i = i + 1;
    }
    r
}

/// Drops every entry with key `key`.
pub fn remove_key(entries: &mut Vec<(String, Value)>, key: &str)
    ensures
        forall|k: Seq<char>|
            #[trigger] lookup(final(entries)@, k) == (if k == key@ {
                None
            } else {
                lookup(old(entries)@, k)
            }),
{
    let ghost start = entries@;
    let mut kept: Vec<(String, Value)> = Vec::new();
    let mut rest: Vec<(String, Value)> = Vec::new();
    std::mem::swap(entries, &mut rest);
    let n = rest.len();
    assert(start.take(0) =~= Seq::<(String, Value)>::empty());
    let mut i: usize = 0;
    while rest.len() > 0
        invariant
            i + rest@.len() == n == start.len(),
            rest@ == start.skip(i as int),
            forall|k: Seq<char>|
                #[trigger] lookup(kept@, k) == (if k == key@ {
                    None
                } else {
                    lookup(start.take(i as int), k)
                }),
        decreases rest@.len(),
    {
        let ghost before = kept@;
        let e = rest.remove(0);
        assert(e == start[i as int]);
        assert(start.take(i + 1) =~= start.take(i as int).push(e));
        if e.0 != key.to_string() {
            kept.push(e);
            assert forall|k: Seq<char>| #[trigger] lookup(kept@, k) == (if k == key@ {
                None
            } else {
                lookup(start.take(i + 1), k)
            }) by {
                lemma_lookup_push(before, e, k);
                lemma_lookup_push(start.take(i as int), e, k);
            }
        } else {
            assert forall|k: Seq<char>| #[trigger] lookup(kept@, k) == (if k == key@ {
                None
            } else {
                lookup(start.take(i + 1), k)
            }) by {
                lemma_lookup_push(start.take(i as int), e, k);
            }
        }
        assert(rest@ =~= start.skip(i + 1));
        i = i + 1;
    }
    assert(start.take(n as int) =~= start);
    *entries = kept;
}

/// `n` with the trailing zeros of a fractional mantissa dropped: `1.50` becomes `1.5`.
pub open spec fn normalized(n: Number) -> Number
    decreases (if n.exponent < 0 { -n.exponent } else { 0 }),
{
    if n.exponent < 0 && n.mantissa % 10 == 0 {
        normalized(Number { mantissa: n.mantissa / 10, exponent: (n.exponent + 1) as i16, ..n })
    } else {
        n
    }
}

pub fn normalize(n: Number) -> (r: Number)
    ensures
        r == normalized(n),
{
    let mut x = n;
    while x.exponent < 0 && x.mantissa % 10 == 0
        invariant
            normalized(x) == normalized(n),
        decreases (if x.exponent < 0 { -x.exponent } else { 0 }),
    {
        x = Number { mantissa: x.mantissa / 10, exponent: x.exponent + 1, ..x };
    }
    x
}

} // verus!
