//! The canonical WOF serializer, in two modes: compact (one line) and
//! pretty (indented by two spaces). Top-level keys come in a fixed order
//! (`id`, `coordinates`, `type`, `properties`, other keys, `bbox`,
//! `geometry`); keys below the top level come in lexicographic order.
//! At the top level, `bbox` is written one element per line (in pretty mode)
//! and `geometry` is always compact. Numbers are clamped to six fractional
//! digits; under the keys of `forced_key` integral values end in `.0`.

use crate::value::{keys_of, normalize, normalized, JsonObject, Number, Value};
use crate::text::{chars_of, push_str, string_of};
use crate::utils::float_format::{
    decimal_text, parts_with_precision, precision_parts, push_decimal,
};
use vstd::prelude::*;

verus! {

/// The escape sequence of one character in a JSON string.
pub open spec fn escape_char(c: char) -> Seq<char> {
    if c == '"' {
        seq!['\\', '"']
    } else if c == '\\' {
        seq!['\\', '\\']
    } else if c == '\u{8}' {
        seq!['\\', 'b']
    } else if c == '\t' {
        seq!['\\', 't']
    } else if c == '\n' {
        seq!['\\', 'n']
    } else if c == '\u{c}' {
        seq!['\\', 'f']
    } else if c == '\r' {
        seq!['\\', 'r']
    } else if (c as u32) < 0x20 {
        seq!['\\', 'u', '0', '0', hex_digit((c as u32) / 16), hex_digit((c as u32) % 16)]
    } else {
        seq![c]
    }
}

/// A lower-case hexadecimal digit.
pub open spec fn hex_digit(d: u32) -> char {
    if d == 0 {
        '0'
    } else if d == 1 {
        '1'
    } else if d == 2 {
        '2'
    } else if d == 3 {
        '3'
    } else if d == 4 {
        '4'
    } else if d == 5 {
        '5'
    } else if d == 6 {
        '6'
    } else if d == 7 {
        '7'
    } else if d == 8 {
        '8'
    } else if d == 9 {
        '9'
    } else if d == 10 {
        'a'
    } else if d == 11 {
        'b'
    } else if d == 12 {
        'c'
    } else if d == 13 {
        'd'
    } else if d == 14 {
        'e'
    } else {
        'f'
    }
}

pub open spec fn escaped(s: Seq<char>) -> Seq<char>
    decreases s.len(),
{
    if s.len() == 0 {
        Seq::empty()
    } else {
        escaped(s.drop_last()) + escape_char(s.last())
    }
}

/// A JSON string literal.
pub open spec fn quoted(s: Seq<char>) -> Seq<char> {
    seq!['"'] + escaped(s) + seq!['"']
}

pub open spec fn spaces(n: nat) -> Seq<char> {
    Seq::new(n, |i: int| ' ')
}

/// A line break followed by the indentation of depth `dent`, in pretty mode only.
pub open spec fn new_line(pretty: bool, dent: nat) -> Seq<char> {
    if pretty {
        seq!['\n'] + spaces(2 * dent)
    } else {
        Seq::empty()
    }
}

/// The keys under which integral numbers are written with a trailing `.0`.
pub open spec fn forced_key(k: Seq<char>) -> bool {
    k == "coordinates"@ || k == "bbox"@ || k == "geom:area"@ || k == "geom:area_square_m"@ || k
        == "geom:latitude"@ || k == "geom:longitude"@
}

/// The number clamped to six fractional digits, without trailing zeros.
pub open spec fn clamped(n: Number) -> Number {
    let p = precision_parts((n.positive, n.mantissa, n.exponent), 6);
    normalized(Number { positive: p.0, mantissa: p.1, exponent: p.2, nan: false })
}

/// A number clamped to six fractional digits, without trailing zeros; NaN is `null`.
pub open spec fn number_text(n: Number, force: bool) -> Seq<char> {
    if n.nan {
        "null"@
    } else {
        let q = clamped(n);
        decimal_text(q.positive, q.mantissa as nat, q.exponent as int, force)
    }
}

/// The rank of a top-level key: `id` and `coordinates`, then `type`,
/// `properties`, the other keys, `bbox` and last `geometry`.
pub open spec fn first_level_class(k: Seq<char>) -> int {
    if k == "id"@ || k == "coordinates"@ {
        0
    } else if k == "type"@ {
        1
    } else if k == "properties"@ {
        2
    } else if k == "bbox"@ {
        4
    } else if k == "geometry"@ {
        5
    } else {
        3
    }
}

/// Lexicographic order on code points (the byte order of UTF-8 text).
pub open spec fn lex_lt(a: Seq<char>, b: Seq<char>) -> bool
    decreases a.len(),
{
    if b.len() == 0 {
        false
    } else if a.len() == 0 {
        true
    } else if a[0] != b[0] {
        (a[0] as u32) < (b[0] as u32)
    } else {
        lex_lt(a.skip(1), b.skip(1))
    }
}

/// Whether key `a` comes before key `b`; `first_level` selects the top-level order.
pub open spec fn key_before(a: Seq<char>, b: Seq<char>, first_level: bool) -> bool {
    if first_level && first_level_class(a) != first_level_class(b) {
        first_level_class(a) < first_level_class(b)
    } else {
        lex_lt(a, b)
    }
}

/// Inserts index `i` into `order` before the first index whose key `keys[i]` precedes.
pub open spec fn insert_key(keys: Seq<Seq<char>>, i: int, order: Seq<int>, first_level: bool) -> Seq<
    int,
>
    decreases order.len(),
{
    if order.len() == 0 {
        seq![i]
    } else if key_before(keys[i], keys[order[0]], first_level) {
        seq![i] + order
    } else {
        seq![order[0]] + insert_key(keys, i, order.skip(1), first_level)
    }
}

/// The order in which the first `n` entries are written: a stable sort by key.
pub open spec fn key_order(keys: Seq<Seq<char>>, n: nat, first_level: bool) -> Seq<int>
    decreases n,
{
    if n == 0 {
        Seq::empty()
    } else {
        insert_key(keys, n - 1, key_order(keys, (n - 1) as nat, first_level), first_level)
    }
}

/// The text of `v` written at depth `dent`; `force` is set under the keys of `forced_key`.
pub open spec fn json_text(v: Value, force: bool, dent: nat, pretty: bool) -> Seq<char>
    decreases v, 0nat,
{
    match v {
        Value::Null => "null"@,
        Value::Boolean(b) => if b {
            "true"@
        } else {
            "false"@
        },
        Value::Number(n) => number_text(n, force),
        Value::Str(s) => quoted(s@),
        Value::Array(items) => if items.len() == 0 {
            "[]"@
        } else {
            seq!['['] + items_text(items@, items.len() as nat, force, dent + 1, pretty) + new_line(
                pretty,
                dent,
            ) + seq![']']
        },
        Value::Object(entries) => if entries.len() == 0 {
            "{}"@
        } else {
            seq!['{'] + entries_text(
                entries@,
                key_order(keys_of(entries@), entries.len() as nat, dent == 0),
                entries.len() as nat,
                dent + 1,
                pretty,
                dent == 0,
            ) + new_line(pretty, dent) + seq!['}']
        },
    }
}

/// The first `n` items of an array, each on its own line in pretty mode.
pub open spec fn items_text(items: Seq<Value>, n: nat, force: bool, dent: nat, pretty: bool) -> Seq<
    char,
>
    decreases items, n,
{
    if n == 0 || n > items.len() {
        Seq::empty()
    } else {
        items_text(items, (n - 1) as nat, force, dent, pretty) + (if n > 1 {
            seq![',']
        } else {
            Seq::empty()
        }) + new_line(pretty, dent) + json_text(items[n - 1], force, dent, pretty)
    }
}

/// The separator between a key and its value: `": "` at the top level in pretty mode.
pub open spec fn colon(top_pretty: bool) -> Seq<char> {
    if top_pretty {
        seq![':', ' ']
    } else {
        seq![':']
    }
}

/// The value of an entry; `top` is set for the entries of a top-level object.
pub open spec fn entry_value_text(k: Seq<char>, v: Value, dent: nat, pretty: bool, top: bool) -> Seq<
    char,
>
    decreases v, 1nat,
{
    if top && k == "bbox"@ && v is Array {
        let items = v->Array_0@;
        if items.len() == 0 {
            "[]"@
        } else {
            seq!['['] + items_text(items, items.len(), true, dent + 1, pretty) + (if pretty {
                seq!['\n']
            } else {
                Seq::empty()
            }) + seq![']']
        }
    } else if top && k == "geometry"@ {
        json_text(v, false, 0, false)
    } else {
        json_text(v, forced_key(k), dent, pretty)
    }
}

/// The first `n` entries of an object, in the order `order`.
pub open spec fn entries_text(
    entries: Seq<(String, Value)>,
    order: Seq<int>,
    n: nat,
    dent: nat,
    pretty: bool,
    top: bool,
) -> Seq<char>
    decreases entries, n,
{
    if n == 0 || n > order.len() || !(0 <= order[n - 1] < entries.len()) {
        Seq::empty()
    } else {
        let e = entries[order[n - 1]];
        entries_text(entries, order, (n - 1) as nat, dent, pretty, top) + (if n > 1 {
            seq![',']
        } else {
            Seq::empty()
        }) + new_line(pretty, dent) + quoted(e.0@) + colon(top && pretty) + entry_value_text(
            e.0@,
            e.1,
            dent,
            pretty,
            top,
        )
    }
}

/// The compact text of `v`.
pub open spec fn compact_text(v: Value) -> Seq<char> {
    json_text(v, false, 0, false)
}

/// The pretty text of `v`.
pub open spec fn pretty_text(v: Value) -> Seq<char> {
    json_text(v, false, 0, true)
}

fn hex_char(d: u32) -> (c: char)
    requires
        d < 16,
    ensures
        c == hex_digit(d),
{
    if d == 0 {
        '0'
    } else if d == 1 {
        '1'
    } else if d == 2 {
        '2'
    } else if d == 3 {
        '3'
    } else if d == 4 {
        '4'
    } else if d == 5 {
        '5'
    } else if d == 6 {
        '6'
    } else if d == 7 {
        '7'
    } else if d == 8 {
        '8'
    } else if d == 9 {
        '9'
    } else if d == 10 {
        'a'
    } else if d == 11 {
        'b'
    } else if d == 12 {
        'c'
    } else if d == 13 {
        'd'
    } else if d == 14 {
        'e'
    } else {
        'f'
    }
}

fn push_escape_char(out: &mut Vec<char>, c: char)
    ensures
        final(out)@ == old(out)@ + escape_char(c),
{
    let ghost start = out@;
    if c == '"' {
        out.push('\\');
        out.push('"');
    } else if c == '\\' {
        out.push('\\');
        out.push('\\');
    } else if c == '\u{8}' {
        out.push('\\');
        out.push('b');
    } else if c == '\t' {
        out.push('\\');
        out.push('t');
    } else if c == '\n' {
        out.push('\\');
        out.push('n');
    } else if c == '\u{c}' {
        out.push('\\');
        out.push('f');
    } else if c == '\r' {
        out.push('\\');
        out.push('r');
    } else if (c as u32) < 0x20 {
        let v = c as u32;
        out.push('\\');
        out.push('u');
        out.push('0');
        out.push('0');
        out.push(hex_char(v / 16));
        out.push(hex_char(v % 16));
    } else {
        out.push(c);
    }
    assert(out@ =~= start + escape_char(c));
}

/// Appends `s` as a JSON string literal.
fn push_quoted(out: &mut Vec<char>, s: &str)
    ensures
        final(out)@ == old(out)@ + quoted(s@),
{
    let ghost start = out@;
    out.push('"');
    let cs = chars_of(s);
    let mut i: usize = 0;
    assert(escaped(cs@.take(0)) =~= Seq::empty());
    while i < cs.len()
        invariant
            i <= cs@.len(),
            cs@ == s@,
            out@ == start + seq!['"'] + escaped(cs@.take(i as int)),
        decreases cs@.len() - i,
    {
        push_escape_char(out, cs[i]);
        assert(cs@.take(i + 1).drop_last() =~= cs@.take(i as int));
        i = i + 1;
    }
    assert(cs@.take(cs@.len() as int) =~= cs@);
    out.push('"');
    assert(out@ =~= start + quoted(s@));
}

fn push_number(out: &mut Vec<char>, n: &Number, force: bool)
    ensures
        final(out)@ == old(out)@ + number_text(*n, force),
{
    if n.nan {
        push_str(out, "null");
    } else {
        let p = parts_with_precision((n.positive, n.mantissa, n.exponent), 6);
        let q = normalize(Number { positive: p.0, mantissa: p.1, exponent: p.2, nan: false });
        push_decimal(out, q.positive, q.mantissa, q.exponent, force);
    }
}

fn push_new_line(out: &mut Vec<char>, pretty: bool, indent: &Vec<char>, Ghost(dent): Ghost<nat>)
    requires
        indent@ == spaces(2 * dent),
    ensures
        final(out)@ == old(out)@ + new_line(pretty, dent),
{
    let ghost start = out@;
    if pretty {
        out.push('\n');
        let mut i: usize = 0;
        while i < indent.len()
            invariant
                i <= indent@.len(),
                out@ == start + seq!['\n'] + indent@.take(i as int),
            decreases indent@.len() - i,
        {
            out.push(indent[i]);
            assert(indent@.take(i + 1) =~= indent@.take(i as int).push(indent@[i as int]));
            i = i + 1;
        }
        assert(indent@.take(indent@.len() as int) =~= indent@);
    }
    assert(out@ =~= start + new_line(pretty, dent));
}

/// The indentation one level deeper.
fn deeper(indent: &Vec<char>, Ghost(dent): Ghost<nat>) -> (r: Vec<char>)
    requires
        indent@ == spaces(2 * dent),
    ensures
        r@ == spaces(2 * (dent + 1)),
{
    let mut r: Vec<char> = Vec::new();
    let mut i: usize = 0;
    while i < indent.len()
        invariant
            i <= indent@.len(),
            indent@ == spaces(2 * dent),
            r@ == spaces(i as nat),
        decreases indent@.len() - i,
    {
        r.push(' ');
        assert(r@ =~= spaces((i + 1) as nat));
        i = i + 1;
    }
    r.push(' ');
    r.push(' ');
    assert(r@ =~= spaces(2 * (dent + 1)));
    r
}

pub(crate) fn is_key(k: &str, lit: &str) -> (r: bool)
    ensures
        r == (k@ == lit@),
{
    let a = chars_of(k);
    let b = chars_of(lit);
    if a.len() != b.len() {
        return false;
    }
    let mut i: usize = 0;
    while i < a.len()
        invariant
            i <= a@.len() == b@.len(),
            a@ == k@,
            b@ == lit@,
            a@.take(i as int) == b@.take(i as int),
        decreases a@.len() - i,
    {
        if a[i] != b[i] {
            assert(a@[i as int] != b@[i as int]);
            return false;
        }
        assert(a@.take(i + 1) =~= a@.take(i as int).push(a@[i as int]));
        assert(b@.take(i + 1) =~= b@.take(i as int).push(b@[i as int]));
        i = i + 1;
    }
    assert(a@.take(a@.len() as int) =~= a@);
    assert(b@.take(b@.len() as int) =~= b@);
    true
}

fn is_forced_key(k: &str) -> (r: bool)
    ensures
        r == forced_key(k@),
{
    is_key(k, "coordinates") || is_key(k, "bbox") || is_key(k, "geom:area") || is_key(
        k,
        "geom:area_square_m",
    ) || is_key(k, "geom:latitude") || is_key(k, "geom:longitude")
}

fn class_of(k: &str) -> (r: u8)
    ensures
        r as int == first_level_class(k@),
{
    if is_key(k, "id") || is_key(k, "coordinates") {
        0
    } else if is_key(k, "type") {
        1
    } else if is_key(k, "properties") {
        2
    } else if is_key(k, "bbox") {
        4
    } else if is_key(k, "geometry") {
        5
    } else {
        3
    }
}

fn lex_less(a: &Vec<char>, b: &Vec<char>) -> (r: bool)
    ensures
        r == lex_lt(a@, b@),
{
    let mut i: usize = 0;
    assert(a@.skip(0) =~= a@);
    assert(b@.skip(0) =~= b@);
    while i < a.len() && i < b.len()
        invariant
            i <= a@.len(),
            i <= b@.len(),
            lex_lt(a@, b@) == lex_lt(a@.skip(i as int), b@.skip(i as int)),
        decreases a@.len() - i,
    {
        if a[i] != b[i] {
            assert(a@.skip(i as int)[0] == a@[i as int]);
            assert(b@.skip(i as int)[0] == b@[i as int]);
            return (a[i] as u32) < (b[i] as u32);
        }
        assert(a@.skip(i as int).skip(1) =~= a@.skip(i + 1));
        assert(b@.skip(i as int).skip(1) =~= b@.skip(i + 1));
        i = i + 1;
    }
    i < b.len()
}

fn before(ka: &Vec<char>, ca: u8, kb: &Vec<char>, cb: u8, first_level: bool) -> (r: bool)
    requires
        ca as int == first_level_class(ka@),
        cb as int == first_level_class(kb@),
    ensures
        r == key_before(ka@, kb@, first_level),
{
    if first_level && ca != cb {
        ca < cb
    } else {
        lex_less(ka, kb)
    }
}

proof fn lemma_insert_key(keys: Seq<Seq<char>>, i: int, order: Seq<int>, p: int, first_level: bool)
    requires
        0 <= p <= order.len(),
        forall|j: int| 0 <= j < p ==> !key_before(keys[i], keys[order[j]], first_level),
        p < order.len() ==> key_before(keys[i], keys[order[p]], first_level),
    ensures
        insert_key(keys, i, order, first_level) == order.insert(p, i),
    decreases order.len(),
{
    if order.len() == 0 {
        assert(seq![i] =~= order.insert(p, i));
    } else if p == 0 {
        assert(seq![i] + order =~= order.insert(p, i));
    } else {
        let rest = order.skip(1);
        assert forall|j: int| 0 <= j < p - 1 implies !key_before(
            keys[i],
            keys[rest[j]],
            first_level,
        ) by {
            assert(rest[j] == order[j + 1]);
        }
        if p - 1 < rest.len() {
            assert(rest[p - 1] == order[p]);
        }
        lemma_insert_key(keys, i, rest, p - 1, first_level);
        assert(!key_before(keys[i], keys[order[0]], first_level));
        assert(seq![order[0]] + rest.insert(p - 1, i) =~= order.insert(p, i));
    }
}

spec fn as_ints(v: Seq<usize>) -> Seq<int> {
    v.map_values(|x: usize| x as int)
}

/// The order in which the entries are written (see `key_order`).
fn sort_keys(entries: &Vec<(String, Value)>, first_level: bool) -> (order: Vec<usize>)
    ensures
        order@.len() == entries@.len(),
        forall|j: int| 0 <= j < order@.len() ==> order@[j] < entries@.len(),
        as_ints(order@) == key_order(keys_of(entries@), entries@.len() as nat, first_level),
{
    let ghost keys = keys_of(entries@);
    let mut names: Vec<Vec<char>> = Vec::new();
    let mut classes: Vec<u8> = Vec::new();
    let mut order: Vec<usize> = Vec::new();
    let mut i: usize = 0;
    while i < entries.len()
        invariant
            i <= entries@.len(),
            keys == keys_of(entries@),
            names@.len() == i,
            classes@.len() == i,
            forall|j: int| 0 <= j < i ==> names@[j]@ == keys[j],
            forall|j: int| 0 <= j < i ==> classes@[j] as int == first_level_class(keys[j]),
            order@.len() == i,
            forall|j: int| 0 <= j < order@.len() ==> order@[j] < i,
            as_ints(order@) == key_order(keys, i as nat, first_level),
        decreases entries@.len() - i,
    {
        let k = chars_of(entries[i].0.as_str());
        let c = class_of(entries[i].0.as_str());
        names.push(k);
        classes.push(c);
        assert(names@[i as int]@ == keys[i as int]);
        let mut p: usize = 0;
        while p < order.len() && !before(&names[i], classes[i], &names[order[p]], classes[order[p]], first_level)
            invariant
                p <= order@.len(),
                i < names@.len(),
                names@.len() == classes@.len() == i + 1,
                forall|j: int| 0 <= j <= i ==> names@[j]@ == keys[j],
                forall|j: int| 0 <= j <= i ==> classes@[j] as int == first_level_class(keys[j]),
                forall|j: int| 0 <= j < order@.len() ==> order@[j] < i,
                forall|j: int|
                    0 <= j < p ==> !key_before(keys[i as int], keys[order@[j] as int], first_level),
            decreases order@.len() - p,
        {
            p = p + 1;
        }
        proof {
            lemma_insert_key(keys, i as int, as_ints(order@), p as int, first_level);
        }
        let ghost old_order = order@;
        order.insert(p, i);
        assert(as_ints(order@) =~= as_ints(old_order).insert(p as int, i as int));
        assert forall|j: int| 0 <= j < order@.len() implies order@[j] < i + 1 by {
            if j < p {
                assert(order@[j] == old_order[j]);
            } else if j > p {
                assert(order@[j] == old_order[j - 1]);
            }
        }
        i = i + 1;
    }
    order
}

/// Appends the text of `v` (see `json_text`); `root` tells whether `dent` is zero.
fn write_json(
    out: &mut Vec<char>,
    v: &Value,
    force: bool,
    Ghost(dent): Ghost<nat>,
    root: bool,
    indent: &Vec<char>,
    pretty: bool,
)
    requires
        indent@ == spaces(2 * dent),
        root == (dent == 0),
    ensures
        final(out)@ == old(out)@ + json_text(*v, force, dent, pretty),
    decreases v, 0nat,
{
    let ghost start = out@;
    match v {
        Value::Null => push_str(out, "null"),
        Value::Boolean(b) => {
            if *b {
                push_str(out, "true");
            } else {
                push_str(out, "false");
            }
        },
        Value::Number(n) => push_number(out, n, force),
        Value::Str(s) => push_quoted(out, s.as_str()),
        Value::Array(items) => write_array(out, items, force, Ghost(dent), indent, pretty),
        Value::Object(entries) => write_object(out, entries, Ghost(dent), root, indent, pretty),
    }
}

fn write_array(
    out: &mut Vec<char>,
    items: &Vec<Value>,
    force: bool,
    Ghost(dent): Ghost<nat>,
    indent: &Vec<char>,
    pretty: bool,
)
    requires
        indent@ == spaces(2 * dent),
    ensures
        final(out)@ == old(out)@ + json_text(Value::Array(*items), force, dent, pretty),
    decreases items, 1nat,
{
    let ghost start = out@;
    if items.len() == 0 {
        push_str(out, "[]");
    } else {
        out.push('[');
        let inner = deeper(indent, Ghost(dent));
        write_items(out, items, force, Ghost(dent + 1), &inner, pretty);
        push_new_line(out, pretty, indent, Ghost(dent));
        out.push(']');
        assert(out@ =~= start + json_text(Value::Array(*items), force, dent, pretty));
    }
}

/// Writes an object; the entries of the root object (`root`) come in the top-level order.
fn write_object(
    out: &mut Vec<char>,
    entries: &Vec<(String, Value)>,
    Ghost(dent): Ghost<nat>,
    root: bool,
    indent: &Vec<char>,
    pretty: bool,
)
    requires
        indent@ == spaces(2 * dent),
        root == (dent == 0),
    ensures
        forall|force: bool|
            #![all_triggers]
            final(out)@ == old(out)@ + json_text(Value::Object(*entries), force, dent, pretty),
    decreases entries, 1nat,
{
    let ghost start = out@;
    if entries.len() == 0 {
        push_str(out, "{}");
    } else {
        out.push('{');
        let inner = deeper(indent, Ghost(dent));
        write_entries(out, entries, Ghost(dent + 1), &inner, pretty, root);
        push_new_line(out, pretty, indent, Ghost(dent));
        out.push('}');
    }
    assert forall|force: bool| #![all_triggers]
        out@ == start + json_text(Value::Object(*entries), force, dent, pretty) by {
        if entries.len() > 0 {
            assert(out@ =~= start + json_text(Value::Object(*entries), force, dent, pretty));
        }
    }
}

/// Appends the items of a non-empty array (see `items_text`).
fn write_items(
    out: &mut Vec<char>,
    items: &Vec<Value>,
    force: bool,
    Ghost(dent): Ghost<nat>,
    indent: &Vec<char>,
    pretty: bool,
)
    requires
        indent@ == spaces(2 * dent),
        dent > 0,
    ensures
        final(out)@ == old(out)@ + items_text(items@, items@.len(), force, dent, pretty),
    decreases items, 0nat,
{
    let ghost start = out@;
    let mut i: usize = 0;
    while i < items.len()
        invariant
            i <= items@.len(),
            indent@ == spaces(2 * dent),
            dent > 0,
            out@ == start + items_text(items@, i as nat, force, dent, pretty),
        decreases items@.len() - i,
    {
        if i > 0 {
            out.push(',');
        }
        push_new_line(out, pretty, indent, Ghost(dent));
        write_json(out, &items[i], force, Ghost(dent), false, indent, pretty);
        assert(out@ =~= start + items_text(items@, (i + 1) as nat, force, dent, pretty));
        i = i + 1;
    }
}

/// Appends the entries of a non-empty object, sorted (see `entries_text`).
fn write_entries(
    out: &mut Vec<char>,
    entries: &Vec<(String, Value)>,
    Ghost(dent): Ghost<nat>,
    indent: &Vec<char>,
    pretty: bool,
    top: bool,
)
    requires
        indent@ == spaces(2 * dent),
        dent > 0,
        top ==> dent == 1,
    ensures
        final(out)@ == old(out)@ + entries_text(
            entries@,
            key_order(keys_of(entries@), entries@.len() as nat, top),
            entries@.len() as nat,
            dent,
            pretty,
            top,
        ),
    decreases entries, 0nat,
{
    let ghost start = out@;
    let order = sort_keys(entries, top);
    let ghost ord = key_order(keys_of(entries@), entries@.len() as nat, top);
    let mut j: usize = 0;
    while j < order.len()
        invariant
            j <= order@.len() == entries@.len(),
            forall|x: int| 0 <= x < order@.len() ==> order@[x] < entries@.len(),
            as_ints(order@) == ord,
            indent@ == spaces(2 * dent),
            dent > 0,
            top ==> dent == 1,
            out@ == start + entries_text(entries@, ord, j as nat, dent, pretty, top),
        decreases order@.len() - j,
    {
        let i = order[j];
        assert(ord[j as int] == i as int);
        write_entry(out, entries[i].0.as_str(), &entries[i].1, j > 0, Ghost(dent), indent, pretty, top);
        assert(out@ =~= start + entries_text(entries@, ord, (j + 1) as nat, dent, pretty, top));
        j = j + 1;
    }
}

/// Appends one entry: its separator, key and value.
fn write_entry(
    out: &mut Vec<char>,
    k: &str,
    v: &Value,
    comma: bool,
    Ghost(dent): Ghost<nat>,
    indent: &Vec<char>,
    pretty: bool,
    top: bool,
)
    requires
        indent@ == spaces(2 * dent),
        dent > 0,
    ensures
        final(out)@ == old(out)@ + (if comma {
            seq![',']
        } else {
            Seq::empty()
        }) + new_line(pretty, dent) + quoted(k@) + colon(top && pretty) + entry_value_text(
            k@,
            *v,
            dent,
            pretty,
            top,
        ),
    decreases v, 2nat,
{
    let ghost start = out@;
    if comma {
        out.push(',');
    }
    push_new_line(out, pretty, indent, Ghost(dent));
    push_quoted(out, k);
    if top && pretty {
        out.push(':');
        out.push(' ');
    } else {
        out.push(':');
    }
    write_entry_value(out, k, v, Ghost(dent), indent, pretty, top);
    assert(out@ =~= start + (if comma {
        seq![',']
    } else {
        Seq::empty()
    }) + new_line(pretty, dent) + quoted(k@) + colon(top && pretty) + entry_value_text(
        k@,
        *v,
        dent,
        pretty,
        top,
    ));
}

/// Appends the value of an entry (see `entry_value_text`).
fn write_entry_value(
    out: &mut Vec<char>,
    k: &str,
    v: &Value,
    Ghost(dent): Ghost<nat>,
    indent: &Vec<char>,
    pretty: bool,
    top: bool,
)
    requires
        indent@ == spaces(2 * dent),
        dent > 0,
    ensures
        final(out)@ == old(out)@ + entry_value_text(k@, *v, dent, pretty, top),
    decreases v, 1nat,
{
    let ghost start = out@;
    if top && is_key(k, "bbox") && matches!(v, Value::Array(_)) {
        match v {
            Value::Array(items) => {
                if items.len() == 0 {
                    push_str(out, "[]");
                } else {
                    out.push('[');
                    let inner = deeper(indent, Ghost(dent));
                    write_items(out, items, true, Ghost(dent + 1), &inner, pretty);
                    if pretty {
                        out.push('\n');
                    }
                    out.push(']');
                    assert(out@ =~= start + entry_value_text(k@, *v, dent, pretty, top));
                }
            },
            _ => {},
        }
    } else if top && is_key(k, "geometry") {
        let flat: Vec<char> = Vec::new();
        assert(flat@ =~= spaces(2 * 0));
        write_json(out, v, false, Ghost(0), true, &flat, false);
    } else {
        write_json(out, v, is_forced_key(k), Ghost(dent), false, indent, pretty);
    }
}

/// A writer of WOF JSON text, compact ("ugly") or pretty.
pub struct WOFGenerator {
    out: Vec<char>,
    pretty: bool,
}

impl WOFGenerator {
    /// The text written so far.
    pub closed spec fn text(&self) -> Seq<char> {
        self.out@
    }

    pub closed spec fn is_pretty(&self) -> bool {
        self.pretty
    }

    /// A generator of indented text.
    pub fn pretty() -> (r: WOFGenerator)
        ensures
            r.text() == Seq::<char>::empty(),
            r.is_pretty(),
    {
        WOFGenerator { out: Vec::new(), pretty: true }
    }

    /// A generator of one-line text.
    pub fn ugly() -> (r: WOFGenerator)
        ensures
            r.text() == Seq::<char>::empty(),
            !r.is_pretty(),
    {
        WOFGenerator { out: Vec::new(), pretty: false }
    }

    /// Writes `value` as a document.
    pub fn write_json(&mut self, value: &Value)
        ensures
            final(self).is_pretty() == old(self).is_pretty(),
            final(self).text() == old(self).text() + json_text(*value, false, 0, old(self).is_pretty()),
    {
        let flat: Vec<char> = Vec::new();
        assert(flat@ =~= spaces(2 * 0));
        write_json(&mut self.out, value, false, Ghost(0), true, &flat, self.pretty);
    }

    /// Writes `object` as a document.
    pub fn write_object(&mut self, object: &JsonObject)
        ensures
            final(self).is_pretty() == old(self).is_pretty(),
            final(self).text() == old(self).text() + json_text(
                Value::Object(*object),
                false,
                0,
                old(self).is_pretty(),
            ),
    {
        let flat: Vec<char> = Vec::new();
        assert(flat@ =~= spaces(2 * 0));
        write_object(&mut self.out, object, Ghost(0), true, &flat, self.pretty);
    }

    /// Writes `value` as the value of `key` in a top-level object, where
    /// `bbox` and `geometry` have their own layout.
    pub fn write_object_value_by_key(&mut self, key: &str, value: &Value)
        ensures
            final(self).is_pretty() == old(self).is_pretty(),
            final(self).text() == old(self).text() + entry_value_text(
                key@,
                *value,
                1,
                old(self).is_pretty(),
                true,
            ),
    {
        let two: Vec<char> = vec![' ', ' '];
        assert(two@ =~= spaces(2 * 1));
        write_entry_value(&mut self.out, key, value, Ghost(1), &two, self.pretty, true);
    }

    /// The text written.
    pub fn consume(self) -> (r: String)
        ensures
            r@ == self.text(),
    {
        string_of(&self.out)
    }
}

fn append_text(writer: &mut String, g: WOFGenerator)
    ensures
        final(writer)@ == old(writer)@ + g.text(),
{
    let s = g.consume();
    writer.append(s.as_str());
}

/// Writes `json` as compact WOF text at the end of `writer`.
pub fn json_to_writer(json: &Value, writer: &mut String)
    ensures
        final(writer)@ == old(writer)@ + compact_text(*json),
{
    let mut g = WOFGenerator::ugly();
    g.write_json(json);
    append_text(writer, g);
}

/// Writes `object` as compact WOF text at the end of `writer`.
pub fn object_to_writer(object: &JsonObject, writer: &mut String)
    ensures
        final(writer)@ == old(writer)@ + compact_text(Value::Object(*object)),
{
    let mut g = WOFGenerator::ugly();
    g.write_object(object);
    append_text(writer, g);
}

/// Writes `json` as pretty WOF text at the end of `writer`.
pub fn json_to_writer_pretty(json: &Value, writer: &mut String)
    ensures
        final(writer)@ == old(writer)@ + pretty_text(*json),
{
    let mut g = WOFGenerator::pretty();
    g.write_json(json);
    append_text(writer, g);
}

/// Writes `object` as pretty WOF text at the end of `writer`.
pub fn object_to_writer_pretty(object: &JsonObject, writer: &mut String)
    ensures
        final(writer)@ == old(writer)@ + pretty_text(Value::Object(*object)),
{
    let mut g = WOFGenerator::pretty();
    g.write_object(object);
    append_text(writer, g);
}

proof fn lemma_lex_irreflexive(a: Seq<char>)
    ensures
        !lex_lt(a, a),
    decreases a.len(),
{
    if a.len() > 0 {
        lemma_lex_irreflexive(a.skip(1));
    }
}

proof fn lemma_lex_total(a: Seq<char>, b: Seq<char>)
    requires
        a != b,
    ensures
        lex_lt(a, b) || lex_lt(b, a),
    decreases a.len(),
{
    if a.len() > 0 && b.len() > 0 {
        if a[0] == b[0] {
            if a.skip(1) == b.skip(1) {
                assert(a =~= seq![a[0]] + a.skip(1));
                assert(b =~= seq![b[0]] + b.skip(1));
            }
            lemma_lex_total(a.skip(1), b.skip(1));
        } else {
            let (x, y) = (a[0] as u32, b[0] as u32);
            vstd::utf8::char_u32_cast(a[0], x);
            vstd::utf8::char_u32_cast(b[0], y);
            assert(x != y);
        }
    } else if a.len() == 0 && b.len() == 0 {
        assert(a =~= b);
    }
}

proof fn lemma_lex_transitive(a: Seq<char>, b: Seq<char>, c: Seq<char>)
    requires
        lex_lt(a, b),
        lex_lt(b, c),
    ensures
        lex_lt(a, c),
    decreases a.len(),
{
    if a.len() > 0 && b.len() > 0 && c.len() > 0 && a[0] == b[0] && b[0] == c[0] {
        lemma_lex_transitive(a.skip(1), b.skip(1), c.skip(1));
    }
}

proof fn lemma_lex_asymmetric(a: Seq<char>, b: Seq<char>)
    requires
        lex_lt(a, b),
    ensures
        !lex_lt(b, a),
{
    if lex_lt(b, a) {
        lemma_lex_transitive(a, b, a);
        lemma_lex_irreflexive(a);
    }
}

proof fn lemma_before_order(a: Seq<char>, b: Seq<char>, c: Seq<char>, fl: bool)
    ensures
        !key_before(a, a, fl),
        key_before(a, b, fl) ==> !key_before(b, a, fl),
        a != b ==> key_before(a, b, fl) || key_before(b, a, fl),
        key_before(a, b, fl) && key_before(b, c, fl) ==> key_before(a, c, fl),
{
    lemma_lex_irreflexive(a);
    if key_before(a, b, fl) && !(fl && first_level_class(a) != first_level_class(b)) {
        lemma_lex_asymmetric(a, b);
    }
    if a != b {
        lemma_lex_total(a, b);
    }
    if key_before(a, b, fl) && key_before(b, c, fl) {
        if !fl || (first_level_class(a) == first_level_class(b) && first_level_class(b)
            == first_level_class(c)) {
            lemma_lex_transitive(a, b, c);
        }
    }
}

/// The keys of `order`'s entries are strictly increasing.
pub open spec fn strictly_sorted(keys: Seq<Seq<char>>, order: Seq<int>, fl: bool) -> bool {
    forall|x: int, y: int|
        0 <= x < y < order.len() ==> key_before(
            #[trigger] keys[order[x]],
            #[trigger] keys[order[y]],
            fl,
        )
}

/// Every index of `order` is below `n`.
pub open spec fn indices_below(order: Seq<int>, n: int) -> bool {
    forall|x: int| 0 <= x < order.len() ==> 0 <= #[trigger] order[x] < n
}

/// No two keys are equal.
pub open spec fn distinct_keys(keys: Seq<Seq<char>>) -> bool {
    forall|x: int, y: int| 0 <= x < y < keys.len() ==> #[trigger] keys[x] != #[trigger] keys[y]
}

proof fn lemma_insert_key_sorted(keys: Seq<Seq<char>>, i: int, order: Seq<int>, fl: bool)
    requires
        0 <= i < keys.len(),
        distinct_keys(keys),
        indices_below(order, i),
        strictly_sorted(keys, order, fl),
    ensures
        strictly_sorted(keys, insert_key(keys, i, order, fl), fl),
        indices_below(insert_key(keys, i, order, fl), i + 1),
        insert_key(keys, i, order, fl).len() == order.len() + 1,
    decreases order.len(),
{
    let r = insert_key(keys, i, order, fl);
    if order.len() == 0 {
    } else if key_before(keys[i], keys[order[0]], fl) {
        assert forall|x: int, y: int| 0 <= x < y < r.len() implies key_before(
            #[trigger] keys[r[x]],
            #[trigger] keys[r[y]],
            fl,
        ) by {
            if x == 0 {
                if y > 1 {
                    assert(key_before(keys[order[0]], keys[order[y - 1]], fl));
                    lemma_before_order(keys[i], keys[order[0]], keys[order[y - 1]], fl);
                }
            } else {
                assert(r[x] == order[x - 1] && r[y] == order[y - 1]);
            }
        }
    } else {
        let rest = order.skip(1);
        assert forall|x: int, y: int| 0 <= x < y < rest.len() implies key_before(
            #[trigger] keys[rest[x]],
            #[trigger] keys[rest[y]],
            fl,
        ) by {
            assert(rest[x] == order[x + 1] && rest[y] == order[y + 1]);
        }
        lemma_insert_key_sorted(keys, i, rest, fl);
        let tail = insert_key(keys, i, rest, fl);
        assert(r == seq![order[0]] + tail);
        assert(keys[i] != keys[order[0]]) by {
            if order[0] < i {
                assert(keys[order[0]] != keys[i]);
            }
        }
        lemma_before_order(keys[i], keys[order[0]], keys[i], fl);
        assert forall|x: int, y: int| 0 <= x < y < r.len() implies key_before(
            #[trigger] keys[r[x]],
            #[trigger] keys[r[y]],
            fl,
        ) by {
            if x == 0 {
                let t = tail[y - 1];
                if t == i {
                } else {
                    // t is an element of rest
                    assert(exists|z: int| 0 <= z < rest.len() && rest[z] == t) by {
                        lemma_insert_key_members(keys, i, rest, fl, y - 1);
                    }
                    let z = choose|z: int| 0 <= z < rest.len() && rest[z] == t;
                    assert(key_before(keys[order[0]], keys[order[z + 1]], fl));
                }
            } else {
                assert(r[x] == tail[x - 1] && r[y] == tail[y - 1]);
            }
        }
    }
}

proof fn lemma_insert_key_members(keys: Seq<Seq<char>>, i: int, order: Seq<int>, fl: bool, y: int)
    requires
        0 <= y < insert_key(keys, i, order, fl).len(),
    ensures
        insert_key(keys, i, order, fl)[y] == i || exists|z: int|
            0 <= z < order.len() && order[z] == insert_key(keys, i, order, fl)[y],
    decreases order.len(),
{
    let r = insert_key(keys, i, order, fl);
    if order.len() == 0 {
    } else if key_before(keys[i], keys[order[0]], fl) {
        if y > 0 {
            assert(order[y - 1] == r[y]);
        }
    } else {
        if y == 0 {
            assert(order[0] == r[0]);
        } else {
            let rest = order.skip(1);
            lemma_insert_key_members(keys, i, rest, fl, y - 1);
            if r[y] != i {
                let z = choose|z: int| 0 <= z < rest.len() && rest[z] == r[y];
                assert(order[z + 1] == r[y]);
            }
        }
    }
}

/// The written order of entries with distinct keys strictly increases by key.
pub proof fn lemma_key_order_sorted(keys: Seq<Seq<char>>, n: nat, fl: bool)
    requires
        n <= keys.len(),
        distinct_keys(keys),
    ensures
        strictly_sorted(keys, key_order(keys, n, fl), fl),
        indices_below(key_order(keys, n, fl), n as int),
        key_order(keys, n, fl).len() == n,
    decreases n,
{
    if n > 0 {
        lemma_key_order_sorted(keys, (n - 1) as nat, fl);
        lemma_insert_key_sorted(keys, n - 1, key_order(keys, (n - 1) as nat, fl), fl);
    }
}

proof fn lemma_insert_key_last(keys: Seq<Seq<char>>, i: int, order: Seq<int>, fl: bool)
    requires
        forall|z: int| 0 <= z < order.len() ==> key_before(#[trigger] keys[order[z]], keys[i], fl),
    ensures
        insert_key(keys, i, order, fl) == order.push(i),
    decreases order.len(),
{
    if order.len() == 0 {
        assert(seq![i] =~= order.push(i));
    } else {
        lemma_before_order(keys[order[0]], keys[i], keys[i], fl);
        let rest = order.skip(1);
        assert forall|z: int| 0 <= z < rest.len() implies key_before(
            #[trigger] keys[rest[z]],
            keys[i],
            fl,
        ) by {
            assert(rest[z] == order[z + 1]);
        }
        lemma_insert_key_last(keys, i, rest, fl);
        assert(seq![order[0]] + rest.push(i) =~= order.push(i));
    }
}

/// `0, 1, ..., n - 1`.
pub open spec fn identity_order(n: nat) -> Seq<int> {
    Seq::new(n, |i: int| i)
}

proof fn lemma_key_order_identity(keys: Seq<Seq<char>>, n: nat, fl: bool)
    requires
        n <= keys.len(),
        forall|x: int, y: int|
            0 <= x < y < n ==> key_before(#[trigger] keys[x], #[trigger] keys[y], fl),
    ensures
        key_order(keys, n, fl) == identity_order(n),
    decreases n,
{
    if n > 0 {
        lemma_key_order_identity(keys, (n - 1) as nat, fl);
        let prev = identity_order((n - 1) as nat);
        assert forall|z: int| 0 <= z < prev.len() implies key_before(
            #[trigger] keys[prev[z]],
            keys[n - 1],
            fl,
        ) by {
            assert(prev[z] == z);
        }
        lemma_insert_key_last(keys, n - 1, prev, fl);
        assert(prev.push(n - 1) =~= identity_order(n));
    }
}

/// `w` is `v` with the entries of each object in the order in which they
/// are written (`root`: `v` is written as a document, at depth 0) and with
/// numbers that print as `v`'s do, forced or not (a clamped number, or a
/// forced `100.0` read back as `1000·10^-1`). Keys are
/// distinct in every object of `v`; everything else is the same.
pub open spec fn canonical_of(w: Value, v: Value, root: bool) -> bool
    decreases v,
{
    match (w, v) {
        (Value::Number(x), Value::Number(y)) => number_text(x, false) == number_text(y, false)
            && number_text(x, true) == number_text(y, true),
        (Value::Array(a), Value::Array(b)) => a@.len() == b@.len() && forall|i: int|
            0 <= i < b@.len() ==> canonical_of(#[trigger] a@[i], b@[i], false),
        (Value::Object(a), Value::Object(b)) => {
            let o = key_order(keys_of(b@), b@.len() as nat, root);
            &&& a@.len() == b@.len()
            &&& distinct_keys(keys_of(b@))
            &&& o.len() == b@.len()
            &&& forall|i: int|
                0 <= i < b@.len() ==> 0 <= #[trigger] o[i] < b@.len() && a@[i].0@ == b@[o[i]].0@
                    && canonical_of(a@[i].1, b@[o[i]].1, root && a@[i].0@ == "geometry"@)
        },
        _ => w == v,
    }
}

proof fn lemma_canonical_json_text(w: Value, v: Value, force: bool, dent: nat, pretty: bool)
    requires
        canonical_of(w, v, dent == 0),
    ensures
        json_text(w, force, dent, pretty) == json_text(v, force, dent, pretty),
    decreases v, 0nat,
{
    match (w, v) {
        (Value::Array(a), Value::Array(b)) => {
            if b@.len() > 0 {
                lemma_canonical_items(a@, b@, b@.len(), force, dent + 1, pretty);
            }
        },
        (Value::Object(a), Value::Object(b)) => {
            if b@.len() > 0 {
                let fl = dent == 0;
                let kb = keys_of(b@);
                let ka = keys_of(a@);
                let n = b@.len() as nat;
                let o = key_order(kb, n, fl);
                lemma_key_order_sorted(kb, n, fl);
                assert forall|x: int, y: int| 0 <= x < y < n implies key_before(
                    #[trigger] ka[x],
                    #[trigger] ka[y],
                    fl,
                ) by {
                    assert(ka[x] == kb[o[x]]);
                    assert(ka[y] == kb[o[y]]);
                }
                lemma_key_order_identity(ka, n, fl);
                lemma_canonical_entries(a@, b@, o, n, dent + 1, pretty, fl);
            }
        },
        _ => {},
    }
}

proof fn lemma_canonical_items(
    a: Seq<Value>,
    b: Seq<Value>,
    n: nat,
    force: bool,
    dent: nat,
    pretty: bool,
)
    requires
        dent > 0,
        a.len() == b.len(),
        n <= b.len(),
        forall|i: int| 0 <= i < b.len() ==> canonical_of(#[trigger] a[i], b[i], false),
    ensures
        items_text(a, n, force, dent, pretty) == items_text(b, n, force, dent, pretty),
    decreases b, n,
{
    if n > 0 {
        lemma_canonical_items(a, b, (n - 1) as nat, force, dent, pretty);
        assert(canonical_of(a[n - 1], b[n - 1], false));
        lemma_canonical_json_text(a[n - 1], b[n - 1], force, dent, pretty);
    }
}

proof fn lemma_canonical_entries(
    a: Seq<(String, Value)>,
    b: Seq<(String, Value)>,
    o: Seq<int>,
    n: nat,
    dent: nat,
    pretty: bool,
    top: bool,
)
    requires
        dent > 0,
        top ==> dent == 1,
        a.len() == b.len(),
        o.len() == b.len(),
        n <= b.len(),
        forall|i: int|
            0 <= i < b.len() ==> 0 <= #[trigger] o[i] < b.len() && a[i].0@ == b[o[i]].0@
                && canonical_of(a[i].1, b[o[i]].1, top && a[i].0@ == "geometry"@),
    ensures
        entries_text(a, identity_order(b.len() as nat), n, dent, pretty, top) == entries_text(
            b,
            o,
            n,
            dent,
            pretty,
            top,
        ),
    decreases b, n,
{
    if n > 0 {
        let id = identity_order(b.len() as nat);
        lemma_canonical_entries(a, b, o, (n - 1) as nat, dent, pretty, top);
        assert(id[n - 1] == n - 1);
        assert(0 <= o[n - 1] < b.len());
        let k = a[n - 1].0@;
        lemma_canonical_entry_value(k, a[n - 1].1, b[o[n - 1]].1, dent, pretty, top);
    }
}

proof fn lemma_canonical_entry_value(
    k: Seq<char>,
    wv: Value,
    vv: Value,
    dent: nat,
    pretty: bool,
    top: bool,
)
    requires
        dent > 0,
        top ==> dent == 1,
        canonical_of(wv, vv, top && k == "geometry"@),
    ensures
        entry_value_text(k, wv, dent, pretty, top) == entry_value_text(k, vv, dent, pretty, top),
    decreases vv, 1nat,
{
    if top && k == "bbox"@ && vv is Array {
        reveal_strlit("bbox");
        reveal_strlit("geometry");
        assert("bbox"@.len() == 4);
        assert("geometry"@.len() == 8);
        let b = vv->Array_0@;
        let a = wv->Array_0@;
        if b.len() > 0 {
            lemma_canonical_items(a, b, b.len(), true, dent + 1, pretty);
        }
    } else if top && k == "geometry"@ {
        lemma_canonical_json_text(wv, vv, false, 0, false);
    } else {
        lemma_canonical_json_text(wv, vv, forced_key(k), dent, pretty);
    }
}

/// Writing a value whose objects already list their entries in the order
/// in which they are written, and whose numbers print as the source's do,
/// gives the same text as writing the source: the entry order and the
/// numbers of a written text, read back, change nothing when it is written
/// again.
pub proof fn lemma_canonical_same_text(w: Value, v: Value, force: bool, dent: nat, pretty: bool)
    requires
        canonical_of(w, v, dent == 0),
    ensures
        json_text(w, force, dent, pretty) == json_text(v, force, dent, pretty),
{
    lemma_canonical_json_text(w, v, force, dent, pretty);
}

} // verus!
