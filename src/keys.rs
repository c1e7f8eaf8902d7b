//! The grammars of two kinds of property keys: name keys
//! (`name:<lang>_[<extlang>_]x_<variant>`) and hierarchy keys (`<placetype>_id`).

use crate::text::{chars_of, substring};
use vstd::prelude::*;

verus! {

/// The view of an optional string.
pub open spec fn opt_view(x: Option<String>) -> Option<Seq<char>> {
    match x {
        Some(s) => Some(s@),
        None => None,
    }
}

pub open spec fn is_letter(c: char) -> bool {
    ('a' <= c && c <= 'z') || ('A' <= c && c <= 'Z')
}

/// A character of a language subtag or variant: a letter or `_`.
pub open spec fn is_tag_char(c: char) -> bool {
    is_letter(c) || c == '_'
}

pub open spec fn all_tag_chars(s: Seq<char>) -> bool {
    forall|i: int| 0 <= i < s.len() ==> is_tag_char(#[trigger] s[i])
}

/// The index of the last `:` in `k` before position `i`, or -1.
pub open spec fn last_colon(k: Seq<char>, i: int) -> int
    decreases i,
{
    if i <= 0 {
        -1
    } else if k[i - 1] == ':' {
        i - 1
    } else {
        last_colon(k, i - 1)
    }
}

/// `r` reads `<extlang>_x_<more>` with `extlang` of length `p` and `more` not empty.
pub open spec fn extlang_split(r: Seq<char>, p: int) -> bool {
    1 <= p && p + 3 < r.len() && r[p] == '_' && r[p + 1] == 'x' && r[p + 2] == '_'
}

/// The longest extended-language length that is at most `p`, or 0.
pub open spec fn last_extlang_split(r: Seq<char>, p: int) -> int
    decreases p,
{
    if p < 1 {
        0
    } else if extlang_split(r, p) {
        p
    } else {
        last_extlang_split(r, p - 1)
    }
}

/// The extended language (if any) and the variant of the part of a name key
/// after `<lang>_`. The extended language is the longest that fits.
pub open spec fn name_tail_parts(r: Seq<char>) -> Option<(Option<Seq<char>>, Seq<char>)> {
    if !all_tag_chars(r) {
        None
    } else {
        let p = last_extlang_split(r, r.len() - 1);
        if p >= 1 {
            Some((Some(r.take(p)), r.skip(p + 1)))
        } else if r.len() > 2 && r[0] == 'x' && r[1] == '_' {
            Some((None, r))
        } else {
            None
        }
    }
}

/// The language, extended language and variant of a name key: the key ends
/// with `name:`, three letters, `_`, an optional extended language and `_`,
/// then `x_` and at least one more letter or `_`.
pub open spec fn name_key_parts(k: Seq<char>) -> Option<(Seq<char>, Option<Seq<char>>, Seq<char>)> {
    let c = last_colon(k, k.len() as int);
    if c >= 4 && c + 5 <= k.len() && k.subrange(c - 4, c + 1) == "name:"@ && is_letter(k[c + 1])
        && is_letter(k[c + 2]) && is_letter(k[c + 3]) && k[c + 4] == '_' {
        match name_tail_parts(k.skip(c + 5)) {
            Some((ext, variant)) => Some((k.subrange(c + 1, c + 4), ext, variant)),
            None => None,
        }
    } else {
        None
    }
}

/// The start of the run of letters that ends at position `i` of `k`.
pub open spec fn letter_run_start(k: Seq<char>, i: int) -> int
    decreases i,
{
    if i > 0 && is_letter(k[i - 1]) {
        letter_run_start(k, i - 1)
    } else {
        i
    }
}

/// The placetype of a hierarchy key: the letters right before a final `_id`.
pub open spec fn hierarchy_key_placetype(k: Seq<char>) -> Option<Seq<char>> {
    if k.len() >= 3 && k.skip(k.len() - 3) == "_id"@ {
        Some(k.subrange(letter_run_start(k, k.len() - 3), k.len() - 3))
    } else {
        None
    }
}

fn is_letter_exec(c: char) -> (r: bool)
    ensures
        r == is_letter(c),
{
    ('a' <= c && c <= 'z') || ('A' <= c && c <= 'Z')
}

/// Splits a name key into language, extended language and variant (see `name_key_parts`).
pub fn split_name_key(key: &str) -> (r: Option<(String, Option<String>, String)>)
    ensures
        r is Some <==> name_key_parts(key@) is Some,
        r matches Some((l, x, v)) ==> name_key_parts(key@) == Some(
            (l@, opt_view(x), v@),
        ),
{
    proof {
        reveal_strlit("name:");
    }
    let k = chars_of(key);
    let n = k.len();
    let mut i: usize = n;
    while i > 0 && k[i - 1] != ':'
        invariant
            i <= n == k@.len(),
            k@ == key@,
            last_colon(k@, n as int) == last_colon(k@, i as int),
        decreases i,
    {
        i = i - 1;
    }
    if i == 0 {
        return None;
    }
    let c = i - 1;
    assert(last_colon(k@, n as int) == c);
    if c < 4 || n - c < 5 {
        return None;
    }
    let head = chars_of("name:");
    let mut j: usize = 0;
    while j < 5
        invariant
            j <= 5,
            4 <= c,
            c + 5 <= n == k@.len(),
            head@ == "name:"@,
            head@.len() == 5,
            k@ == key@,
            last_colon(k@, n as int) == c,
            k@.subrange(c - 4, c - 4 + j) == head@.take(j as int),
        decreases 5 - j,
    {
        if k[c - 4 + j] != head[j] {
            assert(k@.subrange(c - 4, c + 1)[j as int] != "name:"@[j as int]);
            assert(k@.subrange(c - 4, c + 1) != "name:"@);
            return None;
        }
        assert(k@.subrange(c - 4, c - 4 + j + 1) =~= k@.subrange(c - 4, c - 4 + j).push(
            k@[c - 4 + j],
        ));
        assert(head@.take(j + 1) =~= head@.take(j as int).push(head@[j as int]));
        j = j + 1;
    }
    assert(head@.take(5) =~= head@);
    if !(is_letter_exec(k[c + 1]) && is_letter_exec(k[c + 2]) && is_letter_exec(k[c + 3]) && k[c
        + 4] == '_') {
        return None;
    }
    let start = c + 5;
    let ghost r = k@.skip(start as int);
    let ghost lang_v = k@.subrange(c + 1, c + 4);
    assert(name_key_parts(key@) == match name_tail_parts(r) {
        Some((e, v)) => Some((lang_v, e, v)),
        None => None,
    });
    let mut t: usize = start;
    while t < n
        invariant
            start <= t <= n == k@.len(),
            r == k@.skip(start as int),
            name_key_parts(key@) == match name_tail_parts(r) {
                Some((e, v)) => Some((lang_v, e, v)),
                None => None,
            },
            forall|x: int| 0 <= x < t - start ==> is_tag_char(#[trigger] r[x]),
        decreases n - t,
    {
        let ch = k[t];
        if !(is_letter_exec(ch) || ch == '_') {
            assert(r[t - start] == k@[t as int]);
            assert(!is_tag_char(r[t - start]));
            return None;
        }
        t = t + 1;
    }
    assert(all_tag_chars(r));
    let len = n - start;
    let lang = substring(&k, c + 1, c + 4);
    // the longest extended language
    let mut p: usize = if len >= 1 {
        len - 1
    } else {
        0
    };
    while p >= 1 && !(len - p > 3 && k[start + p] == '_' && k[start + p + 1] == 'x' && k[start + p
        + 2] == '_')
        invariant
            p < len || p == 0,
            len == r.len(),
            start + len == n == k@.len(),
            r == k@.skip(start as int),
            last_extlang_split(r, r.len() - 1) == last_extlang_split(r, p as int),
        decreases p,
    {
        p = p - 1;
    }
    if p >= 1 {
        assert(extlang_split(r, p as int));
        let ext = substring(&k, start, start + p);
        let variant = substring(&k, start + p + 1, n);
        assert(ext@ =~= r.take(p as int));
        assert(variant@ =~= r.skip(p + 1));
        Some((lang, Some(ext), variant))
    } else if len > 2 && k[start] == 'x' && k[start + 1] == '_' {
        let variant = substring(&k, start, n);
        assert(variant@ =~= r);
        Some((lang, None, variant))
    } else {
        None
    }
}

/// The placetype of a hierarchy key (see `hierarchy_key_placetype`).
pub fn hierarchy_placetype(key: &str) -> (r: Option<String>)
    ensures
        r is Some <==> hierarchy_key_placetype(key@) is Some,
        r matches Some(p) ==> hierarchy_key_placetype(key@) == Some(p@),
{
    proof {
        reveal_strlit("_id");
    }
    let k = chars_of(key);
    let n = k.len();
    if n < 3 || k[n - 3] != '_' || k[n - 2] != 'i' || k[n - 1] != 'd' {
        proof {
            if n >= 3 {
                assert(k@.skip(n - 3)[0] == k@[n - 3]);
                assert(k@.skip(n - 3)[1] == k@[n - 2]);
                assert(k@.skip(n - 3)[2] == k@[n - 1]);
            }
        }
        return None;
    }
    assert(k@.skip(n - 3) =~= "_id"@);
    let mut s: usize = n - 3;
    while s > 0 && is_letter_exec(k[s - 1])
        invariant
            s <= n - 3,
            n == k@.len(),
            letter_run_start(k@, n - 3) == letter_run_start(k@, s as int),
        decreases s,
    {
        s = s - 1;
    }
    Some(substring(&k, s, n - 3))
}

} // verus!
