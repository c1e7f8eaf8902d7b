//! Conversions between `String` and `Vec<char>`, used by the code that builds text.

use vstd::prelude::*;

verus! {

/// The characters of the text, in order.
pub(crate) fn chars_of(s: &str) -> (r: Vec<char>)
    ensures
        r@ == s@,
{
    let mut r: Vec<char> = Vec::new();
    for c in it: s.chars()
        invariant
            r@.len() == it.index(),
            forall|i: int| 0 <= i < r@.len() ==> r@[i] == it.seq()[i],
    {
        r.push(c);
    }
    assert(r@ =~= s@);
    r
}

/// Relies on `String: FromIterator<char>`: the text made of the characters, in order.
#[verifier::external_body]
pub(crate) fn string_of(v: &Vec<char>) -> (r: String)
    ensures
        r@ == v@,
{
    v.iter().collect()
}

/// Appends the characters of `s` to `out`.
pub(crate) fn push_str(out: &mut Vec<char>, s: &str)
    ensures
        final(out)@ == old(out)@ + s@,
{
    let cs = chars_of(s);
    let mut i: usize = 0;
    while i < cs.len()
        invariant
            i <= cs@.len(),
            cs@ == s@,
            out@ == old(out)@ + cs@.subrange(0, i as int),
        decreases cs@.len() - i,
    {
        out.push(cs[i]);
        assert(cs@.subrange(0, i + 1) == cs@.subrange(0, i as int).push(cs@[i as int]));
        i = i + 1;
    }
    assert(cs@.subrange(0, cs@.len() as int) == cs@);
}

/// The characters of `v` from `from` to `to`.
pub(crate) fn slice_chars(v: &Vec<char>, from: usize, to: usize) -> (r: Vec<char>)
    requires
        from <= to <= v@.len(),
    ensures
        r@ == v@.subrange(from as int, to as int),
{
    let mut r: Vec<char> = Vec::new();
    let mut i: usize = from;
    while i < to
        invariant
            from <= i <= to <= v@.len(),
            r@ == v@.subrange(from as int, i as int),
        decreases to - i,
    {
        r.push(v[i]);
        assert(v@.subrange(from as int, i + 1) =~= v@.subrange(from as int, i as int).push(
            v@[i as int],
        ));
        i = i + 1;
    }
    r
}

/// A `String` with the characters of `v` from `from` to `to`.
pub(crate) fn substring(v: &Vec<char>, from: usize, to: usize) -> (r: String)
    requires
        from <= to <= v@.len(),
    ensures
        r@ == v@.subrange(from as int, to as int),
{
    string_of(&slice_chars(v, from, to))
}

} // verus!
