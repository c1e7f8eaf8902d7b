//! Patches: a partial document whose `geometry`, `bbox` and properties
//! replace those of an original document. A property set to `null` is
//! removed; the property `name:*` sets (or removes) every name of the
//! original.

use crate::value::{
    find_key, get_entry, keys_of, lemma_first_index, lemma_same_refl, lemma_same_sym, lookup,
    remove_key, same, same_opt, set_value, JsonObject, JsonUtils, Value,
};
use crate::text::chars_of;
use crate::ser::is_key;
use vstd::prelude::*;

verus! {

/// A name property: its key starts with `name:`.
pub open spec fn is_name_key(k: Seq<char>) -> bool {
    k.len() >= 5 && k.take(5) == "name:"@
}

/// The value of property `key` after the patch entries `patch` are applied
/// in order to a property that held `state`.
pub open spec fn patched_property(state: Option<Value>, patch: Seq<(String, Value)>, key: Seq<char>) -> Option<
    Value,
>
    decreases patch.len(),
{
    if patch.len() == 0 {
        state
    } else {
        let prev = patched_property(state, patch.drop_last(), key);
        let e = patch.last();
        if (e.0@ == "name:*"@ && is_name_key(key) && prev is Some) || (e.0@ != "name:*"@ && e.0@
            == key) {
            if e.1 is Null {
                None
            } else {
                Some(e.1)
            }
        } else {
            prev
        }
    }
}

/// The patch sets a property of a non-object: a non-null entry other than `name:*`.
pub open spec fn sets_a_property(patch: Seq<(String, Value)>) -> bool {
    exists|i: int| 0 <= i < patch.len() && (#[trigger] patch[i]).0@ != "name:*"@ && !(patch[i].1 is Null)
}

/// The entries of the `properties` of a patch (none when it is not an object).
pub open spec fn patch_properties(patch: Seq<(String, Value)>) -> Seq<(String, Value)> {
    match lookup(patch, "properties"@) {
        Some(Value::Object(p)) => p@,
        _ => Seq::empty(),
    }
}

/// Why a patch cannot be applied to `original`, if it cannot.
pub open spec fn patch_refused(patch: Seq<(String, Value)>, original: Value) -> bool {
    let touches = lookup(patch, "geometry"@) is Some || lookup(patch, "properties"@) is Some
        || lookup(patch, "bbox"@) is Some;
    if !(original is Object) {
        touches
    } else if lookup(patch, "properties"@) is Some {
        match lookup(original->Object_0@, "properties"@) {
            None => true,
            Some(p) => !(p is Object) && sets_a_property(patch_properties(patch)),
        }
    } else {
        false
    }
}

/// `out` is `original` patched: the top-level `geometry` and `bbox` of the
/// patch replace the original ones; the properties follow `patched_property`.
pub open spec fn patched(patch: Seq<(String, Value)>, original: Value, out: Value) -> bool {
    if !(original is Object) {
        out == original
    } else {
        let o = original->Object_0@;
        &&& out is Object
        &&& forall|k: Seq<char>|
            k != "geometry"@ && k != "bbox"@ && k != "properties"@ ==> #[trigger] lookup(
                out->Object_0@,
                k,
            ) == lookup(o, k)
        &&& if lookup(patch, "geometry"@) is Some {
            same_opt(lookup(out->Object_0@, "geometry"@), lookup(patch, "geometry"@))
        } else {
            lookup(out->Object_0@, "geometry"@) == lookup(o, "geometry"@)
        }
        &&& if lookup(patch, "bbox"@) is Some {
            same_opt(lookup(out->Object_0@, "bbox"@), lookup(patch, "bbox"@))
        } else {
            lookup(out->Object_0@, "bbox"@) == lookup(o, "bbox"@)
        }
        &&& if lookup(patch, "properties"@) is Some && lookup(o, "properties"@) is Some && lookup(
            o,
            "properties"@,
        )->0 is Object {
            let p = lookup(o, "properties"@)->0->Object_0@;
            &&& lookup(out->Object_0@, "properties"@) is Some
            &&& lookup(out->Object_0@, "properties"@)->0 is Object
            &&& forall|key: Seq<char>|
                same_opt(
                    #[trigger] lookup(lookup(out->Object_0@, "properties"@)->0->Object_0@, key),
                    patched_property(lookup(p, key), patch_properties(patch), key),
                )
        } else {
            lookup(out->Object_0@, "properties"@) == lookup(o, "properties"@)
        }
    }
}

fn starts_with_name(k: &str) -> (r: bool)
    ensures
        r == is_name_key(k@),
{
    proof {
        reveal_strlit("name:");
    }
    let c = chars_of(k);
    let h = chars_of("name:");
    if c.len() < 5 {
        return false;
    }
    let mut i: usize = 0;
    while i < 5
        invariant
            i <= 5,
            c@.len() >= 5,
            h@ == "name:"@,
            h@.len() == 5,
            c@ == k@,
            c@.take(i as int) == h@.take(i as int),
        decreases 5 - i,
    {
        if c[i] != h[i] {
            assert(c@.take(5)[i as int] != h@[i as int]);
            return false;
        }
        assert(c@.take(i + 1) =~= c@.take(i as int).push(c@[i as int]));
        assert(h@.take(i + 1) =~= h@.take(i as int).push(h@[i as int]));
        i = i + 1;
    }
    assert(h@.take(5) =~= h@);
    true
}

proof fn lemma_lookup_in_keys(entries: Seq<(String, Value)>, k: Seq<char>)
    requires
        lookup(entries, k) is Some,
    ensures
        keys_of(entries).contains(k),
{
    lemma_first_index(entries, k);
    let i = crate::value::first_index(entries, k);
    assert(keys_of(entries)[i] == k);
}

/// Sets every name property that `props` has to a copy of `v`, or removes them for `null`.
fn apply_all_names(props: &mut Vec<(String, Value)>, v: &Value)
    ensures
        forall|key: Seq<char>|
            #![trigger lookup(final(props)@, key)]
            if is_name_key(key) && lookup(old(props)@, key) is Some {
                if *v is Null {
                    lookup(final(props)@, key) is None
                } else {
                    lookup(final(props)@, key) matches Some(x) && same(*v, x)
                }
            } else {
                lookup(final(props)@, key) == lookup(old(props)@, key)
            },
{
    let ghost start = props@;
    let keys = collect_keys(props);
    let ghost ks = crate::value::views_of(keys@);
    assert(ks.len() == start.len());
    let is_null = match v {
        Value::Null => true,
        _ => false,
    };
    let mut i: usize = 0;
    while i < keys.len()
        invariant
            i <= keys@.len(),
            ks == crate::value::views_of(keys@),
            ks == keys_of(start),
            ks.len() == start.len(),
            is_null == (*v is Null),
            forall|key: Seq<char>|
                #![trigger lookup(props@, key)]
                if is_name_key(key)
                    && lookup(start, key) is Some && ks.take(i as int).contains(key) {
                    if is_null {
                        lookup(props@, key) is None
                    } else {
                        lookup(props@, key) matches Some(x) && same(*v, x)
                    }
                } else {
                    lookup(props@, key) == lookup(start, key)
                },
        decreases keys@.len() - i,
    {
        let ghost before = props@;
        let ghost kk = ks[i as int];
        assert(ks.take(i + 1) =~= ks.take(i as int).push(kk));
        if starts_with_name(keys[i].as_str()) {
            if is_null {
                remove_key(props, keys[i].as_str());
            } else {
                let c = v.deep_clone();
                set_value(props, keys[i].as_str(), c);
            }
            assert forall|key: Seq<char>|
                #![trigger lookup(props@, key)]
                if is_name_key(key)
                    && lookup(start, key) is Some && ks.take(i + 1).contains(key) {
                    if is_null {
                        lookup(props@, key) is None
                    } else {
                        lookup(props@, key) matches Some(x) && same(*v, x)
                    }
                } else {
                    lookup(props@, key) == lookup(start, key)
                } by {
                if key == kk {
                    assert(ks.take(i + 1)[i as int] == kk);
                    assert(ks.take(i + 1).contains(key));
                    assert(keys_of(start)[i as int] == kk);
                    assert(keys_of(start)[i as int] == start[i as int].0@);
                    assert(lookup(start, key) is Some) by {
                        lemma_first_index(start, key);
                        let j = i as int;
                        assert(start[j].0@ == key);
                        if crate::value::first_index(start, key) >= start.len() {
                            assert(false);
                        }
                    }
                } else {
                    if ks.take(i + 1).contains(key) {
                        let t = ks.take(i + 1);
                        let j = choose|j: int| 0 <= j < t.len() && #[trigger] t[j] == key;
                        assert(j < i);
                        assert(ks.take(i as int)[j] == key);
                    }
                }
            }
        } else {
            assert forall|key: Seq<char>|
                #![trigger lookup(props@, key)]
                if is_name_key(key)
                    && lookup(start, key) is Some && ks.take(i + 1).contains(key) {
                    if is_null {
                        lookup(props@, key) is None
                    } else {
                        lookup(props@, key) matches Some(x) && same(*v, x)
                    }
                } else {
                    lookup(props@, key) == lookup(start, key)
                } by {
                if ks.take(i + 1).contains(key) && key != kk {
                    let t = ks.take(i + 1);
                        let j = choose|j: int| 0 <= j < t.len() && #[trigger] t[j] == key;
                    assert(j < i);
                    assert(ks.take(i as int)[j] == key);
                }
            }
        }
        i = i + 1;
    }
    assert(ks.take(keys@.len() as int) =~= ks);
    assert forall|key: Seq<char>| is_name_key(key) && lookup(start, key) is Some implies ks.contains(
        key,
    ) by {
        lemma_lookup_in_keys(start, key);
    }
}

fn collect_keys(props: &Vec<(String, Value)>) -> (r: Vec<String>)
    ensures
        crate::value::views_of(r@) == keys_of(props@),
{
    let mut keys: Vec<String> = Vec::new();
    let mut i: usize = 0;
    while i < props.len()
        invariant
            i <= props@.len(),
            keys@.len() == i,
            crate::value::views_of(keys@) == keys_of(props@).take(i as int),
        decreases props@.len() - i,
    {
        let ghost prev = keys@;
        keys.push(props[i].0.clone());
        assert(keys@ == prev.push(props@[i as int].0));
        assert(crate::value::views_of(keys@) =~= keys_of(props@).take(i + 1));
        i = i + 1;
    }
    assert(keys_of(props@).take(props@.len() as int) =~= keys_of(props@));
    keys
}

/// Applies the properties of a patch to the properties of a document (see `patched_property`).
fn apply_properties(props: &mut Vec<(String, Value)>, pe: &Vec<(String, Value)>)
    ensures
        forall|key: Seq<char>|
            same_opt(
                #[trigger] lookup(final(props)@, key),
                patched_property(lookup(old(props)@, key), pe@, key),
            ),
{
    let ghost start = props@;
    let mut j: usize = 0;
    assert forall|key: Seq<char>|
        same_opt(
            #[trigger] lookup(props@, key),
            patched_property(lookup(start, key), pe@.take(0), key),
        ) by {
        match lookup(props@, key) {
            Some(x) => lemma_same_refl(x),
            None => {},
        }
    }
    while j < pe.len()
        invariant
            j <= pe@.len(),
            forall|key: Seq<char>|
                same_opt(
                    #[trigger] lookup(props@, key),
                    patched_property(lookup(start, key), pe@.take(j as int), key),
                ),
        decreases pe@.len() - j,
    {
        let ghost before = props@;
        let ghost e = pe@[j as int];
        assert(pe@.take(j + 1).drop_last() =~= pe@.take(j as int));
        assert(pe@.take(j + 1).last() == e);
        proof {
            reveal_strlit("name:*");
        }
        if is_key(pe[j].0.as_str(), "name:*") {
            apply_all_names(props, &pe[j].1);
            assert forall|key: Seq<char>|
                same_opt(
                    #[trigger] lookup(props@, key),
                    patched_property(lookup(start, key), pe@.take(j + 1), key),
                ) by {
                let prev = patched_property(lookup(start, key), pe@.take(j as int), key);
                assert(same_opt(lookup(before, key), prev));
                if is_name_key(key) && lookup(before, key) is Some && !(e.1 is Null) {
                    let x = lookup(props@, key)->0;
                    lemma_same_sym(e.1, x);
                }
            }
        } else {
            match &pe[j].1 {
                Value::Null => {
                    remove_key(props, pe[j].0.as_str());
                },
                v => {
                    let c = v.deep_clone();
                    set_value(props, pe[j].0.as_str(), c);
                    proof {
                        lemma_same_sym(*v, c);
                    }
                },
            }
            assert forall|key: Seq<char>|
                same_opt(
                    #[trigger] lookup(props@, key),
                    patched_property(lookup(start, key), pe@.take(j + 1), key),
                ) by {
                let prev = patched_property(lookup(start, key), pe@.take(j as int), key);
                assert(same_opt(lookup(before, key), prev));
            }
        }
        j = j + 1;
    }
    assert(pe@.take(pe@.len() as int) =~= pe@);
}

fn sets_property(pp: &Value) -> (r: bool)
    ensures
        r == sets_a_property(
            match *pp {
                Value::Object(p) => p@,
                _ => Seq::empty(),
            },
        ),
{
    proof {
        reveal_strlit("name:*");
    }
    match pp {
        Value::Object(pe) => {
            let mut i: usize = 0;
            while i < pe.len()
                invariant
                    i <= pe@.len(),
                    *pp == Value::Object(*pe),
                    forall|j: int|
                        0 <= j < i ==> !((#[trigger] pe@[j]).0@ != "name:*"@ && !(pe@[j].1 is Null)),
                decreases pe@.len() - i,
            {
                let null = match &pe[i].1 {
                    Value::Null => true,
                    _ => false,
                };
                if !is_key(pe[i].0.as_str(), "name:*") && !null {
                    assert((pe@[i as int]).0@ != "name:*"@ && !(pe@[i as int].1 is Null));
                    assert(sets_a_property(pe@));
                    return true;
                }
                i = i + 1;
            }
            false
        },
        _ => false,
    }
}

/// Applies `patch` to `original` (see `patched`); the patch is refused as
/// `patch_refused` says.
pub fn apply_patch_to_original(patch: &JsonObject, original: Value) -> (r: Result<Value, String>)
    ensures
        r is Err <==> patch_refused(patch@, original),
        r matches Ok(out) ==> patched(patch@, original, out),
{
    proof {
        reveal_strlit("geometry");
        reveal_strlit("bbox");
        reveal_strlit("properties");
        assert("geometry"@.len() == 8);
        assert("bbox"@.len() == 4);
        assert("properties"@.len() == 10);
    }
    let g = get_entry(patch, "geometry");
    let pp = get_entry(patch, "properties");
    let b = get_entry(patch, "bbox");
    let touches = g.is_some() || pp.is_some() || b.is_some();
    let mut entries = match original {
        Value::Object(e) => e,
        other => {
            if touches {
                return Err("Original JSON is not a JSON Object".to_string());
            } else {
                return Ok(other);
            }
        },
    };
    let ghost o = entries@;
    match g {
        Some(g) => {
            let c = g.deep_clone();
            set_value(&mut entries, "geometry", c);
            proof {
                lemma_same_sym(*g, c);
            }
        },
        None => {},
    }
    let ghost after_geometry = entries@;
    match pp {
        Some(pp) => {
            let pi = find_key(&entries, "properties");
            proof {
                lemma_first_index(entries@, "properties"@);
            }
            if pi == entries.len() {
                return Err("The `properties` key is not found".to_string());
            }
            let ghost before = entries@;
            let (pk, pv) = entries.remove(pi);
            let new_pv = match pv {
                Value::Object(mut props) => {
                    match pp {
                        Value::Object(pe) => apply_properties(&mut props, pe),
                        _ => {
                            assert forall|key: Seq<char>|
                                same_opt(
                                    #[trigger] lookup(props@, key),
                                    patched_property(lookup(props@, key), Seq::empty(), key),
                                ) by {
                                match lookup(props@, key) {
                                    Some(x) => lemma_same_refl(x),
                                    None => {},
                                }
                            }
                        },
                    }
                    Value::Object(props)
                },
                other => {
                    if sets_property(pp) {
                        return Err("Can't set new property".to_string());
                    }
                    other
                },
            };
            let ghost pair = (pk, new_pv);
            entries.insert(pi, (pk, new_pv));
            assert(entries@ =~= before.update(pi as int, pair));
            assert forall|k: Seq<char>| #[trigger] lookup(entries@, k) == (if k == "properties"@ {
                Some(new_pv)
            } else {
                lookup(before, k)
            }) by {
                crate::value::lemma_lookup_update(before, pi as int, pair, k);
            }
        },
        None => {},
    }
    match b {
        Some(b) => {
            let c = b.deep_clone();
            set_value(&mut entries, "bbox", c);
            proof {
                lemma_same_sym(*b, c);
            }
        },
        None => {},
    }
    Ok(Value::Object(entries))
}

} // verus!
