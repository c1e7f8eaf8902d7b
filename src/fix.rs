//! Repairs of WOF documents: population counts written as strings with
//! thousands separators (`"1,234"`) lose their commas.

use crate::value::{first_index, Value};
use crate::ser::is_key;
use crate::text::{chars_of, string_of};
use vstd::prelude::*;

verus! {

/// The properties that hold a population count.
pub open spec fn is_population_key(k: Seq<char>) -> bool {
    k == "mz:population"@ || k == "wof:population"@ || k == "wk:population"@ || k
        == "gn:population"@ || k == "gn:pop"@ || k == "qs:pop"@ || k == "qs:gn_pop"@ || k
        == "zs:pop10"@ || k == "meso:pop"@ || k == "statoids:population"@ || k == "ne:pop_est"@
}

pub open spec fn without_commas(s: Seq<char>) -> Seq<char> {
    s.filter(|c: char| c != ',')
}

/// A population property written as a string with a comma.
pub open spec fn fixable(e: (String, Value)) -> bool {
    is_population_key(e.0@) && e.1 is Str && e.1->Str_0@.contains(',')
}

/// `new` is `old` repaired: same key, and the commas dropped from a fixable value.
pub open spec fn fixed_entry(old: (String, Value), new: (String, Value)) -> bool {
    &&& new.0@ == old.0@
    &&& if fixable(old) {
        new.1 is Str && new.1->Str_0@ == without_commas(old.1->Str_0@)
    } else {
        new.1 == old.1
    }
}

/// Why a value cannot be repaired, if it cannot.
pub open spec fn fix_refused(v: Value) -> bool {
    !(v is Object) || {
        let entries = v->Object_0@;
        let p = first_index(entries, "properties"@);
        p >= entries.len() || !(entries[p].1 is Object)
    }
}

/// The repair of a document: only its first `properties` entry changes, entry by entry.
pub open spec fn fixed_document(old: Value, new: Value) -> bool {
    let entries = old->Object_0@;
    let p = first_index(entries, "properties"@);
    let props = entries[p].1->Object_0@;
    &&& new is Object
    &&& new->Object_0@.len() == entries.len()
    &&& forall|i: int| 0 <= i < entries.len() && i != p ==> new->Object_0@[i] == entries[i]
    &&& new->Object_0@[p].0@ == entries[p].0@
    &&& new->Object_0@[p].1 is Object
    &&& new->Object_0@[p].1->Object_0@.len() == props.len()
    &&& forall|i: int|
        0 <= i < props.len() ==> fixed_entry(props[i], #[trigger] new->Object_0@[p].1->Object_0@[i])
}

/// Fixes applied to WOF documents.
pub struct Fix {
    population: bool,
}

impl Fix {
    /// Whether population counts are repaired.
    pub closed spec fn fixes_population(&self) -> bool {
        self.population
    }

    /// All fixes.
    pub fn new() -> (r: Fix)
        ensures
            r.fixes_population(),
    {
        Fix { population: true }
    }

    /// Repairs `obj` in place; returns whether anything changed. A value
    /// that is not an object with an object under `properties` is refused
    /// and left as it was.
    pub fn fix(&self, obj: &mut Value) -> (r: Result<bool, String>)
        ensures
            r is Err <==> fix_refused(*old(obj)),
            r is Err ==> *final(obj) == *old(obj),
            r is Ok && self.fixes_population() ==> fixed_document(*old(obj), *final(obj)),
            r is Ok && !self.fixes_population() ==> *final(obj) == *old(obj),
            r matches Ok(changed) ==> changed == (self.fixes_population() && exists|i: int|
                0 <= i < old(obj)->Object_0@[first_index(
                    old(obj)->Object_0@,
                    "properties"@,
                )].1->Object_0@.len() && fixable(
                    #[trigger] old(obj)->Object_0@[first_index(
                        old(obj)->Object_0@,
                        "properties"@,
                    )].1->Object_0@[i],
                )),
    {
        self.fix_population_mut(obj)
    }

    fn fix_population_mut(&self, obj: &mut Value) -> (r: Result<bool, String>)
        ensures
            r is Err <==> fix_refused(*old(obj)),
            r is Err ==> *final(obj) == *old(obj),
            r is Ok && self.fixes_population() ==> fixed_document(*old(obj), *final(obj)),
            r is Ok && !self.fixes_population() ==> *final(obj) == *old(obj),
            r matches Ok(changed) ==> changed == (self.fixes_population() && exists|i: int|
                0 <= i < old(obj)->Object_0@[first_index(
                    old(obj)->Object_0@,
                    "properties"@,
                )].1->Object_0@.len() && fixable(
                    #[trigger] old(obj)->Object_0@[first_index(
                        old(obj)->Object_0@,
                        "properties"@,
                    )].1->Object_0@[i],
                )),
    {
        let mut doc = Value::Null;
        std::mem::swap(obj, &mut doc);
        let mut entries = match doc {
            Value::Object(entries) => entries,
            other => {
                *obj = other;
                return Err("Input is not a GeoJSON".to_string());
            },
        };
        let ghost orig = entries@;
        let mut p: usize = 0;
        assert(orig.skip(0) =~= orig);
        while p < entries.len() && !is_key(entries[p].0.as_str(), "properties")
            invariant
                p <= entries@.len(),
                entries@ == orig,
                first_index(orig, "properties"@) == p + first_index(orig.skip(p as int), "properties"@),
            decreases entries@.len() - p,
        {
            assert(orig.skip(p as int).skip(1) =~= orig.skip(p + 1));
            p = p + 1;
        }
        if p == entries.len() {
            *obj = Value::Object(entries);
            return Err("`properties` key not found in GeoJSON".to_string());
        }
        let is_object = match &entries[p].1 {
            Value::Object(_) => true,
            _ => false,
        };
        if !is_object {
            *obj = Value::Object(entries);
            return Err("`properties` key is not an object in GeoJSON".to_string());
        }
        if !self.population {
            *obj = Value::Object(entries);
            return Ok(false);
        }
        let (key, value) = entries.remove(p);
        let mut props = match value {
            Value::Object(props) => props,
            _ => Vec::new(),
        };
        let ghost old_props = props@;
        let mut changed = false;
        {
            let mut i: usize = 0;
            while i < props.len()
                invariant
                    i <= props@.len() == old_props.len(),
                    forall|j: int| 0 <= j < i ==> fixed_entry(old_props[j], #[trigger] props@[j]),
                    forall|j: int| i <= j < props@.len() ==> props@[j] == old_props[j],
                    changed == exists|j: int| 0 <= j < i && fixable(#[trigger] old_props[j]),
                decreases props@.len() - i,
            {
                let (k, v) = props.remove(i);
                let new_v = if population_key(k.as_str()) {
                    match v {
                        Value::Str(s) => match fix_strigified_number(&s) {
                            Some(n) => {
                                changed = true;
                                Value::Str(n)
                            },
                            None => Value::Str(s),
                        },
                        other => other,
                    }
                } else {
                    v
                };
                props.insert(i, (k, new_v));
                assert(fixed_entry(old_props[i as int], props@[i as int]));
                i = i + 1;
            }
        }
        entries.insert(p, (key, Value::Object(props)));
        *obj = Value::Object(entries);
        Ok(changed)
    }
}

fn population_key(k: &str) -> (r: bool)
    ensures
        r == is_population_key(k@),
{
    is_key(k, "mz:population") || is_key(k, "wof:population") || is_key(k, "wk:population")
        || is_key(k, "gn:population") || is_key(k, "gn:pop") || is_key(k, "qs:pop") || is_key(
        k,
        "qs:gn_pop",
    ) || is_key(k, "zs:pop10") || is_key(k, "meso:pop") || is_key(k, "statoids:population")
        || is_key(k, "ne:pop_est")
}

/// `value` without its commas, when it has any.
pub fn fix_strigified_number(value: &String) -> (r: Option<String>)
    ensures
        r is Some <==> value@.contains(','),
        r matches Some(s) ==> s@ == without_commas(value@),
{
    let cs = chars_of(value.as_str());
    let mut out: Vec<char> = Vec::new();
    let mut found = false;
    let mut i: usize = 0;
    while i < cs.len()
        invariant
            i <= cs@.len(),
            cs@ == value@,
            out@ == without_commas(cs@.take(i as int)),
            found == cs@.take(i as int).contains(','),
        decreases cs@.len() - i,
    {
        let ghost before = cs@.take(i as int);
        assert(cs@.take(i + 1) =~= before.push(cs@[i as int]));
        proof {
            reveal_with_fuel(Seq::filter, 1);
            assert(cs@.take(i + 1).drop_last() =~= before);
        }
        if cs[i] == ',' {
            found = true;
            assert(cs@.take(i + 1)[i as int] == ',');
        } else {
            out.push(cs[i]);
            assert(out@ =~= without_commas(cs@.take(i + 1)));
            assert(cs@.take(i + 1).contains(',') ==> before.contains(',')) by {
                let t = cs@.take(i + 1);
                if t.contains(',') {
                    let j = choose|j: int| 0 <= j < t.len() && #[trigger] t[j] == ',';
                    assert(j < i);
                    assert(before[j] == ',');
                }
            }
        }
        i = i + 1;
    }
    assert(cs@.take(cs@.len() as int) =~= cs@);
    if found {
        Some(string_of(&out))
    } else {
        None
    }
}

} // verus!
