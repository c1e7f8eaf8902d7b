//! The WOF document: a validated view over a JSON object that holds an id,
//! a type, a property bag, a bounding box and a geometry. Derived values
//! (flags, names, ancestors, concordances) are computed on read.

use crate::error::{ErrorView, WofError};
use crate::value::{field, get_entry, kind_name, lookup, value_i32, JsonObject, JsonUtils, Value, Number};
use crate::geometry::{depth_of, geometry_depth};
use crate::keys::{hierarchy_key_placetype, hierarchy_placetype, name_key_parts, opt_view, split_name_key};
use crate::ser::{compact_text, is_key, object_to_writer, object_to_writer_pretty, pretty_text};
use vstd::prelude::*;

verus! {

/// A validated WOF document, borrowing the object it was built from.
#[derive(Debug)]
pub struct WOFGeoJSON<'a> {
    /// The whole object the document was built from.
    pub json: &'a JsonObject,
    /// The id of the document.
    pub id: i32,
    /// The type of the document, `Feature` for a WOF document.
    pub kind: String,
    /// The property bag: names, hierarchy, flags...
    pub properties: &'a JsonObject,
    /// The bounding box: min longitude, min latitude, max longitude, max latitude.
    pub bbox: Vec<Number>,
    /// The geometry object, with its `type` and `coordinates`.
    pub geometry: &'a JsonObject,
}

/// One name of a place, from a property `name:<lang>_[<extlang>_]x_<variant>`.
#[derive(Debug, PartialEq)]
pub struct WofName {
    pub lang: String,
    pub extlang: Option<String>,
    pub variant: String,
    pub value: String,
}

pub open spec fn zero_number() -> Number {
    Number { positive: true, mantissa: 0, exponent: 0, nan: false }
}

/// An element of the source `bbox` array: a number, or zero for another value.
pub open spec fn bbox_number(v: Value) -> Number {
    match v {
        Value::Number(n) => n,
        _ => zero_number(),
    }
}

pub open spec fn bbox_numbers(items: Seq<Value>) -> Seq<Number> {
    items.map_values(|v: Value| bbox_number(v))
}

/// Why `v` is not a valid document, checking `properties`, `bbox`,
/// `geometry`, `id`, `type` and the geometry's `type` (one of the six
/// supported kinds) in this order; `None` when it is valid.
pub open spec fn validation_error(v: Value) -> Option<ErrorView> {
    if !(v is Object) {
        Some(ErrorView::NotAnObject(kind_name(v)))
    } else {
        let props = field(v, "properties"@);
        let bbox = field(v, "bbox"@);
        let geom = field(v, "geometry"@);
        let id = field(v, "id"@);
        let kind = field(v, "type"@);
        if props is None {
            Some(ErrorView::Missing("properties"@))
        } else if !(props->0 is Object) {
            Some(ErrorView::Mistyped("properties"@, kind_name(props->0)))
        } else if bbox is None {
            Some(ErrorView::Missing("bbox"@))
        } else if !(bbox->0 is Array) {
            Some(ErrorView::Mistyped("bbox"@, kind_name(bbox->0)))
        } else if geom is None {
            Some(ErrorView::Missing("geometry"@))
        } else if !(geom->0 is Object) {
            Some(ErrorView::Mistyped("geometry"@, kind_name(geom->0)))
        } else if id is None {
            Some(ErrorView::Missing("id"@))
        } else if value_i32(id->0) is None {
            Some(ErrorView::Mistyped("id"@, kind_name(id->0)))
        } else if kind is None {
            Some(ErrorView::Missing("type"@))
        } else if !(kind->0 is Str) {
            Some(ErrorView::Mistyped("type"@, kind_name(kind->0)))
        } else {
            let gt = lookup(geom->0->Object_0@, "type"@);
            if gt is None {
                Some(ErrorView::Missing("geometry.type"@))
            } else if !(gt->0 is Str) {
                Some(ErrorView::Mistyped("geometry.type"@, kind_name(gt->0)))
            } else if geometry_depth(gt->0->Str_0@) is None {
                Some(ErrorView::UnsupportedGeometry(gt->0->Str_0@))
            } else {
                None
            }
        }
    }
}

/// A flag property is set: a non-empty string other than `uuuu`, `true`, or a non-empty list.
pub open spec fn flag_value(v: Option<Value>) -> bool {
    match v {
        Some(Value::Str(s)) => s@.len() > 0 && s@ != "uuuu"@,
        Some(Value::Boolean(b)) => b,
        Some(Value::Array(a)) => a.len() > 0,
        _ => false,
    }
}

pub open spec fn i32_or(v: Option<Value>, d: i32) -> i32 {
    match v {
        Some(x) => match value_i32(x) {
            Some(i) => i,
            None => d,
        },
        None => d,
    }
}

pub open spec fn text_or(v: Option<Value>, d: Seq<char>) -> Seq<char> {
    match v {
        Some(Value::Str(s)) => s@,
        _ => d,
    }
}

pub open spec fn name_view(n: WofName) -> (Seq<char>, Option<Seq<char>>, Seq<char>, Seq<char>) {
    (n.lang@, opt_view(n.extlang), n.variant@, n.value@)
}

pub open spec fn names_view(v: Seq<WofName>) -> Seq<(Seq<char>, Option<Seq<char>>, Seq<char>, Seq<char>)> {
    v.map_values(|n: WofName| name_view(n))
}

/// The texts of the string items, in order.
pub open spec fn strings_in(items: Seq<Value>) -> Seq<Seq<char>>
    decreases items.len(),
{
    if items.len() == 0 {
        Seq::empty()
    } else {
        strings_in(items.drop_last()) + (if items.last() is Str {
            seq![items.last()->Str_0@]
        } else {
            Seq::empty()
        })
    }
}

/// The names that one property gives: one per string of its list, when its key is a name key.
pub open spec fn entry_names(e: (String, Value)) -> Seq<
    (Seq<char>, Option<Seq<char>>, Seq<char>, Seq<char>),
> {
    match name_key_parts(e.0@) {
        Some((l, x, v)) => match e.1 {
            Value::Array(items) => strings_in(items@).map_values(
                |s: Seq<char>| (l, x, v, s),
            ),
            _ => Seq::empty(),
        },
        None => Seq::empty(),
    }
}

pub open spec fn names_in(entries: Seq<(String, Value)>) -> Seq<
    (Seq<char>, Option<Seq<char>>, Seq<char>, Seq<char>),
>
    decreases entries.len(),
{
    if entries.len() == 0 {
        Seq::empty()
    } else {
        names_in(entries.drop_last()) + entry_names(entries.last())
    }
}

/// The (id, placetype) pairs of one hierarchy object.
pub open spec fn hierarchy_pairs(entries: Seq<(String, Value)>) -> Seq<(i32, Seq<char>)>
    decreases entries.len(),
{
    if entries.len() == 0 {
        Seq::empty()
    } else {
        let e = entries.last();
        hierarchy_pairs(entries.drop_last()) + match (
            hierarchy_key_placetype(e.0@),
            value_i32(e.1),
        ) {
            (Some(p), Some(id)) => seq![(id, p)],
            _ => Seq::empty(),
        }
    }
}

/// The ancestors of a hierarchy list: the pairs of each of its objects, in order.
pub open spec fn hierarchy_ancestors(items: Seq<Value>) -> Seq<(i32, Seq<char>)>
    decreases items.len(),
{
    if items.len() == 0 {
        Seq::empty()
    } else {
        hierarchy_ancestors(items.drop_last()) + match items.last() {
            Value::Object(entries) => hierarchy_pairs(entries@),
            _ => Seq::empty(),
        }
    }
}

/// The (id, source) pairs of a concordances object, for the integral ids.
pub open spec fn concordance_pairs(entries: Seq<(String, Value)>) -> Seq<(i32, Seq<char>)>
    decreases entries.len(),
{
    if entries.len() == 0 {
        Seq::empty()
    } else {
        let e = entries.last();
        concordance_pairs(entries.drop_last()) + match value_i32(e.1) {
            Some(id) => seq![(id, e.0@)],
            None => Seq::empty(),
        }
    }
}

/// The integral items of a list.
pub open spec fn ids_in(items: Seq<Value>) -> Seq<i32>
    decreases items.len(),
{
    if items.len() == 0 {
        Seq::empty()
    } else {
        ids_in(items.drop_last()) + match value_i32(items.last()) {
            Some(id) => seq![id],
            None => Seq::empty(),
        }
    }
}

pub open spec fn pairs_view(v: Seq<(i32, String)>) -> Seq<(i32, Seq<char>)> {
    v.map_values(|p: (i32, String)| (p.0, p.1@))
}

fn zero() -> (r: Number)
    ensures
        r == zero_number(),
{
    Number { positive: true, mantissa: 0, exponent: 0, nan: false }
}

fn bbox_of(items: &Vec<Value>) -> (r: Vec<Number>)
    ensures
        r@ == bbox_numbers(items@),
{
    let mut r: Vec<Number> = Vec::new();
    let mut i: usize = 0;
    while i < items.len()
        invariant
            i <= items@.len(),
            r@ == bbox_numbers(items@).take(i as int),
        decreases items@.len() - i,
    {
        let n = match &items[i] {
            Value::Number(n) => *n,
            _ => zero(),
        };
        r.push(n);
        assert(r@ =~= bbox_numbers(items@).take(i + 1));
        i = i + 1;
    }
    assert(bbox_numbers(items@).take(items@.len() as int) =~= bbox_numbers(items@));
    r
}

fn clone_opt(x: &Option<String>) -> (r: Option<String>)
    ensures
        opt_view(r) == opt_view(*x),
{
    match x {
        Some(s) => Some(s.clone()),
        None => None,
    }
}

/// Appends the names of one property (see `entry_names`).
fn push_entry_names(names: &mut Vec<WofName>, key: &String, value: &Value)
    ensures
        names_view(final(names)@) == names_view(old(names)@) + entry_names((*key, *value)),
{
    let ghost start = names@;
    match split_name_key(key.as_str()) {
        Some((lang, extlang, variant)) => match value {
            Value::Array(items) => {
                let ghost l = lang@;
                let ghost x = opt_view(extlang);
                let ghost v = variant@;
                let mut j: usize = 0;
                assert(items@.take(0) =~= Seq::<Value>::empty());
                assert(names_view(names@) =~= names_view(start) + strings_in(items@.take(0)).map_values(
                    |s: Seq<char>| (l, x, v, s),
                ));
                while j < items.len()
                    invariant
                        j <= items@.len(),
                        l == lang@,
                        x == opt_view(extlang),
                        v == variant@,
                        names_view(names@) == names_view(start) + strings_in(items@.take(j as int)).map_values(
                            |s: Seq<char>| (l, x, v, s),
                        ),
                    decreases items@.len() - j,
                {
                    let ghost prev = names@;
                    match &items[j] {
                        Value::Str(s) => {
                            names.push(
                                WofName {
                                    lang: lang.clone(),
                                    extlang: clone_opt(&extlang),
                                    variant: variant.clone(),
                                    value: s.clone(),
                                },
                            );
                            assert(names_view(names@) =~= names_view(prev).push((l, x, v, s@)));
                        },
                        _ => {},
                    }
                    assert(items@.take(j + 1).drop_last() =~= items@.take(j as int));
                    assert(names_view(names@) =~= names_view(start) + strings_in(items@.take(j + 1)).map_values(
                        |s: Seq<char>| (l, x, v, s),
                    ));
                    j = j + 1;
                }
                assert(items@.take(items@.len() as int) =~= items@);
            },
            _ => {
                assert(names_view(names@) =~= names_view(start) + entry_names((*key, *value)));
            },
        },
        None => {
            assert(names_view(names@) =~= names_view(start) + entry_names((*key, *value)));
        },
    }
}

/// Appends the (id, placetype) pairs of one hierarchy object.
fn push_hierarchy_pairs(out: &mut Vec<(i32, String)>, entries: &Vec<(String, Value)>)
    ensures
        pairs_view(final(out)@) == pairs_view(old(out)@) + hierarchy_pairs(entries@),
{
    let ghost start = out@;
    let mut i: usize = 0;
    assert(entries@.take(0) =~= Seq::<(String, Value)>::empty());
    assert(pairs_view(out@) =~= pairs_view(start) + hierarchy_pairs(entries@.take(0)));
    while i < entries.len()
        invariant
            i <= entries@.len(),
            pairs_view(out@) == pairs_view(start) + hierarchy_pairs(entries@.take(i as int)),
        decreases entries@.len() - i,
    {
        let ghost prev = out@;
        match hierarchy_placetype(entries[i].0.as_str()) {
            Some(p) => match entries[i].1.as_i32() {
                Some(id) => {
                    out.push((id, p));
                    assert(pairs_view(out@) =~= pairs_view(prev).push((id, p@)));
                },
                None => {},
            },
            None => {},
        }
        assert(entries@.take(i + 1).drop_last() =~= entries@.take(i as int));
        assert(entries@.take(i + 1).last() == entries@[i as int]);
        assert(pairs_view(out@) =~= pairs_view(start) + hierarchy_pairs(entries@.take(i + 1)));
        i = i + 1;
    }
    assert(entries@.take(entries@.len() as int) =~= entries@);
}

fn missing(key: &str) -> (r: WofError)
    ensures
        r@ == ErrorView::Missing(key@),
{
    WofError::Missing(key.to_string())
}

fn mistyped(key: &str, v: &Value) -> (r: WofError)
    ensures
        r@ == ErrorView::Mistyped(key@, kind_name(*v)),
{
    WofError::Mistyped(key.to_string(), v.type_as_string().to_string())
}

impl<'a> WOFGeoJSON<'a> {
    /// The value of property `k`.
    pub open spec fn prop(&self, k: Seq<char>) -> Option<Value> {
        lookup(self.properties@, k)
    }

    /// The document is `v`'s view: each field holds what `v` holds under its key.
    pub open spec fn built_from(&self, v: Value) -> bool {
        &&& v is Object
        &&& *self.json == v->Object_0
        &&& field(v, "properties"@) == Some(Value::Object(*self.properties))
        &&& field(v, "geometry"@) == Some(Value::Object(*self.geometry))
        &&& value_i32(field(v, "id"@)->0) == Some(self.id)
        &&& field(v, "type"@) == Some(Value::Str(self.kind))
        &&& self.bbox@ == bbox_numbers(field(v, "bbox"@)->0->Array_0@)
    }

    /// Validates `json` as a WOF document: an object with `properties`
    /// (object), `bbox` (array), `geometry` (object), `id` (integer) and
    /// `type` (string). The error names the first key at fault.
    pub fn as_valid_wof_geojson(json: &'a Value) -> (r: Result<WOFGeoJSON<'a>, WofError>)
        ensures
            r is Ok <==> validation_error(*json) is None,
            r matches Err(e) ==> validation_error(*json) == Some(e@),
            r matches Ok(d) ==> d.built_from(*json),
    {
        let obj = match json {
            Value::Object(o) => o,
            _ => {
                return Err(WofError::NotAnObject(json.type_as_string().to_string()));
            },
        };
        let props = match get_entry(obj, "properties") {
            Some(Value::Object(p)) => p,
            Some(v) => {
                return Err(mistyped("properties", v));
            },
            None => {
                return Err(missing("properties"));
            },
        };
        let bbox = match get_entry(obj, "bbox") {
            Some(Value::Array(items)) => bbox_of(items),
            Some(v) => {
                return Err(mistyped("bbox", v));
            },
            None => {
                return Err(missing("bbox"));
            },
        };
        let geom = match get_entry(obj, "geometry") {
            Some(Value::Object(g)) => g,
            Some(v) => {
                return Err(mistyped("geometry", v));
            },
            None => {
                return Err(missing("geometry"));
            },
        };
        let id = match get_entry(obj, "id") {
            Some(v) => match v.as_i32() {
                Some(i) => i,
                None => {
                    return Err(mistyped("id", v));
                },
            },
            None => {
                return Err(missing("id"));
            },
        };
        let kind = match get_entry(obj, "type") {
            Some(Value::Str(s)) => s.clone(),
            Some(v) => {
                return Err(mistyped("type", v));
            },
            None => {
                return Err(missing("type"));
            },
        };
        match get_entry(geom, "type") {
            Some(Value::Str(t)) => {
                if depth_of(t.as_str()).is_none() {
                    return Err(WofError::UnsupportedGeometry(t.clone()));
                }
            },
            Some(v) => {
                return Err(mistyped("geometry.type", v));
            },
            None => {
                return Err(missing("geometry.type"));
            },
        }
        Ok(WOFGeoJSON { json: obj, id, kind, properties: props, bbox, geometry: geom })
    }

    fn is_property_deprecated(&self, prop: &str) -> (r: bool)
        ensures
            r == flag_value(self.prop(prop@)),
    {
        proof {
            reveal_strlit("uuuu");
            reveal_strlit("");
        }
        match get_entry(self.properties, prop) {
            Some(Value::Str(s)) => {
                let t = s.as_str();
                assert(t@.len() == 0 ==> t@ =~= ""@);
                !is_key(t, "") && !is_key(t, "uuuu")
            },
            Some(Value::Boolean(b)) => *b,
            Some(Value::Array(a)) => a.len() > 0,
            _ => false,
        }
    }

    fn get_as_i32_or_else(&self, prop: &str, or_else: i32) -> (r: i32)
        ensures
            r == i32_or(self.prop(prop@), or_else),
    {
        match get_entry(self.properties, prop) {
            Some(o) => match o.as_i32() {
                Some(i) => i,
                None => or_else,
            },
            None => or_else,
        }
    }

    fn get_as_string_or_else(&self, prop: &str, or_else: &str) -> (r: String)
        ensures
            r@ == text_or(self.prop(prop@), or_else@),
    {
        match get_entry(self.properties, prop) {
            Some(Value::Str(s)) => s.clone(),
            _ => or_else.to_string(),
        }
    }

    /// Deprecated, superseded or not current.
    pub fn is_doc_deprecated(&self) -> (r: bool)
        ensures
            r == (flag_value(self.prop("edtf:deprecated"@)) || flag_value(
                self.prop("wof:superseded_by"@),
            ) || i32_or(self.prop("lastmodified"@), -1i32) == 0),
    {
        self.is_deprecated() || self.is_superseded() || !self.is_current()
    }

    /// An alternate geometry: the document has a `src:alt_label` property.
    pub fn is_alt_geom(&self) -> (r: bool)
        ensures
            r == (self.prop("src:alt_label"@) is Some),
    {
        get_entry(self.properties, "src:alt_label").is_some()
    }

    /// Current unless its `lastmodified` property is 0.
    pub fn is_current(&self) -> (r: bool)
        ensures
            r == (i32_or(self.prop("lastmodified"@), -1i32) != 0),
    {
        self.get_as_i32_or_else("lastmodified", -1) != 0
    }

    pub fn is_deprecated(&self) -> (r: bool)
        ensures
            r == flag_value(self.prop("edtf:deprecated"@)),
    {
        self.is_property_deprecated("edtf:deprecated")
    }

    pub fn is_ceased(&self) -> (r: bool)
        ensures
            r == flag_value(self.prop("wof:cessation"@)),
    {
        self.is_property_deprecated("wof:cessation")
    }

    pub fn is_superseded(&self) -> (r: bool)
        ensures
            r == flag_value(self.prop("wof:superseded_by"@)),
    {
        self.is_property_deprecated("wof:superseded_by")
    }

    pub fn is_superseding(&self) -> (r: bool)
        ensures
            r == flag_value(self.prop("wof:supersedes"@)),
    {
        self.is_property_deprecated("wof:supersedes")
    }

    /// The source of the geometry, `unknown` by default.
    pub fn get_source(&self) -> (r: String)
        ensures
            r@ == text_or(self.prop("src:geom"@), "unknown"@),
    {
        self.get_as_string_or_else("src:geom", "unknown")
    }

    /// `lastmodified`, else `wof:lastmodified`, else -1.
    pub fn get_last_modified(&self) -> (r: i32)
        ensures
            r == i32_or(self.prop("lastmodified"@), i32_or(self.prop("wof:lastmodified"@), -1i32)),
    {
        let fallback = self.get_as_i32_or_else("wof:lastmodified", -1);
        self.get_as_i32_or_else("lastmodified", fallback)
    }

    /// `wof:parent_id`, -1 by default.
    pub fn get_parent_id(&self) -> (r: i32)
        ensures
            r == i32_or(self.prop("wof:parent_id"@), -1i32),
    {
        self.get_as_i32_or_else("wof:parent_id", -1)
    }

    /// `placetype`, else `wof:placetype`, else empty.
    pub fn get_placetype(&self) -> (r: String)
        ensures
            r@ == text_or(self.prop("placetype"@), text_or(self.prop("wof:placetype"@), ""@)),
    {
        let fallback = self.get_as_string_or_else("wof:placetype", "");
        self.get_as_string_or_else("placetype", fallback.as_str())
    }

    /// `wof:name`, else `name`, else empty.
    pub fn get_name(&self) -> (r: String)
        ensures
            r@ == text_or(self.prop("wof:name"@), text_or(self.prop("name"@), ""@)),
    {
        let fallback = self.get_as_string_or_else("name", "");
        self.get_as_string_or_else("wof:name", fallback.as_str())
    }

    /// `wof:country`, empty by default.
    pub fn get_country(&self) -> (r: String)
        ensures
            r@ == text_or(self.prop("wof:country"@), ""@),
    {
        self.get_as_string_or_else("wof:country", "")
    }

    /// `wof:repo`, empty by default.
    pub fn get_repo(&self) -> (r: String)
        ensures
            r@ == text_or(self.prop("wof:repo"@), ""@),
    {
        self.get_as_string_or_else("wof:repo", "")
    }

    pub fn get_superseded_by(&self) -> (r: String)
        ensures
            r@ == Seq::<char>::empty(),
    {
        String::new()
    }

    pub fn get_supersedes(&self) -> (r: String)
        ensures
            r@ == Seq::<char>::empty(),
    {
        String::new()
    }

    /// The names of the document, property by property, in order.
    pub fn get_names(&self) -> (r: Vec<WofName>)
        ensures
            names_view(r@) == names_in(self.properties@),
    {
        let entries = self.properties;
        let mut names: Vec<WofName> = Vec::new();
        let mut i: usize = 0;
        assert(entries@.take(0) =~= Seq::<(String, Value)>::empty());
        while i < entries.len()
            invariant
                i <= entries@.len(),
                names_view(names@) == names_in(entries@.take(i as int)),
            decreases entries@.len() - i,
        {
            push_entry_names(&mut names, &entries[i].0, &entries[i].1);
            assert(entries@.take(i + 1).drop_last() =~= entries@.take(i as int));
            i = i + 1;
        }
        assert(entries@.take(entries@.len() as int) =~= entries@);
        names
    }

    /// The ancestors listed in `wof:hierarchy`: one (id, placetype) pair for
    /// each `<placetype>_id` key with an integral value, in order.
    pub fn get_ancestors(&self) -> (r: Vec<(i32, String)>)
        ensures
            pairs_view(r@) == match self.prop("wof:hierarchy"@) {
                Some(Value::Array(items)) => hierarchy_ancestors(items@),
                _ => Seq::empty(),
            },
    {
        let mut out: Vec<(i32, String)> = Vec::new();
        match get_entry(self.properties, "wof:hierarchy") {
            Some(Value::Array(items)) => {
                let mut i: usize = 0;
                assert(items@.take(0) =~= Seq::<Value>::empty());
                while i < items.len()
                    invariant
                        i <= items@.len(),
                        pairs_view(out@) == hierarchy_ancestors(items@.take(i as int)),
                    decreases items@.len() - i,
                {
                    match &items[i] {
                        Value::Object(entries) => push_hierarchy_pairs(&mut out, entries),
                        _ => {},
                    }
                    assert(items@.take(i + 1).drop_last() =~= items@.take(i as int));
                    assert(pairs_view(out@) =~= hierarchy_ancestors(items@.take(i + 1)));
                    i = i + 1;
                }
                assert(items@.take(items@.len() as int) =~= items@);
            },
            _ => {
                assert(pairs_view(out@) =~= Seq::<(i32, Seq<char>)>::empty());
            },
        }
        out
    }

    /// The (id, source) pairs of `wof:concordances` whose ids are integral.
    pub fn get_concordances(&self) -> (r: Vec<(i32, String)>)
        ensures
            pairs_view(r@) == match self.prop("wof:concordances"@) {
                Some(Value::Object(entries)) => concordance_pairs(entries@),
                _ => Seq::empty(),
            },
    {
        let mut out: Vec<(i32, String)> = Vec::new();
        match get_entry(self.properties, "wof:concordances") {
            Some(Value::Object(entries)) => {
                let mut i: usize = 0;
                assert(entries@.take(0) =~= Seq::<(String, Value)>::empty());
                while i < entries.len()
                    invariant
                        i <= entries@.len(),
                        pairs_view(out@) == concordance_pairs(entries@.take(i as int)),
                    decreases entries@.len() - i,
                {
                    let ghost prev = out@;
                    match entries[i].1.as_i32() {
                        Some(id) => {
                            out.push((id, entries[i].0.clone()));
                        },
                        None => {},
                    }
                    assert(entries@.take(i + 1).drop_last() =~= entries@.take(i as int));
                    assert(pairs_view(out@) =~= concordance_pairs(entries@.take(i + 1)));
                    i = i + 1;
                }
                assert(entries@.take(entries@.len() as int) =~= entries@);
            },
            _ => {
                assert(pairs_view(out@) =~= Seq::<(i32, Seq<char>)>::empty());
            },
        }
        out
    }

    /// The integral ids listed in `wof:belongsto`.
    pub fn get_belongs_to(&self) -> (r: Vec<i32>)
        ensures
            r@ == match self.prop("wof:belongsto"@) {
                Some(Value::Array(items)) => ids_in(items@),
                _ => Seq::empty(),
            },
    {
        let mut out: Vec<i32> = Vec::new();
        match get_entry(self.properties, "wof:belongsto") {
            Some(Value::Array(items)) => {
                let mut i: usize = 0;
                assert(items@.take(0) =~= Seq::<Value>::empty());
                while i < items.len()
                    invariant
                        i <= items@.len(),
                        out@ == ids_in(items@.take(i as int)),
                    decreases items@.len() - i,
                {
                    match items[i].as_i32() {
                        Some(id) => out.push(id),
                        None => {},
                    }
                    assert(items@.take(i + 1).drop_last() =~= items@.take(i as int));
                    assert(out@ =~= ids_in(items@.take(i + 1)));
                    i = i + 1;
                }
                assert(items@.take(items@.len() as int) =~= items@);
            },
            _ => {},
        }
        out
    }

    /// Writes the document as pretty WOF text at the end of `writer`.
    pub fn pretty(&self, writer: &mut String)
        ensures
            final(writer)@ == old(writer)@ + pretty_text(Value::Object(*self.json)),
    {
        object_to_writer_pretty(self.json, writer)
    }

    /// Writes the document as compact WOF text at the end of `writer`.
    pub fn dump(&self, writer: &mut String)
        ensures
            final(writer)@ == old(writer)@ + compact_text(Value::Object(*self.json)),
    {
        object_to_writer(self.json, writer)
    }

    /// Element `i` of the bounding box, zero when it has fewer elements.
    pub open spec fn bbox_at(&self, i: int) -> Number {
        if i < self.bbox@.len() {
            self.bbox@[i]
        } else {
            zero_number()
        }
    }

    fn bbox_element(&self, i: usize) -> (r: Number)
        ensures
            r == self.bbox_at(i as int),
    {
        if i < self.bbox.len() {
            self.bbox[i]
        } else {
            zero()
        }
    }

    pub fn get_min_lon(&self) -> (r: Number)
        ensures
            r == self.bbox_at(0),
    {
        self.bbox_element(0)
    }

    pub fn get_min_lat(&self) -> (r: Number)
        ensures
            r == self.bbox_at(1),
    {
        self.bbox_element(1)
    }

    pub fn get_max_lon(&self) -> (r: Number)
        ensures
            r == self.bbox_at(2),
    {
        self.bbox_element(2)
    }

    pub fn get_max_lat(&self) -> (r: Number)
        ensures
            r == self.bbox_at(3),
    {
        self.bbox_element(3)
    }
}

/// Writes `wof` as compact WOF text at the end of `writer`.
pub fn wof_to_writer(wof: &WOFGeoJSON, writer: &mut String)
    ensures
        final(writer)@ == old(writer)@ + compact_text(Value::Object(*wof.json)),
{
    wof.dump(writer)
}

/// Writes `wof` as pretty WOF text at the end of `writer`.
pub fn wof_to_writer_pretty(wof: &WOFGeoJSON, writer: &mut String)
    ensures
        final(writer)@ == old(writer)@ + pretty_text(Value::Object(*wof.json)),
{
    wof.pretty(writer)
}

} // verus!
