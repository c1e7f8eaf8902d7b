//! Enrichment of features that are not yet WOF documents: the geometry is
//! checked, the id resolved, the bounding box recomputed, and a fixed set of
//! properties filled with defaults or with measures of the geometry.

use crate::error::{ErrorView, WofError};
use crate::geometry::{check_shape, compute_bbox, depth_of, geometry_bbox, geometry_depth, shape_ok};
use crate::ser::{compact_text, object_to_writer};
use crate::utils::float_format::{decimal_text, push_decimal};
use crate::text::string_of;
use crate::value::{
    find_key, get_entry, normalize, normalized, i64_number, kind_name, lemma_first_index, lemma_lookup_remove, lookup,
    set_default, set_value, value_i64, JsonObject, JsonUtils, Number, Value,
};
use vstd::prelude::*;

verus! {

/// Measures of a geometry computed elsewhere: planar area, area in square
/// metres, and the centroid.
#[derive(Debug, Clone, Copy, PartialEq, Eq, Structural)]
pub struct Measures {
    pub area: Number,
    pub area_m: Number,
    pub latitude: Number,
    pub longitude: Number,
}

/// The MD5 digest of the UTF-8 bytes of a text, in lower-case hexadecimal.
pub uninterp spec fn md5_hex(text: Seq<char>) -> Seq<char>;

/// Relies on `md5::compute` and the `LowerHex` format of its digest: 16 bytes, two digits each.
#[verifier::external_body]
fn md5_of(text: &str) -> (r: String)
    ensures
        r@ == md5_hex(text@),
        r@.len() == 32,
{
    format!("{:x}", md5::compute(text.as_bytes()))
}

/// A bounding-box number as `geom:bbox` writes it: normalized, integral values with `.0`.
pub open spec fn bbox_number_text(n: Number) -> Seq<char> {
    decimal_text(n.positive, n.mantissa as nat, n.exponent as int, true)
}

/// The `geom:bbox` text of four numbers.
pub open spec fn bbox_text(b: Seq<Number>) -> Seq<char> {
    bbox_number_text(b[0]) + seq![','] + bbox_number_text(b[1]) + seq![','] + bbox_number_text(b[2])
        + seq![','] + bbox_number_text(b[3])
}

/// The bounding box of an exported geometry, its numbers normalized.
pub open spec fn export_bbox(g: Seq<(String, Value)>) -> Seq<Number> {
    geometry_bbox(g).map_values(|n: Number| normalized(n))
}

/// Why the geometry of a feature cannot be exported, if it cannot.
pub open spec fn geometry_error(top: Seq<(String, Value)>) -> Option<ErrorView> {
    match lookup(top, "geometry"@) {
        None => Some(ErrorView::Missing("geometry"@)),
        Some(g) => if !(g is Object) {
            Some(ErrorView::Mistyped("geometry"@, kind_name(g)))
        } else {
            let ge = g->Object_0@;
            let c = lookup(ge, "coordinates"@);
            let t = lookup(ge, "type"@);
            if c is None {
                Some(ErrorView::Missing("coordinates"@))
            } else if t is None {
                Some(ErrorView::Missing("type"@))
            } else if !(c->0 is Array) {
                Some(ErrorView::Mistyped("coordinates"@, kind_name(c->0)))
            } else if !(t->0 is Str) {
                Some(ErrorView::Mistyped("type"@, kind_name(t->0)))
            } else if geometry_depth(t->0->Str_0@) is None {
                Some(ErrorView::UnsupportedGeometry(t->0->Str_0@))
            } else if !shape_ok(c->0, geometry_depth(t->0->Str_0@)->0) {
                Some(ErrorView::MalformedCoordinates(t->0->Str_0@))
            } else {
                None
            }
        },
    }
}

/// The id of a feature: its top-level integral `id`, else the integral
/// `wof:id` of its properties.
pub open spec fn export_id(top: Seq<(String, Value)>, props: Seq<(String, Value)>) -> Option<i64> {
    match lookup(top, "id"@) {
        Some(v) if value_i64(v) is Some => value_i64(v),
        _ => match lookup(props, "wof:id"@) {
            Some(v) => value_i64(v),
            None => None,
        },
    }
}

/// Why a feature cannot be exported: checked in the order object,
/// geometry, properties, id.
pub open spec fn export_error(json: Value) -> Option<ErrorView> {
    if !(json is Object) {
        Some(ErrorView::NotAnObject(kind_name(json)))
    } else {
        let top = json->Object_0@;
        match geometry_error(top) {
            Some(e) => Some(e),
            None => match lookup(top, "properties"@) {
                None => Some(ErrorView::Missing("properties"@)),
                Some(p) => if !(p is Object) {
                    Some(ErrorView::Mistyped("properties"@, kind_name(p)))
                } else if export_id(top, p->Object_0@) is None {
                    Some(ErrorView::NoId)
                } else {
                    None
                },
            },
        }
    }
}

/// What an exported property must hold.
pub enum Expected {
    /// The given value, or nothing.
    Keep(Option<Value>),
    /// A string with this text.
    Text(Seq<char>),
    /// This number.
    Num(Number),
    /// An empty list.
    EmptyList,
}

pub open spec fn holds(found: Option<Value>, e: Expected) -> bool {
    match e {
        Expected::Keep(o) => found == o,
        Expected::Text(t) => found matches Some(Value::Str(s)) && s@ == t,
        Expected::Num(n) => found == Some(Value::Number(n)),
        Expected::EmptyList => found matches Some(Value::Array(a)) && a@.len() == 0,
    }
}

/// The exported value of property `k`: measures always come from the
/// geometry; the other keys of the fixed surface keep their value or take
/// a default; any other property is kept.
pub open spec fn expected_property(
    props: Seq<(String, Value)>,
    k: Seq<char>,
    m: Measures,
    bbox: Seq<char>,
    hash: Seq<char>,
) -> Expected {
    if k == "geom:area"@ {
        Expected::Num(m.area)
    } else if k == "geom:area_square_m"@ {
        Expected::Num(m.area_m)
    } else if k == "geom:latitude"@ {
        Expected::Num(m.latitude)
    } else if k == "geom:longitude"@ {
        Expected::Num(m.longitude)
    } else if k == "geom:bbox"@ {
        Expected::Text(bbox)
    } else if lookup(props, k) is Some {
        Expected::Keep(lookup(props, k))
    } else if k == "edtf:cessation"@ || k == "edtf:inception"@ {
        Expected::Text("uuuu"@)
    } else if k == "iso:country"@ || k == "wof:country"@ || k == "src:geom"@ {
        Expected::Text(""@)
    } else if k == "mz:hierarchy_label"@ {
        Expected::Num(i64_number(1i64))
    } else if k == "mz:is_current"@ || k == "wof:parent_id"@ {
        Expected::Num(i64_number(-1i64))
    } else if k == "wof:belongsto"@ || k == "wof:breaches"@ || k == "wof:hierarchy"@ || k
        == "wof:superseded_by"@ || k == "wof:supersedes"@ || k == "wof:tags"@ {
        Expected::EmptyList
    } else if k == "wof:geomhash"@ {
        Expected::Text(hash)
    } else {
        Expected::Keep(None)
    }
}

/// The exported geometry: the source geometry's `type` and `coordinates`, nothing else.
pub open spec fn exported_geometry(source: Seq<(String, Value)>, g: Seq<(String, Value)>) -> bool {
    &&& g.len() == 2
    &&& g[0].0@ == "type"@
    &&& Some(g[0].1) == lookup(source, "type"@)
    &&& g[1].0@ == "coordinates"@
    &&& Some(g[1].1) == lookup(source, "coordinates"@)
}

/// `out` is the export of `json` with measures `m`: `id`, `type`,
/// `properties`, `geometry`, `bbox`, in this order.
pub open spec fn exported(json: Value, m: Measures, out: Value) -> bool {
    let top = json->Object_0@;
    let props_in = lookup(top, "properties"@)->0->Object_0@;
    let o = out->Object_0@;
    &&& out is Object
    &&& o.len() == 5
    &&& o[0].0@ == "id"@
    &&& o[0].1 == Value::Number(i64_number(export_id(top, props_in)->0))
    &&& o[1].0@ == "type"@
    &&& o[1].1 is Str && o[1].1->Str_0@ == "Feature"@
    &&& o[3].0@ == "geometry"@
    &&& o[3].1 is Object
    &&& exported_geometry(lookup(top, "geometry"@)->0->Object_0@, o[3].1->Object_0@)
    &&& o[4].0@ == "bbox"@
    &&& o[4].1 is Array
    &&& o[4].1->Array_0@ == export_bbox(o[3].1->Object_0@).map_values(|n: Number| Value::Number(n))
    &&& o[2].0@ == "properties"@
    &&& o[2].1 is Object
    &&& forall|k: Seq<char>|
        holds(
            #[trigger] lookup(o[2].1->Object_0@, k),
            expected_property(
                props_in,
                k,
                m,
                bbox_text(export_bbox(o[3].1->Object_0@)),
                md5_hex(compact_text(o[3].1)),
            ),
        )
}

fn missing(key: &str) -> (r: WofError)
    ensures
        r@ == ErrorView::Missing(key@),
{
    WofError::Missing(key.to_string())
}

fn mistyped(key: &str, v: &Value) -> (r: WofError)
    ensures
        r@ == ErrorView::Mistyped(key@, kind_name(*v)),
{
    WofError::Mistyped(key.to_string(), v.type_as_string().to_string())
}

/// Takes the geometry out of the entries of a feature and checks it; the
/// other keys keep their values.
fn take_geometry(entries: &mut Vec<(String, Value)>) -> (r: Result<JsonObject, WofError>)
    ensures
        r is Err <==> geometry_error(old(entries)@) is Some,
        r matches Err(e) ==> geometry_error(old(entries)@) == Some(e@),
        r matches Ok(g) ==> exported_geometry(
            lookup(old(entries)@, "geometry"@)->0->Object_0@,
            g@,
        ),
        r is Ok ==> forall|k: Seq<char>|
            k != "geometry"@ ==> #[trigger] lookup(final(entries)@, k) == lookup(old(entries)@, k),
{
    let ghost top = entries@;
    let gi = find_key(entries, "geometry");
    proof {
        lemma_first_index(top, "geometry"@);
    }
    if gi == entries.len() {
        return Err(missing("geometry"));
    }
    let (_gk, gv) = entries.remove(gi);
    assert forall|k: Seq<char>| k != "geometry"@ implies #[trigger] lookup(entries@, k) == lookup(
        top,
        k,
    ) by {
        lemma_lookup_remove(top, gi as int, k);
    }
    let mut ge = match gv {
        Value::Object(ge) => ge,
        other => {
            return Err(mistyped("geometry", &other));
        },
    };
    let ghost source = ge@;
    assert(source == lookup(top, "geometry"@)->0->Object_0@);
    proof {
        lemma_first_index(source, "coordinates"@);
        lemma_first_index(source, "type"@);
    }
    let ci = find_key(&ge, "coordinates");
    if ci == ge.len() {
        return Err(missing("coordinates"));
    }
    let ti = find_key(&ge, "type");
    if ti == ge.len() {
        return Err(missing("type"));
    }
    match &ge[ci].1 {
        Value::Array(_) => {},
        other => {
            return Err(mistyped("coordinates", other));
        },
    }
    let t: String = match &ge[ti].1 {
        Value::Str(t) => t.clone(),
        other => {
            return Err(mistyped("type", other));
        },
    };
    let depth = match depth_of(t.as_str()) {
        Some(d) => d,
        None => {
            return Err(WofError::UnsupportedGeometry(t));
        },
    };
    if !check_shape(&ge[ci].1, depth) {
        return Err(WofError::MalformedCoordinates(t));
    }
    let (_ck, coords) = ge.remove(ci);
    let g: JsonObject = vec![("type".to_string(), Value::Str(t)), ("coordinates".to_string(), coords)];
    Ok(g)
}

/// Fills the fixed property surface (see `expected_property`).
fn fill_properties(props: &mut JsonObject, m: &Measures, bbox: &str, hash: &str)
    ensures
        forall|k: Seq<char>|
            holds(
                #[trigger] lookup(final(props)@, k),
                expected_property(old(props)@, k, *m, bbox@, hash@),
            ),
{
    let ghost start = props@;
    set_default(props, "edtf:cessation", Value::Str("uuuu".to_string()));
    set_default(props, "edtf:inception", Value::Str("uuuu".to_string()));
    set_default(props, "iso:country", Value::Str("".to_string()));
    set_default(props, "mz:hierarchy_label", Value::Number(Number::from_i64(1)));
    set_default(props, "mz:is_current", Value::Number(Number::from_i64(-1)));
    set_default(props, "src:geom", Value::Str("".to_string()));
    set_default(props, "wof:belongsto", Value::Array(Vec::new()));
    set_default(props, "wof:breaches", Value::Array(Vec::new()));
    set_default(props, "wof:country", Value::Str("".to_string()));
    set_default(props, "wof:hierarchy", Value::Array(Vec::new()));
    set_default(props, "wof:parent_id", Value::Number(Number::from_i64(-1)));
    set_default(props, "wof:superseded_by", Value::Array(Vec::new()));
    set_default(props, "wof:supersedes", Value::Array(Vec::new()));
    set_default(props, "wof:tags", Value::Array(Vec::new()));
    set_value(props, "geom:area", Value::Number(m.area));
    set_value(props, "geom:area_square_m", Value::Number(m.area_m));
    set_value(props, "geom:bbox", Value::Str(bbox.to_string()));
    set_value(props, "geom:latitude", Value::Number(m.latitude));
    set_value(props, "geom:longitude", Value::Number(m.longitude));
    set_default(props, "wof:geomhash", Value::Str(hash.to_string()));
    assert forall|k: Seq<char>|
        holds(
            #[trigger] lookup(props@, k),
            expected_property(start, k, *m, bbox@, hash@),
        ) by {
        reveal_strlit("uuuu");
        reveal_strlit("");
        reveal_strlit("edtf:cessation");
        reveal_strlit("edtf:inception");
        reveal_strlit("iso:country");
        reveal_strlit("mz:hierarchy_label");
        reveal_strlit("mz:is_current");
        reveal_strlit("src:geom");
        reveal_strlit("wof:belongsto");
        reveal_strlit("wof:breaches");
        reveal_strlit("wof:country");
        reveal_strlit("wof:hierarchy");
        reveal_strlit("wof:parent_id");
        reveal_strlit("wof:superseded_by");
        reveal_strlit("wof:supersedes");
        reveal_strlit("wof:tags");
        reveal_strlit("geom:area");
        reveal_strlit("geom:area_square_m");
        reveal_strlit("geom:bbox");
        reveal_strlit("geom:latitude");
        reveal_strlit("geom:longitude");
        reveal_strlit("wof:geomhash");
        assert("edtf:cessation"@.len() == 14);
        assert("edtf:inception"@.len() == 14);
        assert("iso:country"@.len() == 11);
        assert("mz:hierarchy_label"@.len() == 18);
        assert("mz:is_current"@.len() == 13);
        assert("src:geom"@.len() == 8);
        assert("wof:belongsto"@.len() == 13);
        assert("wof:breaches"@.len() == 12);
        assert("wof:country"@.len() == 11);
        assert("wof:hierarchy"@.len() == 13);
        assert("wof:parent_id"@.len() == 13);
        assert("wof:superseded_by"@.len() == 17);
        assert("wof:supersedes"@.len() == 14);
        assert("wof:tags"@.len() == 8);
        assert("geom:area"@.len() == 9);
        assert("geom:area_square_m"@.len() == 18);
        assert("geom:bbox"@.len() == 9);
        assert("geom:latitude"@.len() == 13);
        assert("geom:longitude"@.len() == 14);
        assert("wof:geomhash"@.len() == 12);
        assert("edtf:cessation"@[0] == 'e');
        assert("edtf:cessation"@[5] == 'c');
        assert("edtf:inception"@[0] == 'e');
        assert("edtf:inception"@[5] == 'i');
        assert("geom:area"@[5] == 'a');
        assert("geom:area_square_m"@[0] == 'g');
        assert("geom:bbox"@[5] == 'b');
        assert("geom:latitude"@[0] == 'g');
        assert("geom:longitude"@[0] == 'g');
        assert("iso:country"@[0] == 'i');
        assert("mz:hierarchy_label"@[0] == 'm');
        assert("mz:is_current"@[0] == 'm');
        assert("src:geom"@[0] == 's');
        assert("wof:belongsto"@[0] == 'w');
        assert("wof:belongsto"@[4] == 'b');
        assert("wof:breaches"@[4] == 'b');
        assert("wof:country"@[0] == 'w');
        assert("wof:geomhash"@[4] == 'g');
        assert("wof:hierarchy"@[0] == 'w');
        assert("wof:hierarchy"@[4] == 'h');
        assert("wof:parent_id"@[0] == 'w');
        assert("wof:parent_id"@[4] == 'p');
        assert("wof:supersedes"@[0] == 'w');
        assert("wof:tags"@[0] == 'w');
    }
}

/// The `geom:bbox` text of a box.
fn bbox_string(b: &Vec<Number>) -> (r: String)
    requires
        b@.len() == 4,
    ensures
        r@ == bbox_text(b@),
{
    let mut out: Vec<char> = Vec::new();
    push_decimal(&mut out, b[0].positive, b[0].mantissa, b[0].exponent, true);
    out.push(',');
    push_decimal(&mut out, b[1].positive, b[1].mantissa, b[1].exponent, true);
    out.push(',');
    push_decimal(&mut out, b[2].positive, b[2].mantissa, b[2].exponent, true);
    out.push(',');
    push_decimal(&mut out, b[3].positive, b[3].mantissa, b[3].exponent, true);
    assert(out@ =~= bbox_text(b@));
    string_of(&out)
}

/// Exports a feature as a WOF document (see `exported`); the error names
/// the first key at fault, or the unsupported geometry type.
pub fn export_json_value(json: Value, m: &Measures) -> (r: Result<Value, WofError>)
    ensures
        r is Err <==> export_error(json) is Some,
        r matches Err(e) ==> export_error(json) == Some(e@),
        r matches Ok(out) ==> exported(json, *m, out),
{
    let mut entries = match json {
        Value::Object(entries) => entries,
        other => {
            return Err(WofError::NotAnObject(other.type_as_string().to_string()));
        },
    };
    let ghost top = entries@;
    let geometry = match take_geometry(&mut entries) {
        Ok(g) => g,
        Err(e) => {
            return Err(e);
        },
    };
    let ghost rest = entries@;
    proof {
        reveal_strlit("geometry");
        reveal_strlit("properties");
        reveal_strlit("id");
        assert("properties"@.len() == 10);
        assert("geometry"@.len() == 8);
        assert("id"@.len() == 2);
        assert("properties"@ != "geometry"@);
        assert("id"@ != "geometry"@);
        assert(lookup(rest, "properties"@) == lookup(top, "properties"@));
        assert(lookup(rest, "id"@) == lookup(top, "id"@));
    }
    let pi = find_key(&entries, "properties");
    proof {
        lemma_first_index(rest, "properties"@);
    }
    if pi == entries.len() {
        return Err(missing("properties"));
    }
    let (_pk, pv) = entries.remove(pi);
    proof {
        lemma_lookup_remove(rest, pi as int, "id"@);
    }
    let mut props = match pv {
        Value::Object(p) => p,
        other => {
            return Err(mistyped("properties", &other));
        },
    };
    let ghost props_in = props@;
    let top_id = match get_entry(&entries, "id") {
        Some(v) => v.as_i64(),
        None => None,
    };
    let id = match top_id {
        Some(i) => i,
        None => match get_entry(&props, "wof:id") {
            Some(v) => match v.as_i64() {
                Some(i) => i,
                None => {
                    return Err(WofError::NoId);
                },
            },
            None => {
                return Err(WofError::NoId);
            },
        },
    };
    let raw = compute_bbox(&geometry);
    let mut bbox: Vec<Number> = Vec::new();
    let mut bbox_values: Vec<Value> = Vec::new();
    let mut i: usize = 0;
    while i < raw.len()
        invariant
            i <= raw@.len(),
            raw@ == geometry_bbox(geometry@),
            bbox@ == raw@.take(i as int).map_values(|n: Number| normalized(n)),
            bbox_values@ == bbox@.map_values(|n: Number| Value::Number(n)),
        decreases raw@.len() - i,
    {
        let n = normalize(raw[i]);
        bbox.push(n);
        bbox_values.push(Value::Number(n));
        assert(raw@.take(i + 1) =~= raw@.take(i as int).push(raw@[i as int]));
        assert(bbox@ =~= raw@.take(i + 1).map_values(|n: Number| normalized(n)));
        assert(bbox_values@ =~= bbox@.map_values(|n: Number| Value::Number(n)));
        i = i + 1;
    }
    assert(raw@.take(raw@.len() as int) =~= raw@);
    proof {
        crate::geometry::lemma_bbox_ordered(geometry@);
    }
    let bbox_str = bbox_string(&bbox);
    let mut text = String::new();
    object_to_writer(&geometry, &mut text);
    let hash = md5_of(text.as_str());
    fill_properties(&mut props, m, bbox_str.as_str(), hash.as_str());
    let out = Value::Object(
        vec![
            ("id".to_string(), Value::Number(Number::from_i64(id))),
            ("type".to_string(), Value::Str("Feature".to_string())),
            ("properties".to_string(), Value::Object(props)),
            ("geometry".to_string(), Value::Object(geometry)),
            ("bbox".to_string(), Value::Array(bbox_values)),
        ],
    );
    Ok(out)
}

} // verus!
