//! The rows that one document gives in the five tables of a WOF store
//! (`geojson`, `spr`, `names`, `ancestors`, `concordances`), and a model of
//! those tables in which every write replaces the row of the same natural key.

use crate::value::{get_entry, Number, Value};
use crate::keys::opt_view;
use crate::ser::{compact_text, pretty_text};
use crate::wof::{
    flag_value, i32_or, name_view, names_in, names_view, pairs_view, text_or, WOFGeoJSON, WofName,
    concordance_pairs, hierarchy_ancestors,
};
use vstd::prelude::*;

verus! {

/// Options of a store; by default every table is written and nothing is skipped.
#[derive(Debug, Clone, Copy, PartialEq, Eq, Structural)]
pub struct SQLiteOpts {
    /// Write pretty documents in the geojson table.
    pub pretty: bool,
    /// Also write deprecated, superseded and non-current documents.
    pub deprecated: bool,
    /// Write the geojson table.
    pub geojson: bool,
    /// Write the spr table.
    pub spr: bool,
    /// Write the names table.
    pub names: bool,
    /// Write the ancestors table.
    pub ancestors: bool,
    /// Write the concordances table.
    pub concordances: bool,
    /// Write alternate geometries in the geojson table.
    pub alt: bool,
}

impl Default for SQLiteOpts {
    fn default() -> (r: Self)
        ensures
            r == (SQLiteOpts {
                pretty: true,
                deprecated: true,
                geojson: true,
                spr: true,
                names: true,
                ancestors: true,
                concordances: true,
                alt: true,
            }),
    {
        SQLiteOpts {
            pretty: true,
            deprecated: true,
            geojson: true,
            spr: true,
            names: true,
            ancestors: true,
            concordances: true,
            alt: true,
        }
    }
}

/// A row of the geojson table, keyed by (id, source).
#[derive(Debug, PartialEq)]
pub struct GeojsonRow {
    pub id: i32,
    pub body: String,
    pub source: String,
    pub is_alt: bool,
    pub lastmodified: i32,
}

/// A row of the spr table, keyed by id. The centroid columns are filled by the writer.
#[derive(Debug, PartialEq)]
pub struct SprRow {
    pub id: i32,
    pub parent_id: i32,
    pub name: String,
    pub placetype: String,
    pub country: String,
    pub repo: String,
    /// `wof:latitude` when it is a non-zero number; otherwise the writer
    /// takes the middle of the bounding box.
    pub declared_latitude: Option<Number>,
    /// `wof:longitude` when it is a non-zero number, as above.
    pub declared_longitude: Option<Number>,
    pub min_latitude: Number,
    pub min_longitude: Number,
    pub max_latitude: Number,
    pub max_longitude: Number,
    pub is_current: i32,
    pub is_deprecated: i32,
    pub is_ceased: i32,
    pub is_superseded: i32,
    pub is_superseding: i32,
    pub superseded_by: String,
    pub supersedes: String,
    pub lastmodified: i32,
}

/// A row of the names table.
#[derive(Debug, PartialEq)]
pub struct NameRow {
    pub id: i32,
    pub placetype: String,
    pub country: String,
    pub language: String,
    pub extlang: Option<String>,
    pub privateuse: String,
    pub name: String,
    pub lastmodified: i32,
}

/// A row of the ancestors table.
#[derive(Debug, PartialEq)]
pub struct AncestorRow {
    pub id: i32,
    pub ancestor_id: i32,
    pub ancestor_placetype: String,
    pub lastmodified: i32,
}

/// A row of the concordances table.
#[derive(Debug, PartialEq)]
pub struct ConcordanceRow {
    pub id: i32,
    pub other_id: i32,
    pub other_source: String,
    pub lastmodified: i32,
}

/// The rows that one document gives.
#[derive(Debug, PartialEq)]
pub struct Rows {
    pub geojson: Option<GeojsonRow>,
    pub spr: Option<SprRow>,
    pub names: Vec<NameRow>,
    pub ancestors: Vec<AncestorRow>,
    pub concordances: Vec<ConcordanceRow>,
}

pub struct GeojsonView {
    pub id: i32,
    pub body: Seq<char>,
    pub source: Seq<char>,
    pub is_alt: bool,
    pub lastmodified: i32,
}

pub struct SprView {
    pub id: i32,
    pub parent_id: i32,
    pub name: Seq<char>,
    pub placetype: Seq<char>,
    pub country: Seq<char>,
    pub repo: Seq<char>,
    pub declared_latitude: Option<Number>,
    pub declared_longitude: Option<Number>,
    pub min_latitude: Number,
    pub min_longitude: Number,
    pub max_latitude: Number,
    pub max_longitude: Number,
    pub is_current: i32,
    pub is_deprecated: i32,
    pub is_ceased: i32,
    pub is_superseded: i32,
    pub is_superseding: i32,
    pub superseded_by: Seq<char>,
    pub supersedes: Seq<char>,
    pub lastmodified: i32,
}

pub struct NameRowView {
    pub id: i32,
    pub placetype: Seq<char>,
    pub country: Seq<char>,
    pub language: Seq<char>,
    pub extlang: Option<Seq<char>>,
    pub privateuse: Seq<char>,
    pub name: Seq<char>,
    pub lastmodified: i32,
}

pub struct RowsView {
    pub geojson: Option<GeojsonView>,
    pub spr: Option<SprView>,
    pub names: Seq<NameRowView>,
    pub ancestors: Seq<(i32, i32, Seq<char>, i32)>,
    pub concordances: Seq<(i32, i32, Seq<char>, i32)>,
}

impl View for Rows {
    type V = RowsView;

    open spec fn view(&self) -> RowsView {
        RowsView {
            geojson: match self.geojson {
                Some(g) => Some(
                    GeojsonView {
                        id: g.id,
                        body: g.body@,
                        source: g.source@,
                        is_alt: g.is_alt,
                        lastmodified: g.lastmodified,
                    },
                ),
                None => None,
            },
            spr: match self.spr {
                Some(s) => Some(spr_view(s)),
                None => None,
            },
            names: self.names@.map_values(|n: NameRow| name_row_view(n)),
            ancestors: self.ancestors@.map_values(
                |a: AncestorRow| (a.id, a.ancestor_id, a.ancestor_placetype@, a.lastmodified),
            ),
            concordances: self.concordances@.map_values(
                |c: ConcordanceRow| (c.id, c.other_id, c.other_source@, c.lastmodified),
            ),
        }
    }
}

pub open spec fn spr_view(s: SprRow) -> SprView {
    SprView {
        id: s.id,
        parent_id: s.parent_id,
        name: s.name@,
        placetype: s.placetype@,
        country: s.country@,
        repo: s.repo@,
        declared_latitude: s.declared_latitude,
        declared_longitude: s.declared_longitude,
        min_latitude: s.min_latitude,
        min_longitude: s.min_longitude,
        max_latitude: s.max_latitude,
        max_longitude: s.max_longitude,
        is_current: s.is_current,
        is_deprecated: s.is_deprecated,
        is_ceased: s.is_ceased,
        is_superseded: s.is_superseded,
        is_superseding: s.is_superseding,
        superseded_by: s.superseded_by@,
        supersedes: s.supersedes@,
        lastmodified: s.lastmodified,
    }
}

pub open spec fn name_row_view(n: NameRow) -> NameRowView {
    NameRowView {
        id: n.id,
        placetype: n.placetype@,
        country: n.country@,
        language: n.language@,
        extlang: opt_view(n.extlang),
        privateuse: n.privateuse@,
        name: n.name@,
        lastmodified: n.lastmodified,
    }
}

pub open spec fn flag_int(b: bool) -> i32 {
    if b {
        1
    } else {
        0
    }
}

/// Deprecated, superseded or not current (see `WOFGeoJSON::is_doc_deprecated`).
pub open spec fn doc_deprecated(d: WOFGeoJSON) -> bool {
    flag_value(d.prop("edtf:deprecated"@)) || flag_value(d.prop("wof:superseded_by"@)) || i32_or(
        d.prop("lastmodified"@),
        -1i32,
    ) == 0
}

pub open spec fn last_modified(d: WOFGeoJSON) -> i32 {
    i32_or(d.prop("lastmodified"@), i32_or(d.prop("wof:lastmodified"@), -1i32))
}

pub open spec fn placetype(d: WOFGeoJSON) -> Seq<char> {
    text_or(d.prop("placetype"@), text_or(d.prop("wof:placetype"@), ""@))
}

/// A declared coordinate: a number other than zero.
pub open spec fn declared(v: Option<Value>) -> Option<Number> {
    match v {
        Some(Value::Number(n)) => if n.mantissa != 0 && !n.nan {
            Some(n)
        } else {
            None
        },
        _ => None,
    }
}

/// The summary row of a document.
pub open spec fn spr_of(d: WOFGeoJSON) -> SprView {
    SprView {
        id: d.id,
        parent_id: i32_or(d.prop("wof:parent_id"@), -1i32),
        name: text_or(d.prop("wof:name"@), text_or(d.prop("name"@), ""@)),
        placetype: placetype(d),
        country: text_or(d.prop("wof:country"@), ""@),
        repo: text_or(d.prop("wof:repo"@), ""@),
        declared_latitude: declared(d.prop("wof:latitude"@)),
        declared_longitude: declared(d.prop("wof:longitude"@)),
        min_latitude: d.bbox_at(1),
        min_longitude: d.bbox_at(0),
        max_latitude: d.bbox_at(3),
        max_longitude: d.bbox_at(2),
        is_current: flag_int(i32_or(d.prop("lastmodified"@), -1i32) != 0),
        is_deprecated: flag_int(flag_value(d.prop("edtf:deprecated"@))),
        is_ceased: flag_int(flag_value(d.prop("wof:cessation"@))),
        is_superseded: flag_int(flag_value(d.prop("wof:superseded_by"@))),
        is_superseding: flag_int(flag_value(d.prop("wof:supersedes"@))),
        superseded_by: Seq::empty(),
        supersedes: Seq::empty(),
        lastmodified: last_modified(d),
    }
}

/// The ancestors of a document (see `WOFGeoJSON::get_ancestors`).
pub open spec fn ancestors_of(d: WOFGeoJSON) -> Seq<(i32, Seq<char>)> {
    match d.prop("wof:hierarchy"@) {
        Some(Value::Array(items)) => hierarchy_ancestors(items@),
        _ => Seq::empty(),
    }
}

/// The concordances of a document (see `WOFGeoJSON::get_concordances`).
pub open spec fn concordances_of(d: WOFGeoJSON) -> Seq<(i32, Seq<char>)> {
    match d.prop("wof:concordances"@) {
        Some(Value::Object(entries)) => concordance_pairs(entries@),
        _ => Seq::empty(),
    }
}

/// The rows of `d` under `opts`: nothing for a deprecated document unless
/// `opts.deprecated`; the geojson row is skipped for an alternate geometry
/// unless `opts.alt` (the other tables are written for it all the same).
pub open spec fn rows_of(d: WOFGeoJSON, opts: SQLiteOpts) -> RowsView {
    let skip = !opts.deprecated && doc_deprecated(d);
    let lm = last_modified(d);
    let is_alt = d.prop("src:alt_label"@) is Some;
    RowsView {
        geojson: if skip || !opts.geojson || (is_alt && !opts.alt) {
            None
        } else {
            Some(
                GeojsonView {
                    id: d.id,
                    body: if opts.pretty {
                        pretty_text(Value::Object(*d.json))
                    } else {
                        compact_text(Value::Object(*d.json))
                    },
                    source: text_or(d.prop("src:geom"@), "unknown"@),
                    is_alt,
                    lastmodified: lm,
                },
            )
        },
        spr: if skip || !opts.spr {
            None
        } else {
            Some(spr_of(d))
        },
        names: if skip || !opts.names {
            Seq::empty()
        } else {
            names_in(d.properties@).map_values(
                |n: (Seq<char>, Option<Seq<char>>, Seq<char>, Seq<char>)|
                    NameRowView {
                        id: d.id,
                        placetype: placetype(d),
                        country: text_or(d.prop("wof:country"@), ""@),
                        language: n.0,
                        extlang: n.1,
                        privateuse: n.2,
                        name: n.3,
                        lastmodified: lm,
                    },
            )
        },
        ancestors: if skip || !opts.ancestors {
            Seq::empty()
        } else {
            ancestors_of(d).map_values(|a: (i32, Seq<char>)| (d.id, a.0, a.1, lm))
        },
        concordances: if skip || !opts.concordances {
            Seq::empty()
        } else {
            concordances_of(d).map_values(|c: (i32, Seq<char>)| (d.id, c.0, c.1, lm))
        },
    }
}

/// The contents of the five tables. A table keyed by a natural key holds one
/// row per key; the others hold each distinct row once.
pub struct Store {
    pub geojson: Map<(i32, Seq<char>), GeojsonView>,
    pub spr: Map<i32, SprView>,
    pub names: Set<NameRowView>,
    pub ancestors: Set<(i32, i32, Seq<char>, i32)>,
    pub concordances: Set<(i32, i32, Seq<char>, i32)>,
}

/// The store after writing `rows`: each row replaces the row with its key.
pub open spec fn write_rows(s: Store, rows: RowsView) -> Store {
    Store {
        geojson: match rows.geojson {
            Some(g) => s.geojson.insert((g.id, g.source), g),
            None => s.geojson,
        },
        spr: match rows.spr {
            Some(r) => s.spr.insert(r.id, r),
            None => s.spr,
        },
        names: s.names + rows.names.to_set(),
        ancestors: s.ancestors + rows.ancestors.to_set(),
        concordances: s.concordances + rows.concordances.to_set(),
    }
}

/// Writing the same document twice with the same options leaves every table
/// as one write does: one row per natural key, nothing duplicated.
pub proof fn lemma_write_idempotent(s: Store, d: WOFGeoJSON, opts: SQLiteOpts)
    ensures
        write_rows(write_rows(s, rows_of(d, opts)), rows_of(d, opts)) == write_rows(
            s,
            rows_of(d, opts),
        ),
{
    let rows = rows_of(d, opts);
    let once = write_rows(s, rows);
    let twice = write_rows(once, rows);
    assert(twice.geojson =~= once.geojson);
    assert(twice.spr =~= once.spr);
    assert(twice.names =~= once.names);
    assert(twice.ancestors =~= once.ancestors);
    assert(twice.concordances =~= once.concordances);
}

fn flag_of(b: bool) -> (r: i32)
    ensures
        r == flag_int(b),
{
    if b {
        1
    } else {
        0
    }
}

fn declared_number(doc: &WOFGeoJSON, key: &str) -> (r: Option<Number>)
    ensures
        r == declared(doc.prop(key@)),
{
    match get_entry(doc.properties, key) {
        Some(Value::Number(n)) => {
            if n.mantissa != 0 && !n.nan {
                Some(*n)
            } else {
                None
            }
        },
        _ => None,
    }
}

fn spr_row(doc: &WOFGeoJSON) -> (r: SprRow)
    ensures
        spr_view(r) == spr_of(*doc),
{
    SprRow {
        id: doc.id,
        parent_id: doc.get_parent_id(),
        name: doc.get_name(),
        placetype: doc.get_placetype(),
        country: doc.get_country(),
        repo: doc.get_repo(),
        declared_latitude: declared_number(doc, "wof:latitude"),
        declared_longitude: declared_number(doc, "wof:longitude"),
        min_latitude: doc.get_min_lat(),
        min_longitude: doc.get_min_lon(),
        max_latitude: doc.get_max_lat(),
        max_longitude: doc.get_max_lon(),
        is_current: flag_of(doc.is_current()),
        is_deprecated: flag_of(doc.is_deprecated()),
        is_ceased: flag_of(doc.is_ceased()),
        is_superseded: flag_of(doc.is_superseded()),
        is_superseding: flag_of(doc.is_superseding()),
        superseded_by: doc.get_superseded_by(),
        supersedes: doc.get_supersedes(),
        lastmodified: doc.get_last_modified(),
    }
}

fn geojson_row(doc: &WOFGeoJSON, pretty: bool) -> (r: GeojsonRow)
    ensures
        r.id == doc.id,
        r.body@ == (if pretty {
            pretty_text(Value::Object(*doc.json))
        } else {
            compact_text(Value::Object(*doc.json))
        }),
        r.source@ == text_or(doc.prop("src:geom"@), "unknown"@),
        r.is_alt == (doc.prop("src:alt_label"@) is Some),
        r.lastmodified == last_modified(*doc),
{
    let mut body = String::new();
    if pretty {
        doc.pretty(&mut body);
    } else {
        doc.dump(&mut body);
    }
    GeojsonRow {
        id: doc.id,
        body,
        source: doc.get_source(),
        is_alt: doc.is_alt_geom(),
        lastmodified: doc.get_last_modified(),
    }
}

fn name_rows(doc: &WOFGeoJSON) -> (r: Vec<NameRow>)
    ensures
        r@.map_values(|n: NameRow| name_row_view(n)) == names_in(doc.properties@).map_values(
            |n: (Seq<char>, Option<Seq<char>>, Seq<char>, Seq<char>)|
                NameRowView {
                    id: doc.id,
                    placetype: placetype(*doc),
                    country: text_or(doc.prop("wof:country"@), ""@),
                    language: n.0,
                    extlang: n.1,
                    privateuse: n.2,
                    name: n.3,
                    lastmodified: last_modified(*doc),
                },
        ),
{
    let names = doc.get_names();
    let placetype = doc.get_placetype();
    let country = doc.get_country();
    let lm = doc.get_last_modified();
    let ghost target = names_in(doc.properties@).map_values(
        |n: (Seq<char>, Option<Seq<char>>, Seq<char>, Seq<char>)|
            NameRowView {
                id: doc.id,
                placetype: placetype@,
                country: country@,
                language: n.0,
                extlang: n.1,
                privateuse: n.2,
                name: n.3,
                lastmodified: lm,
            },
    );
    let mut rows: Vec<NameRow> = Vec::new();
    let mut i: usize = 0;
    while i < names.len()
        invariant
            i <= names@.len(),
            names_view(names@) == names_in(doc.properties@),
            target.len() == names@.len(),
            target == names_in(doc.properties@).map_values(
                |n: (Seq<char>, Option<Seq<char>>, Seq<char>, Seq<char>)|
                    NameRowView {
                        id: doc.id,
                        placetype: placetype@,
                        country: country@,
                        language: n.0,
                        extlang: n.1,
                        privateuse: n.2,
                        name: n.3,
                        lastmodified: lm,
                    },
            ),
            rows@.len() == i,
            rows@.map_values(|n: NameRow| name_row_view(n)) == target.take(i as int),
        decreases names@.len() - i,
    {
        let n: &WofName = &names[i];
        let extlang = match &n.extlang {
            Some(x) => Some(x.clone()),
            None => None,
        };
        let ghost prev = rows@;
        rows.push(
            NameRow {
                id: doc.id,
                placetype: placetype.clone(),
                country: country.clone(),
                language: n.lang.clone(),
                extlang,
                privateuse: n.variant.clone(),
                name: n.value.clone(),
                lastmodified: lm,
            },
        );
        assert(names_view(names@)[i as int] == name_view(names@[i as int]));
        assert(rows@ == prev.push(rows@[i as int]));
        assert(target[i as int] == name_row_view(rows@[i as int]));
        assert(rows@.map_values(|n: NameRow| name_row_view(n)) =~= target.take(i + 1));
        i = i + 1;
    }
    assert(target.take(names@.len() as int) =~= target);
    rows
}

fn ancestor_rows(doc: &WOFGeoJSON) -> (r: Vec<AncestorRow>)
    ensures
        r@.map_values(
            |a: AncestorRow| (a.id, a.ancestor_id, a.ancestor_placetype@, a.lastmodified),
        ) == ancestors_of(*doc).map_values(
            |a: (i32, Seq<char>)| (doc.id, a.0, a.1, last_modified(*doc)),
        ),
{
    let pairs = doc.get_ancestors();
    let lm = doc.get_last_modified();
    let ghost target = ancestors_of(*doc).map_values(
        |a: (i32, Seq<char>)| (doc.id, a.0, a.1, lm),
    );
    let mut rows: Vec<AncestorRow> = Vec::new();
    let mut i: usize = 0;
    while i < pairs.len()
        invariant
            i <= pairs@.len(),
            pairs_view(pairs@) == ancestors_of(*doc),
            target == ancestors_of(*doc).map_values(|a: (i32, Seq<char>)| (doc.id, a.0, a.1, lm)),
            rows@.len() == i,
            rows@.map_values(
                |a: AncestorRow| (a.id, a.ancestor_id, a.ancestor_placetype@, a.lastmodified),
            ) == target.take(i as int),
        decreases pairs@.len() - i,
    {
        let ghost prev = rows@;
        rows.push(
            AncestorRow {
                id: doc.id,
                ancestor_id: pairs[i].0,
                ancestor_placetype: pairs[i].1.clone(),
                lastmodified: lm,
            },
        );
        assert(pairs_view(pairs@)[i as int] == (pairs@[i as int].0, pairs@[i as int].1@));
        assert(rows@ == prev.push(rows@[i as int]));
        assert(rows@.map_values(
            |a: AncestorRow| (a.id, a.ancestor_id, a.ancestor_placetype@, a.lastmodified),
        ) =~= target.take(i + 1));
        i = i + 1;
    }
    assert(target.take(pairs@.len() as int) =~= target);
    rows
}

fn concordance_rows(doc: &WOFGeoJSON) -> (r: Vec<ConcordanceRow>)
    ensures
        r@.map_values(
            |c: ConcordanceRow| (c.id, c.other_id, c.other_source@, c.lastmodified),
        ) == concordances_of(*doc).map_values(
            |c: (i32, Seq<char>)| (doc.id, c.0, c.1, last_modified(*doc)),
        ),
{
    let pairs = doc.get_concordances();
    let lm = doc.get_last_modified();
    let ghost target = concordances_of(*doc).map_values(
        |c: (i32, Seq<char>)| (doc.id, c.0, c.1, lm),
    );
    let mut rows: Vec<ConcordanceRow> = Vec::new();
    let mut i: usize = 0;
    while i < pairs.len()
        invariant
            i <= pairs@.len(),
            pairs_view(pairs@) == concordances_of(*doc),
            target == concordances_of(*doc).map_values(
                |c: (i32, Seq<char>)| (doc.id, c.0, c.1, lm),
            ),
            rows@.len() == i,
            rows@.map_values(
                |c: ConcordanceRow| (c.id, c.other_id, c.other_source@, c.lastmodified),
            ) == target.take(i as int),
        decreases pairs@.len() - i,
    {
        let ghost prev = rows@;
        rows.push(
            ConcordanceRow {
                id: doc.id,
                other_id: pairs[i].0,
                other_source: pairs[i].1.clone(),
                lastmodified: lm,
            },
        );
        assert(pairs_view(pairs@)[i as int] == (pairs@[i as int].0, pairs@[i as int].1@));
        assert(rows@ == prev.push(rows@[i as int]));
        assert(rows@.map_values(
            |c: ConcordanceRow| (c.id, c.other_id, c.other_source@, c.lastmodified),
        ) =~= target.take(i + 1));
        i = i + 1;
    }
    assert(target.take(pairs@.len() as int) =~= target);
    rows
}

/// The rows that writing `doc` under `opts` puts in each table (see `rows_of`).
pub fn rows_for(doc: &WOFGeoJSON, opts: &SQLiteOpts) -> (r: Rows)
    ensures
        r@ == rows_of(*doc, *opts),
{
    let skip = !opts.deprecated && doc.is_doc_deprecated();
    let geojson = if skip || !opts.geojson || (doc.is_alt_geom() && !opts.alt) {
        None
    } else {
        Some(geojson_row(doc, opts.pretty))
    };
    let spr = if skip || !opts.spr {
        None
    } else {
        Some(spr_row(doc))
    };
    let names = if skip || !opts.names {
        Vec::new()
    } else {
        name_rows(doc)
    };
    let ancestors = if skip || !opts.ancestors {
        Vec::new()
    } else {
        ancestor_rows(doc)
    };
    let concordances = if skip || !opts.concordances {
        Vec::new()
    } else {
        concordance_rows(doc)
    };
    let r = Rows { geojson, spr, names, ancestors, concordances };
    assert(r@.names =~= rows_of(*doc, *opts).names);
    assert(r@.ancestors =~= rows_of(*doc, *opts).ancestors);
    assert(r@.concordances =~= rows_of(*doc, *opts).concordances);
    r
}

/// Which stored documents the bulk readers return.
#[derive(Debug, Clone, Copy, PartialEq, Eq, Structural)]
pub struct ReadFilter {
    /// Leave out alternate geometries.
    pub skip_alt: bool,
    /// Leave out deprecated, superseded and non-current documents.
    pub skip_deprecated: bool,
}

/// The filter of the bulk readers: the same choices as on write.
pub fn read_filter(opts: &SQLiteOpts) -> (r: ReadFilter)
    ensures
        r.skip_alt == !opts.alt,
        r.skip_deprecated == !opts.deprecated,
{
    ReadFilter { skip_alt: !opts.alt, skip_deprecated: !opts.deprecated }
}

impl ReadFilter {
    /// Whether a stored document with these flags is returned.
    pub fn selects(&self, is_alt: bool, deprecated: bool) -> (r: bool)
        ensures
            r == (!(self.skip_alt && is_alt) && !(self.skip_deprecated && deprecated)),
    {
        !(self.skip_alt && is_alt) && !(self.skip_deprecated && deprecated)
    }
}

} // verus!
