use wof::error::WofError;
use wof::value::{Value, Number};
use wof::storage::{rows_for, SQLiteOpts};
use wof::{WOFGeoJSON, WofName};

fn obj(entries: Vec<(&str, Value)>) -> Value {
    Value::Object(entries.into_iter().map(|(k, v)| (k.to_string(), v)).collect())
}

fn s(x: &str) -> Value {
    Value::Str(x.to_string())
}

fn integer(n: i64) -> Value {
    Value::Number(Number::from_i64(n))
}

fn feature(props: Vec<(&str, Value)>) -> Value {
    obj(vec![
        ("type", s("Feature")),
        ("properties", obj(props)),
        ("geometry", obj(vec![("coordinates", Value::Array(vec![integer(0), integer(0)])), ("type", s("Point"))])),
        ("bbox", Value::Array(vec![integer(0), integer(0), integer(0), integer(0)])),
        ("id", integer(101748927)),
    ])
}

#[test]
fn as_valid_wof_geojson() {
    let json = feature(vec![
        ("name:fra_x_preferred", Value::Array(vec![s("Ajaccio")])),
        ("wof:id", integer(101748927)),
        ("wof:lang", Value::Array(vec![s("fre")])),
        ("name:eng_x_preferred", Value::Array(vec![s("Ajaccio")])),
    ]);
    let wof_obj = WOFGeoJSON::as_valid_wof_geojson(&json);
    assert!(wof_obj.is_ok());
    let wof_obj = wof_obj.unwrap();
    assert_eq!(wof_obj.id, 101748927);
    assert_eq!(wof_obj.kind, "Feature");
}

#[test]
fn wrong_geojson() {
    assert!(WOFGeoJSON::as_valid_wof_geojson(&obj(vec![])).is_err());
    assert!(WOFGeoJSON::as_valid_wof_geojson(&obj(vec![("id", integer(0))])).is_err());
}

fn without(key: &str) -> Value {
    match feature(vec![]) {
        Value::Object(entries) => Value::Object(entries.into_iter().filter(|(k, _)| k != key).collect()),
        other => other,
    }
}

#[test]
fn missing_keys_are_named() {
    for key in ["properties", "bbox", "geometry", "id", "type"] {
        let doc = without(key);
        let err = WOFGeoJSON::as_valid_wof_geojson(&doc).unwrap_err();
        assert_eq!(err, WofError::Missing(key.to_string()));
        assert!(err.message().contains(key));
    }
    let not_object = Value::Array(vec![]);
    assert_eq!(
        WOFGeoJSON::as_valid_wof_geojson(&not_object).unwrap_err(),
        WofError::NotAnObject("Array".to_string())
    );
}

#[test]
fn mistyped_id_is_named() {
    let doc = obj(vec![
        ("type", s("Feature")),
        ("properties", obj(vec![])),
        ("geometry", obj(vec![])),
        ("bbox", Value::Array(vec![])),
        ("id", s("12")),
    ]);
    assert_eq!(
        WOFGeoJSON::as_valid_wof_geojson(&doc).unwrap_err(),
        WofError::Mistyped("id".to_string(), "String".to_string())
    );
}

#[test]
fn names_ancestors_concordances() {
    let json = feature(vec![
        ("name:fra_x_preferred", Value::Array(vec![s("Ajaccio"), integer(3), s("Aiacciu")])),
        ("name:cos_x_variant", s("not a list")),
        ("name:zho_Hant_HK_x_preferred", Value::Array(vec![s("X")])),
        ("wof:placetype", s("locality")),
        (
            "wof:hierarchy",
            Value::Array(vec![obj(vec![
                ("country_id", integer(85633147)),
                ("locality_id", integer(101748927)),
                ("macro_region_id", integer(5)),
                ("region", integer(9)),
            ])]),
        ),
        ("wof:concordances", obj(vec![("gn:id", integer(2)), ("wd:id", s("Q40104"))])),
        ("wof:belongsto", Value::Array(vec![integer(1), s("2"), integer(3)])),
    ]);
    let doc = WOFGeoJSON::as_valid_wof_geojson(&json).unwrap();
    assert_eq!(
        doc.get_names(),
        vec![
            WofName { lang: "fra".into(), extlang: None, variant: "x_preferred".into(), value: "Ajaccio".into() },
            WofName { lang: "fra".into(), extlang: None, variant: "x_preferred".into(), value: "Aiacciu".into() },
            WofName {
                lang: "zho".into(),
                extlang: Some("Hant_HK".into()),
                variant: "x_preferred".into(),
                value: "X".into()
            },
        ]
    );
    assert_eq!(
        doc.get_ancestors(),
        vec![(85633147, "country".to_string()), (101748927, "locality".to_string()), (5, "region".to_string())]
    );
    assert_eq!(doc.get_concordances(), vec![(2, "gn:id".to_string())]);
    assert_eq!(doc.get_belongs_to(), vec![1, 3]);
    assert_eq!(doc.get_placetype(), "locality");
    assert_eq!(doc.get_source(), "unknown");
    assert_eq!(doc.get_last_modified(), -1);
}

#[test]
fn flags() {
    let json = feature(vec![
        ("edtf:deprecated", s("uuuu")),
        ("wof:superseded_by", Value::Array(vec![integer(1)])),
        ("wof:supersedes", Value::Array(vec![])),
        ("wof:cessation", s("2019-01-01")),
        ("lastmodified", integer(0)),
        ("src:alt_label", s("quattroshapes_pg")),
    ]);
    let doc = WOFGeoJSON::as_valid_wof_geojson(&json).unwrap();
    assert!(!doc.is_deprecated());
    assert!(doc.is_superseded());
    assert!(!doc.is_superseding());
    assert!(doc.is_ceased());
    assert!(!doc.is_current());
    assert!(doc.is_doc_deprecated());
    assert!(doc.is_alt_geom());
}

#[test]
fn deprecated_documents_are_skipped_unless_asked() {
    let json = feature(vec![("wof:superseded_by", Value::Array(vec![integer(1)]))]);
    let doc = WOFGeoJSON::as_valid_wof_geojson(&json).unwrap();
    let mut opts = SQLiteOpts::default();
    opts.deprecated = false;
    let rows = rows_for(&doc, &opts);
    assert!(rows.geojson.is_none() && rows.spr.is_none() && rows.names.is_empty());
    let rows = rows_for(&doc, &SQLiteOpts::default());
    assert!(rows.geojson.is_some() && rows.spr.is_some());
}

#[test]
fn alt_geometries_skip_only_the_geojson_table() {
    let json = feature(vec![
        ("src:alt_label", s("quattroshapes_pg")),
        ("name:fra_x_preferred", Value::Array(vec![s("Ajaccio")])),
    ]);
    let doc = WOFGeoJSON::as_valid_wof_geojson(&json).unwrap();
    let mut opts = SQLiteOpts::default();
    opts.alt = false;
    let rows = rows_for(&doc, &opts);
    assert!(rows.geojson.is_none());
    assert!(rows.spr.is_some());
    assert_eq!(rows.names.len(), 1);
}

#[test]
fn writing_twice_gives_the_same_rows() {
    let json = feature(vec![
        ("name:fra_x_preferred", Value::Array(vec![s("Ajaccio")])),
        ("wof:hierarchy", Value::Array(vec![obj(vec![("locality_id", integer(101748927))])])),
    ]);
    let doc = WOFGeoJSON::as_valid_wof_geojson(&json).unwrap();
    let opts = SQLiteOpts::default();
    let first = rows_for(&doc, &opts);
    let second = rows_for(&doc, &opts);
    assert_eq!(first, second);
    assert_eq!(first.ancestors.len(), 1);
    assert_eq!(first.ancestors[0].ancestor_placetype, "locality");
    let body = first.geojson.unwrap().body;
    assert!(body.starts_with("{\n  \"id\": 101748927,\n  \"type\": \"Feature\""));
}

#[test]
fn read_filter_follows_the_options() {
    let mut opts = SQLiteOpts::default();
    let all = wof::storage::read_filter(&opts);
    assert!(all.selects(true, true));
    opts.alt = false;
    opts.deprecated = false;
    let strict = wof::storage::read_filter(&opts);
    assert!(!strict.selects(true, false));
    assert!(!strict.selects(false, true));
    assert!(strict.selects(false, false));
}

#[test]
fn declared_centroid_is_used_unless_zero() {
    let json = feature(vec![("wof:latitude", integer(42)), ("wof:longitude", integer(0))]);
    let doc = WOFGeoJSON::as_valid_wof_geojson(&json).unwrap();
    let spr = rows_for(&doc, &SQLiteOpts::default()).spr.unwrap();
    assert_eq!(spr.declared_latitude, Some(Number::from_i64(42)));
    assert_eq!(spr.declared_longitude, None);
}
