use wof::error::WofError;
use wof::fix::Fix;
use wof::geometry::compute_bbox;
use wof::shapefile::{ShapeType, ShapefileOpts};
use wof::utils::JsonUtils;
use wof::value::{Number, Value};
use wof::{json_to_writer, parse_string_to_json, WOFGeoJSON};

fn parse(s: &str) -> Value {
    parse_string_to_json(&s.to_string()).unwrap()
}

fn compact(v: &Value) -> String {
    let mut s = String::new();
    json_to_writer(v, &mut s);
    s
}

#[test]
fn parse_keeps_decimal_parts() {
    let v = parse(r#"{"a":[100.0,1e2,-0.5,"x"],"b":true,"c":null}"#);
    let a = v.get("a").unwrap().as_array().unwrap();
    assert_eq!(a[0], Value::Number(Number::from_parts(true, 1000, -1)));
    assert_eq!(a[2], Value::Number(Number::from_parts(false, 5, -1)));
    assert_eq!(compact(&v), r#"{"a":[100,100,-0.5,"x"],"b":true,"c":null}"#);
}

#[test]
fn parse_error_is_reported() {
    match parse_string_to_json(&"{\"a\":".to_string()) {
        Err(WofError::Parse(_)) => {}
        other => panic!("unexpected {:?}", other),
    }
}

#[test]
fn compact_round_trip_is_byte_identical() {
    let text = r#"{"type":"Feature","id":101748927,"properties":{"wof:name":"Ajaccio","geom:latitude":41,"geom:area":0.00012345,"names":["a","b"]},"bbox":[8.585396,41.873571,8.826011,41.971536],"geometry":{"type":"Point","coordinates":[8.7,41.9]}}"#;
    let first = compact(&parse(text));
    let second = compact(&parse(&first));
    assert_eq!(first, second);
    let doc_source = parse(&first);
    let doc = WOFGeoJSON::as_valid_wof_geojson(&doc_source).unwrap();
    assert_eq!(doc.id, 101748927);
}

#[test]
fn fix_removes_commas_from_populations() {
    let mut v = parse(r#"{"properties":{"wof:population":"1,234,567","wof:name":"a,b","gn:pop":12}}"#);
    assert_eq!(Fix::new().fix(&mut v), Ok(true));
    assert_eq!(compact(&v), r#"{"properties":{"gn:pop":12,"wof:name":"a,b","wof:population":"1234567"}}"#);
    assert_eq!(Fix::new().fix(&mut v), Ok(false));
    let mut not_doc = parse(r#"[1]"#);
    assert!(Fix::new().fix(&mut not_doc).is_err());
    let mut no_props = parse(r#"{"id":1}"#);
    assert!(Fix::new().fix(&mut no_props).is_err());
    assert_eq!(wof::fix::fix_strigified_number(&"1,000".to_string()), Some("1000".to_string()));
    assert_eq!(wof::fix::fix_strigified_number(&"1000".to_string()), None);
}

fn bbox_text(geometry: &str) -> String {
    let g = parse(geometry);
    let b = compute_bbox(g.as_object().unwrap());
    compact(&Value::Array(b.into_iter().map(Value::Number).collect()))
}

#[test]
fn bounding_boxes() {
    assert_eq!(bbox_text(r#"{"type":"Point","coordinates":[-71.0,41.0]}"#), "[-71,41,-71,41]");
    assert_eq!(
        bbox_text(r#"{"type":"Polygon","coordinates":[[[125,-15],[144,-15],[154,-27],[113,-22],[125,-15]],[[0,0],[500,500],[0,0]]]}"#),
        "[113,-27,154,-15]"
    );
    assert_eq!(
        bbox_text(r#"{"type":"MultiPolygon","coordinates":[[[[102,2],[103,2],[103,3],[102,3],[102,2]]],[[[100,0],[101,0],[101,1],[100,1],[100,0]],[[100.2,0.2],[100.8,0.2],[100.8,0.8],[100.2,0.8],[100.2,0.2]]]]}"#),
        "[100,0,103,3]"
    );
    assert_eq!(bbox_text(r#"{"type":"LineString","coordinates":[[1.5,-2],[-1e1,3.25]]}"#), "[-10,-2,1.5,3.25]");
    assert_eq!(bbox_text(r#"{"type":"GeometryCollection","coordinates":[]}"#), "[0,0,0,0]");
    assert_eq!(bbox_text(r#"{"type":"Polygon","coordinates":[]}"#), "[0,0,0,0]");
}

#[test]
fn shapefile_accepts_by_shape_type() {
    let text = r#"{"id":1,"type":"Feature","properties":{},"bbox":[],"geometry":{"type":"MultiPolygon","coordinates":[]}}"#;
    let v = parse(text);
    let doc = WOFGeoJSON::as_valid_wof_geojson(&v).unwrap();
    let polygons = ShapefileOpts { deprecated: false, shapetype: ShapeType::Polygon };
    let points = ShapefileOpts { deprecated: false, shapetype: ShapeType::Point };
    assert_eq!(polygons.accepts(&doc), Ok(true));
    assert_eq!(points.accepts(&doc), Ok(false));
    let v = parse(r#"{"id":1,"type":"Feature","properties":{},"bbox":[],"geometry":{"type":"MultiPoint"}}"#);
    let doc = WOFGeoJSON::as_valid_wof_geojson(&v).unwrap();
    assert!(points.accepts(&doc).is_err());
}

#[test]
fn overlong_fraction_is_refused() {
    let text = format!("[0.{}1]", "0".repeat(40000));
    match parse_string_to_json(&text) {
        Err(WofError::Parse(_)) => {}
        other => panic!("unexpected {:?}", other.is_ok()),
    }
    let quoted = format!("[\"0.{}1\", 2.5]", "0".repeat(40000));
    assert!(parse_string_to_json(&quoted).is_ok());
    let escaped = format!("[\"a\\\"0.{}\", 0.5]", "0".repeat(40000));
    assert!(parse_string_to_json(&escaped).is_ok());
}

#[test]
fn trailing_zeros_are_dropped() {
    assert_eq!(compact(&parse(r#"{"a":1.50,"b":0.1000001,"coordinates":[2.500,7.0]}"#)), r#"{"coordinates":[2.5,7.0],"a":1.5,"b":0.1}"#);
}

#[test]
fn geometry_type_is_checked() {
    let doc = |g: &str| parse(&format!(r#"{{"id":1,"type":"Feature","properties":{{}},"bbox":[],"geometry":{}}}"#, g));
    let v = doc(r#"{"type":"GeometryCollection","coordinates":[]}"#);
    assert_eq!(
        WOFGeoJSON::as_valid_wof_geojson(&v).unwrap_err(),
        WofError::UnsupportedGeometry("GeometryCollection".to_string())
    );
    assert!(WOFGeoJSON::as_valid_wof_geojson(&v).unwrap_err().message().contains("GeometryCollection"));
    let v = doc(r#"{"coordinates":[]}"#);
    assert_eq!(WOFGeoJSON::as_valid_wof_geojson(&v).unwrap_err(), WofError::Missing("geometry.type".to_string()));
    let v = doc(r#"{"type":3}"#);
    assert_eq!(
        WOFGeoJSON::as_valid_wof_geojson(&v).unwrap_err(),
        WofError::Mistyped("geometry.type".to_string(), "Number".to_string())
    );
}
