use wof::error::WofError;
use wof::export::{export_json_value, Measures};
use wof::value::{Number, Value};
use wof::{json_to_writer, parse_string_to_json};

fn zero_measures() -> Measures {
    let z = Number::from_i64(0);
    Measures { area: z, area_m: z, latitude: z, longitude: z }
}

fn obj(entries: Vec<(&str, Value)>) -> Value {
    Value::Object(entries.into_iter().map(|(k, v)| (k.to_string(), v)).collect())
}

#[test]
fn export_array_should_fail() {
    let json = Value::Array(vec![]);
    assert_eq!(export_json_value(json, &zero_measures()).is_err(), true);
}

#[test]
fn export_empty_should_fail() {
    let json = obj(vec![]);
    assert_eq!(export_json_value(json, &zero_measures()).is_err(), true);
}

#[test]
fn export_empty_properties_should_fail() {
    let json = obj(vec![("properties", obj(vec![]))]);
    assert_eq!(export_json_value(json, &zero_measures()).is_err(), true);
}

fn feature(geometry: &str, props: &str) -> Value {
    let text = format!(r#"{{"type":"Feature","properties":{},"geometry":{}}}"#, props, geometry);
    parse_string_to_json(&text).unwrap()
}

#[test]
fn unsupported_geometry_names_the_type() {
    let json = feature(r#"{"type":"GeometryCollection","coordinates":[]}"#, r#"{"wof:id":1}"#);
    assert_eq!(
        export_json_value(json, &zero_measures()).unwrap_err(),
        WofError::UnsupportedGeometry("GeometryCollection".to_string())
    );
    let json = feature(r#"{"type":"Point","coordinates":[[1,2]]}"#, r#"{"wof:id":1}"#);
    assert_eq!(
        export_json_value(json, &zero_measures()).unwrap_err(),
        WofError::MalformedCoordinates("Point".to_string())
    );
}

#[test]
fn missing_id_is_an_error() {
    let json = feature(r#"{"type":"Point","coordinates":[1,2]}"#, r#"{"name":"x"}"#);
    assert_eq!(export_json_value(json, &zero_measures()).unwrap_err(), WofError::NoId);
}

#[test]
fn export_fills_the_property_surface() {
    let json = feature(
        r#"{"type":"Polygon","coordinates":[[[125,-15],[144,-15],[154,-27],[113,-22],[125,-15]]],"bbox":[0,0,0,0]}"#,
        r#"{"wof:id":42,"geom:area":3,"wof:country":"FR"}"#,
    );
    let area = Number::from_parts(true, 2875, -1);
    let m = Measures { area, area_m: Number::from_i64(0), latitude: Number::from_i64(0), longitude: Number::from_i64(0) };
    let out = export_json_value(json, &m).unwrap();
    let mut text = String::new();
    json_to_writer(&out, &mut text);
    assert!(text.starts_with(r#"{"id":42,"type":"Feature","properties":{"#));
    assert!(text.contains(r#""geom:area":287.5"#));
    assert!(text.contains(r#""geom:bbox":"113.0,-27.0,154.0,-15.0""#));
    assert!(text.contains(r#""wof:country":"FR""#));
    assert!(text.contains(r#""iso:country":"""#));
    assert!(text.contains(r#""edtf:cessation":"uuuu""#));
    assert!(text.contains(r#""mz:hierarchy_label":1"#));
    assert!(text.contains(r#""wof:parent_id":-1"#));
    assert!(text.contains(r#""wof:tags":[]"#));
    assert!(text.contains(r#""src:geom":"""#));
    assert!(text.ends_with(
        r#""bbox":[113.0,-27.0,154.0,-15.0],"geometry":{"coordinates":[[[125.0,-15.0],[144.0,-15.0],[154.0,-27.0],[113.0,-22.0],[125.0,-15.0]]],"type":"Polygon"}}"#
    ));
    let hash_at = text.find("\"wof:geomhash\":\"").unwrap() + 16;
    assert_eq!(text[hash_at..].find('"'), Some(32));
}

#[test]
fn square_and_point_boxes() {
    let square = feature(r#"{"type":"Polygon","coordinates":[[[0,0],[1,0],[1,1],[0,1],[0,0]]]}"#, r#"{"wof:id":1}"#);
    let mut text = String::new();
    json_to_writer(&export_json_value(square, &zero_measures()).unwrap(), &mut text);
    assert!(text.contains(r#""bbox":[0.0,0.0,1.0,1.0]"#));
    let point = feature(r#"{"type":"Point","coordinates":[-71.0,41.0]}"#, r#"{"wof:id":1}"#);
    let mut text = String::new();
    json_to_writer(&export_json_value(point, &zero_measures()).unwrap(), &mut text);
    assert!(text.contains(r#""bbox":[-71.0,41.0,-71.0,41.0]"#));
    assert!(text.contains(r#""geom:bbox":"-71.0,41.0,-71.0,41.0""#));
}

#[test]
fn top_level_id_is_preferred() {
    let text = r#"{"id":7,"type":"Feature","properties":{"wof:id":9},"geometry":{"type":"Point","coordinates":[1,2]}}"#;
    let out = export_json_value(parse_string_to_json(&text.to_string()).unwrap(), &zero_measures()).unwrap();
    let mut s = String::new();
    json_to_writer(&out, &mut s);
    assert!(s.starts_with(r#"{"id":7,"#));
}

fn geomhash(geometry: &str) -> String {
    let json = feature(geometry, r#"{"wof:id":1}"#);
    let mut text = String::new();
    json_to_writer(&export_json_value(json, &zero_measures()).unwrap(), &mut text);
    let at = text.find("\"wof:geomhash\":\"").unwrap() + 16;
    text[at..at + 32].to_string()
}

#[test]
fn geometry_hash_of_a_polygon() {
    assert_eq!(
        geomhash(r#"{"coordinates":[[[125.0,-15.0],[144.0,-15.0],[154.0,-27.0],[113.0,-22.0],[125.0,-15.0]]],"type":"Polygon"}"#),
        "1d113db66a333671083cf93919ed85b9"
    );
}

#[test]
fn geometry_hash_of_a_multi_polygon() {
    assert_eq!(
        geomhash(r#"{"coordinates":[[[[102.0,2.0],[103.0,2.0],[103.0,3.0],[102.0,3.0],[102.0,2.0]]],[[[100.0,0.0],[101.0,0.0],[101.0,1.0],[100.0,1.0],[100.0,0.0]],[[100.2,0.2],[100.8,0.2],[100.8,0.8],[100.2,0.8],[100.2,0.2]]]],"type":"MultiPolygon"}"#),
        "e965f294d0c0a5fe9e42a51285edbabd"
    );
}
