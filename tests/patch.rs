use wof::patch::apply_patch_to_original;
use wof::value::Value;
use wof::{json_to_writer, parse_string_to_json};

fn parse(s: &str) -> Value {
    parse_string_to_json(&s.to_string()).unwrap()
}

fn compact(v: &Value) -> String {
    let mut s = String::new();
    json_to_writer(v, &mut s);
    s
}

fn entries(v: Value) -> Vec<(String, Value)> {
    match v {
        Value::Object(e) => e,
        _ => panic!("not an object"),
    }
}

#[test]
fn patch_sets_and_removes_properties() {
    let original = parse(r#"{"id":1,"type":"Feature","properties":{"name:fra_x_preferred":["A"],"name:eng_x_preferred":["B"],"wof:name":"A","old":1},"geometry":{"type":"Point","coordinates":[0,0]},"bbox":[0,0,0,0]}"#);
    let patch = entries(parse(r#"{"id":1,"properties":{"old":null,"wof:name":"C","name:*":["D"],"name:deu_x_preferred":["E"]},"bbox":[1,1,1,1]}"#));
    let out = apply_patch_to_original(&patch, original).unwrap();
    assert_eq!(
        compact(&out),
        r#"{"id":1,"type":"Feature","properties":{"name:deu_x_preferred":["E"],"name:eng_x_preferred":["D"],"name:fra_x_preferred":["D"],"wof:name":"C"},"bbox":[1.0,1.0,1.0,1.0],"geometry":{"coordinates":[0.0,0.0],"type":"Point"}}"#
    );
}

#[test]
fn patch_replaces_geometry() {
    let original = parse(r#"{"id":1,"properties":{},"geometry":{"type":"Point","coordinates":[0,0]}}"#);
    let patch = entries(parse(r#"{"geometry":{"type":"Point","coordinates":[5,6]}}"#));
    let out = apply_patch_to_original(&patch, original).unwrap();
    assert_eq!(compact(&out), r#"{"id":1,"properties":{},"geometry":{"coordinates":[5.0,6.0],"type":"Point"}}"#);
}

#[test]
fn patch_refusals() {
    let patch = entries(parse(r#"{"properties":{"a":1}}"#));
    assert!(apply_patch_to_original(&patch, Value::Array(vec![])).is_err());
    assert!(apply_patch_to_original(&patch, parse(r#"{"id":1}"#)).is_err());
    assert!(apply_patch_to_original(&patch, parse(r#"{"properties":[1]}"#)).is_err());
    let names_only = entries(parse(r#"{"properties":{"name:*":null}}"#));
    assert!(apply_patch_to_original(&names_only, parse(r#"{"properties":[1]}"#)).is_ok());
    let empty: Vec<(String, Value)> = vec![];
    assert_eq!(apply_patch_to_original(&empty, Value::Null), Ok(Value::Null));
}
