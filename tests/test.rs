use wof::value::{Value, Number};
use wof::{json_to_writer, json_to_writer_pretty};

fn obj(entries: Vec<(&str, Value)>) -> Value {
    Value::Object(entries.into_iter().map(|(k, v)| (k.to_string(), v)).collect())
}

fn s(x: &str) -> Value {
    Value::Str(x.to_string())
}

fn integer(n: i64) -> Value {
    Value::Number(Number::from_i64(n))
}

fn num(x: f64) -> Value {
    let (p, m, e) = json::number::Number::from(x).as_parts();
    Value::Number(Number::from_parts(p, m, e))
}

fn nums(xs: &[f64]) -> Value {
    Value::Array(xs.iter().map(|x| num(*x)).collect())
}

fn ajaccio() -> Value {
    obj(vec![
        ("type", s("Feature")),
        (
            "properties",
            obj(vec![
                ("name:fra_x_preferred", Value::Array(vec![s("Ajaccio")])),
                ("wof:id", integer(101748927)),
                ("wof:lang", Value::Array(vec![s("fre")])),
                ("name:eng_x_preferred", Value::Array(vec![s("Ajaccio")])),
            ]),
        ),
        (
            "geometry",
            obj(vec![
                (
                    "coordinates",
                    Value::Array(vec![Value::Array(vec![
                        nums(&[8.585396, 41.873571]),
                        nums(&[8.826011, 41.873571]),
                        nums(&[8.826011, 41.971536]),
                        nums(&[8.585396, 41.968222]),
                        nums(&[8.585396, 41.873571]),
                    ])]),
                ),
                ("type", s("Polygon")),
            ]),
        ),
        ("bbox", nums(&[8.585396, 41.873571, 8.826011, 41.971536])),
        ("id", integer(101748927)),
    ])
}

#[test]
pub fn serialize_first_level_wof_geojson_with_null() {
    let t = obj(vec![
        ("type", Value::Null),
        ("properties", Value::Null),
        ("geometry", Value::Null),
        ("bbox", Value::Null),
        ("id", Value::Null),
    ]);
    let mut out = String::new();
    json_to_writer_pretty(&t, &mut out);
    assert_eq!(
        out,
        r#"{
  "id": null,
  "type": null,
  "properties": null,
  "bbox": null,
  "geometry": null
}"#
    );
}

#[test]
pub fn serialize_first_level_wof_geojson_with_content() {
    let t = ajaccio();
    let mut out = String::new();
    json_to_writer_pretty(&t, &mut out);
    assert_eq!(
        out,
        r#"{
  "id": 101748927,
  "type": "Feature",
  "properties": {
    "name:eng_x_preferred":[
      "Ajaccio"
    ],
    "name:fra_x_preferred":[
      "Ajaccio"
    ],
    "wof:id":101748927,
    "wof:lang":[
      "fre"
    ]
  },
  "bbox": [
    8.585396,
    41.873571,
    8.826011,
    41.971536
],
  "geometry": {"coordinates":[[[8.585396,41.873571],[8.826011,41.873571],[8.826011,41.971536],[8.585396,41.968222],[8.585396,41.873571]]],"type":"Polygon"}
}"#
    );
}

#[test]
fn compact_text_orders_keys_and_forces_decimals() {
    let t = obj(vec![
        ("zeta", integer(3)),
        ("bbox", nums(&[1.0, 2.0, 3.0, 4.0])),
        ("alpha", obj(vec![("geom:area", integer(2)), ("b", integer(2)), ("a", num(0.00012345))])),
        ("id", integer(7)),
        ("type", s("Feature")),
    ]);
    let mut out = String::new();
    json_to_writer(&t, &mut out);
    assert_eq!(
        out,
        r#"{"id":7,"type":"Feature","alpha":{"a":0.000123,"b":2,"geom:area":2.0},"zeta":3,"bbox":[1.0,2.0,3.0,4.0]}"#
    );
}

#[test]
fn compact_text_is_byte_stable() {
    let mut first = String::new();
    json_to_writer(&ajaccio(), &mut first);
    let mut second = String::new();
    json_to_writer(&ajaccio(), &mut second);
    assert_eq!(first, second);
}

#[test]
fn strings_are_escaped() {
    let t = Value::Array(vec![s("a\"b\\c\nd\u{1}"), Value::Boolean(true), Value::Null]);
    let mut out = String::new();
    json_to_writer(&t, &mut out);
    assert_eq!(out, "[\"a\\\"b\\\\c\\nd\\u0001\",true,null]");
}

#[test]
fn nan_is_null() {
    let n = Number { positive: true, mantissa: 0, exponent: 0, nan: true };
    let mut out = String::new();
    json_to_writer(&Value::Number(n), &mut out);
    assert_eq!(out, "null");
}
