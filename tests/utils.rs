use std::path::Path;
use wof::value::Value;
use wof::utils::{self, JsonObject, JsonUtils};

#[test]
fn json_utils_accessibility() {
    assert_eq!(Value::Object(vec![]).assert_is_object(), Ok(()));
    assert_eq!(Value::Object(vec![]).as_object(), Some(&JsonObject::new()));
}

#[test]
fn path_utils_accessibility() {
    assert_eq!(
        Path::new(&utils::id_to_data_path_folder("890442055")).to_path_buf(),
        Path::new("data/890/442/055").to_path_buf()
    );
    assert_eq!(
        Path::new(&utils::id_to_path_folder("890442055")).to_path_buf(),
        Path::new("890/442/055").to_path_buf()
    );
    assert_eq!(
        Path::new(&utils::id_to_data_path_geojson("890442055")).to_path_buf(),
        Path::new("data/890/442/055/890442055.geojson").to_path_buf()
    );
    assert_eq!(
        Path::new(&utils::id_to_path_geojson("890442055")).to_path_buf(),
        Path::new("890/442/055/890442055.geojson").to_path_buf()
    );
}

#[test]
fn kind_checks_name_the_kind() {
    assert_eq!(
        Value::Array(vec![]).assert_is_object(),
        Err(String::from("This is not an object but a Array"))
    );
    assert_eq!(Value::Null.assert_is_number(), Err(String::from("This is not a number but a Null")));
    let o = Value::Object(vec![("b".to_string(), Value::Null), ("a".to_string(), Value::Null)]);
    assert_eq!(o.keys(), vec!["b".to_string(), "a".to_string()]);
}
