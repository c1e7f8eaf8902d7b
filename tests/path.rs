use std::path::Path;
use wof::utils::{
    get_available_country_codes, get_available_us_venues_codes, id_to_data_path_folder,
    id_to_data_path_geojson, id_to_path_folder, id_to_path_geojson,
};

fn path(s: String) -> std::path::PathBuf {
    Path::new(&s).to_path_buf()
}

#[test]
fn as_str() {
    assert_eq!(path(id_to_path_folder("890442055")), Path::new("890/442/055").to_path_buf());
    assert_eq!(path(id_to_path_folder("1444835995")), Path::new("144/483/599/5").to_path_buf());
    assert_eq!(path(id_to_path_folder("404419757")), Path::new("404/419/757").to_path_buf());
    assert_eq!(path(id_to_path_folder("0")), Path::new("0").to_path_buf());
    assert_eq!(path(id_to_path_folder("102047343")), Path::new("102/047/343").to_path_buf());
}

#[test]
fn as_int() {
    let f = |id: i64| path(id_to_path_folder(&id.to_string()));
    assert_eq!(f(890442055), Path::new("890/442/055").to_path_buf());
    assert_eq!(f(1444835995), Path::new("144/483/599/5").to_path_buf());
    assert_eq!(f(404419757), Path::new("404/419/757").to_path_buf());
    assert_eq!(f(0), Path::new("0").to_path_buf());
    assert_eq!(f(102047343), Path::new("102/047/343").to_path_buf());
}

#[test]
fn as_string() {
    let f = |id: String| path(id_to_path_folder(&id));
    assert_eq!(f(String::from("890442055")), Path::new("890/442/055").to_path_buf());
    assert_eq!(f(String::from("1444835995")), Path::new("144/483/599/5").to_path_buf());
    assert_eq!(f(String::from("404419757")), Path::new("404/419/757").to_path_buf());
    assert_eq!(f(String::from("0")), Path::new("0").to_path_buf());
    assert_eq!(f(String::from("102047343")), Path::new("102/047/343").to_path_buf());
}

#[test]
fn path_as_str() {
    let f = |id: &str| path(id_to_path_geojson(id));
    assert_eq!(f("890442055"), Path::new("890/442/055/890442055.geojson").to_path_buf());
    assert_eq!(f("1444835995"), Path::new("144/483/599/5/1444835995.geojson").to_path_buf());
    assert_eq!(f("404419757"), Path::new("404/419/757/404419757.geojson").to_path_buf());
    assert_eq!(f("0"), Path::new("0/0.geojson").to_path_buf());
    assert_eq!(f("102047343"), Path::new("102/047/343/102047343.geojson").to_path_buf());
}

#[test]
fn path_as_int() {
    let f = |id: i64| path(id_to_path_geojson(&id.to_string()));
    assert_eq!(f(890442055), Path::new("890/442/055/890442055.geojson").to_path_buf());
    assert_eq!(f(1444835995), Path::new("144/483/599/5/1444835995.geojson").to_path_buf());
    assert_eq!(f(404419757), Path::new("404/419/757/404419757.geojson").to_path_buf());
    assert_eq!(f(0), Path::new("0/0.geojson").to_path_buf());
    assert_eq!(f(102047343), Path::new("102/047/343/102047343.geojson").to_path_buf());
}

#[test]
fn path_as_string() {
    let f = |id: String| path(id_to_path_geojson(&id));
    assert_eq!(f(String::from("890442055")), Path::new("890/442/055/890442055.geojson").to_path_buf());
    assert_eq!(f(String::from("1444835995")), Path::new("144/483/599/5/1444835995.geojson").to_path_buf());
    assert_eq!(f(String::from("404419757")), Path::new("404/419/757/404419757.geojson").to_path_buf());
    assert_eq!(f(String::from("0")), Path::new("0/0.geojson").to_path_buf());
    assert_eq!(f(String::from("102047343")), Path::new("102/047/343/102047343.geojson").to_path_buf());
}

#[test]
fn data_folder_as_str() {
    let f = |id: &str| path(id_to_data_path_folder(id));
    assert_eq!(f("890442055"), Path::new("data/890/442/055").to_path_buf());
    assert_eq!(f("1444835995"), Path::new("data/144/483/599/5").to_path_buf());
    assert_eq!(f("404419757"), Path::new("data/404/419/757").to_path_buf());
    assert_eq!(f("0"), Path::new("data/0").to_path_buf());
    assert_eq!(f("102047343"), Path::new("data/102/047/343").to_path_buf());
}

#[test]
fn data_folder_as_int() {
    let f = |id: i64| path(id_to_data_path_folder(&id.to_string()));
    assert_eq!(f(890442055), Path::new("data/890/442/055").to_path_buf());
    assert_eq!(f(1444835995), Path::new("data/144/483/599/5").to_path_buf());
    assert_eq!(f(404419757), Path::new("data/404/419/757").to_path_buf());
    assert_eq!(f(0), Path::new("data/0").to_path_buf());
    assert_eq!(f(102047343), Path::new("data/102/047/343").to_path_buf());
}

#[test]
fn data_folder_as_string() {
    let f = |id: String| path(id_to_data_path_folder(&id));
    assert_eq!(f(String::from("890442055")), Path::new("data/890/442/055").to_path_buf());
    assert_eq!(f(String::from("1444835995")), Path::new("data/144/483/599/5").to_path_buf());
    assert_eq!(f(String::from("404419757")), Path::new("data/404/419/757").to_path_buf());
    assert_eq!(f(String::from("0")), Path::new("data/0").to_path_buf());
    assert_eq!(f(String::from("102047343")), Path::new("data/102/047/343").to_path_buf());
}

#[test]
fn data_path_as_str() {
    let f = |id: &str| path(id_to_data_path_geojson(id));
    assert_eq!(f("890442055"), Path::new("data/890/442/055/890442055.geojson").to_path_buf());
    assert_eq!(f("1444835995"), Path::new("data/144/483/599/5/1444835995.geojson").to_path_buf());
    assert_eq!(f("404419757"), Path::new("data/404/419/757/404419757.geojson").to_path_buf());
    assert_eq!(f("0"), Path::new("data/0/0.geojson").to_path_buf());
    assert_eq!(f("102047343"), Path::new("data/102/047/343/102047343.geojson").to_path_buf());
}

#[test]
fn data_path_as_int() {
    let f = |id: i64| path(id_to_data_path_geojson(&id.to_string()));
    assert_eq!(f(890442055), Path::new("data/890/442/055/890442055.geojson").to_path_buf());
    assert_eq!(f(1444835995), Path::new("data/144/483/599/5/1444835995.geojson").to_path_buf());
    assert_eq!(f(404419757), Path::new("data/404/419/757/404419757.geojson").to_path_buf());
    assert_eq!(f(0), Path::new("data/0/0.geojson").to_path_buf());
    assert_eq!(f(102047343), Path::new("data/102/047/343/102047343.geojson").to_path_buf());
}

#[test]
fn data_path_as_string() {
    let f = |id: String| path(id_to_data_path_geojson(&id));
    assert_eq!(f(String::from("890442055")), Path::new("data/890/442/055/890442055.geojson").to_path_buf());
    assert_eq!(f(String::from("1444835995")), Path::new("data/144/483/599/5/1444835995.geojson").to_path_buf());
    assert_eq!(f(String::from("404419757")), Path::new("data/404/419/757/404419757.geojson").to_path_buf());
    assert_eq!(f(String::from("0")), Path::new("data/0/0.geojson").to_path_buf());
    assert_eq!(f(String::from("102047343")), Path::new("data/102/047/343/102047343.geojson").to_path_buf());
}

#[test]
fn repository_code_lists() {
    let countries = get_available_country_codes();
    assert_eq!(countries.len(), 260);
    assert_eq!(countries[0], "ad");
    assert_eq!(countries[countries.len() - 1], "zw");
    let venues = get_available_us_venues_codes();
    assert_eq!(venues.len(), 52);
    assert_eq!(venues[0], "us-ak");
}

#[test]
fn repository_archive_url() {
    assert_eq!(
        wof::utils::path::get_url("admin", "fr"),
        "https://github.com/whosonfirst-data/whosonfirst-data-admin-fr/archive/master.tar.gz"
    );
}
