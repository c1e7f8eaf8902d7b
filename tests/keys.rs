use wof::keys::{hierarchy_placetype, split_name_key};

fn parts(k: &str) -> Option<(String, Option<String>, String)> {
    split_name_key(k)
}

#[test]
fn name_keys() {
    assert_eq!(parts("name:eng_x_preferred"), Some(("eng".into(), None, "x_preferred".into())));
    assert_eq!(
        parts("name:eng_x_preferred_x_colloquial"),
        Some(("eng".into(), Some("x_preferred".into()), "x_colloquial".into()))
    );
    assert_eq!(parts("name:zho_Hant_x_variant"), Some(("zho".into(), Some("Hant".into()), "x_variant".into())));
    assert_eq!(parts("name:eng_x_"), None);
    assert_eq!(parts("name:en_x_preferred"), None);
    assert_eq!(parts("name:eng_preferred"), None);
    assert_eq!(parts("wof:name"), None);
    assert_eq!(parts("name:eng_x_pre-ferred"), None);
    assert_eq!(parts("xname:fra_x_preferred"), Some(("fra".into(), None, "x_preferred".into())));
}

#[test]
fn hierarchy_keys() {
    assert_eq!(hierarchy_placetype("country_id"), Some("country".into()));
    assert_eq!(hierarchy_placetype("macro_region_id"), Some("region".into()));
    assert_eq!(hierarchy_placetype("_id"), Some("".into()));
    assert_eq!(hierarchy_placetype("country"), None);
    assert_eq!(hierarchy_placetype("id"), None);
}
