use ttfx::catalog::{effect_catalog_json, json_string, CatalogEntry};

fn quoted(value: &str) -> String {
    let mut out = String::new();
    json_string(&mut out, value);
    out
}

#[test]
fn json_string_quotes_plain_text() {
    assert_eq!(quoted("beams"), "\"beams\"");
    assert_eq!(quoted(""), "\"\"");
    assert_eq!(quoted("héllo █"), "\"héllo █\"");
}

#[test]
fn json_string_escapes_quotes_backslashes_and_controls() {
    assert_eq!(quoted("a\"b"), "\"a\\\"b\"");
    assert_eq!(quoted("a\\b"), "\"a\\\\b\"");
    assert_eq!(quoted("1\n2\r3\t4"), "\"1\\n2\\r3\\t4\"");
    assert_eq!(quoted("\u{1}"), "\"\\u0001\"");
    assert_eq!(quoted("\u{1f}"), "\"\\u001f\"");
    assert_eq!(quoted("\u{7f}"), "\"\\u007f\"");
    assert_eq!(quoted("\u{9f}"), "\"\\u009f\"");
    assert_eq!(quoted("\u{a0}"), "\"\u{a0}\"");
}

#[test]
fn json_string_appends_to_what_is_there() {
    let mut out = String::from("x=");
    json_string(&mut out, "y");
    assert_eq!(out, "x=\"y\"");
}

#[test]
fn catalog_of_no_effects_is_an_empty_array() {
    assert_eq!(effect_catalog_json(&Vec::new()), "[]");
}

#[test]
fn catalog_lists_each_effect_in_order() {
    let entries = vec![
        CatalogEntry { name: "beams".to_string(), about: "Light \"beams\"".to_string() },
        CatalogEntry { name: "wipe".to_string(), about: String::new() },
    ];
    assert_eq!(
        effect_catalog_json(&entries),
        "[{\"name\":\"beams\",\"about\":\"Light \\\"beams\\\"\"},{\"name\":\"wipe\",\"about\":\"\"}]"
    );
}
