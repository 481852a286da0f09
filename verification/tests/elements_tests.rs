use mcpack::elements;

#[test]
fn test_valid_element_type() {
    assert!(elements::is_valid_element_type("function")); // function with valid input
    assert!(!elements::is_valid_element_type("invalid")); // function with invalid input
}

#[test]
fn test_template_content() {
    let content = elements::get_sample_content("function");
    assert!(content.is_empty());

    let content = elements::get_sample_content("advancement");
    assert!(serde_json::from_str::<serde_json::Value>(&content).is_ok());
}

#[test]
fn test_every_template_is_json() {
    for name in elements::element_type_names() {
        if name != "function" {
            let content = elements::get_sample_content(name.as_str());
            assert!(serde_json::from_str::<serde_json::Value>(&content).is_ok());
        }
    }
}

#[test]
fn test_template_exact_values() {
    assert_eq!(
        elements::get_sample_content("advancement"),
        "{\n  \"criteria\": {}\n}"
    );
    assert_eq!(
        elements::get_sample_content("tag"),
        "{\n  \"values\": [\n    \"minecraft:stone\"\n  ]\n}"
    );
    // an unknown name falls back to an empty object rather than failing
    assert_eq!(elements::get_sample_content("no_such_thing"), "{}");
}

#[test]
fn test_extensions() {
    assert_eq!(elements::extension_for("function"), ".mcfunction");
    assert_eq!(elements::extension_for("advancement"), ".json");
    assert_eq!(elements::extension_for("loot_table"), ".json");
}

#[test]
fn test_catalog_names() {
    let names = elements::element_type_names();
    assert_eq!(names.len(), 18);
    assert_eq!(names[0], "function");
    assert!(names.contains(&"walk_variant".to_string()));
}
