use mcpack::create::{plan_pack, validate_folder_names, validate_formats, CreateError, PackSettings};

fn settings(formats: Vec<u8>) -> PackSettings {
    PackSettings {
        name: "test-pack".to_string(),
        description: "Test datapack".to_string(),
        icon_path: None,
        pack_formats: formats,
        include_minecraft_namespace: false,
        minecraft_tags: vec![],
        custom_namespace: None,
        custom_namespace_folders: vec![],
    }
}

#[test]
fn test_single_format_omits_supported_formats() {
    let plan = plan_pack(&settings(vec![48]), false).unwrap();
    assert_eq!(
        plan.manifest,
        "{\n  \"pack\": {\n    \"description\": \"Test datapack\",\n    \"pack_format\": 48\n  }\n}"
    );
    assert!(serde_json::from_str::<serde_json::Value>(&plan.manifest).is_ok());
}

#[test]
fn test_full_range_encodes_as_bounds() {
    let plan = plan_pack(&settings(vec![48, 57, 61]), false).unwrap();
    assert_eq!(
        plan.manifest,
        "{\n  \"pack\": {\n    \"description\": \"Test datapack\",\n    \"pack_format\": 61,\n    \"supported_formats\": {\n      \"min_inclusive\": 48,\n      \"max_inclusive\": 61\n    }\n  }\n}"
    );
    assert!(serde_json::from_str::<serde_json::Value>(&plan.manifest).is_ok());
}

#[test]
fn test_sparse_selection_encodes_as_list() {
    let plan = plan_pack(&settings(vec![48, 61]), false).unwrap();
    assert_eq!(
        plan.manifest,
        "{\n  \"pack\": {\n    \"description\": \"Test datapack\",\n    \"pack_format\": 61,\n    \"supported_formats\": [\n      48,\n      61\n    ]\n  }\n}"
    );
    assert!(serde_json::from_str::<serde_json::Value>(&plan.manifest).is_ok());
}

#[test]
fn test_icon_must_exist() {
    let mut s = settings(vec![48]);
    s.icon_path = Some("art/icon.png".to_string());
    let r = plan_pack(&s, false);
    assert!(matches!(r, Err(CreateError::IconMissing(p)) if p == "art/icon.png"));
}

#[test]
fn test_icon_must_be_png() {
    let mut s = settings(vec![48]);
    s.icon_path = Some("art/icon.jpg".to_string());
    let r = plan_pack(&s, true);
    assert!(matches!(r, Err(CreateError::IconNotPng)));
}

#[test]
fn test_icon_case_insensitive() {
    let mut s = settings(vec![48]);
    s.icon_path = Some("art/ICON.PNG".to_string());
    let plan = plan_pack(&s, true).unwrap();
    assert_eq!(plan.icon_from, Some("art/ICON.PNG".to_string()));
}

#[test]
fn test_basic_plan_layout() {
    let plan = plan_pack(&settings(vec![48]), false).unwrap();
    assert!(plan.icon_from.is_none());
    assert_eq!(plan.dirs, vec!["data".to_string()]);
    assert!(plan.files.is_empty());
}

#[test]
fn test_minecraft_namespace_plan() {
    let mut s = settings(vec![48]);
    s.include_minecraft_namespace = true;
    s.minecraft_tags = vec!["load.mcfunction".to_string(), "tick.mcfunction".to_string()];
    let plan = plan_pack(&s, false).unwrap();
    assert_eq!(
        plan.dirs,
        vec!["data".to_string(), "data/minecraft/tags/function".to_string()]
    );
    assert_eq!(
        plan.files,
        vec![
            (
                "data/minecraft/tags/function/load.json".to_string(),
                "{\n  \"values\": []\n}".to_string()
            ),
            (
                "data/minecraft/tags/function/tick.json".to_string(),
                "{\n  \"values\": []\n}".to_string()
            ),
        ]
    );
}

#[test]
fn test_custom_namespace_plan() {
    let mut s = settings(vec![48]);
    s.custom_namespace = Some("magic".to_string());
    s.custom_namespace_folders = vec!["function".to_string(), "tags".to_string(), "recipe".to_string()];
    let plan = plan_pack(&s, false).unwrap();
    assert_eq!(
        plan.dirs,
        vec![
            "data".to_string(),
            "data/magic".to_string(),
            "data/magic/function".to_string(),
            "data/magic/tags".to_string(),
            "data/magic/recipe".to_string(),
        ]
    );
    assert_eq!(
        plan.files,
        vec![
            ("data/magic/function/main.mcfunction".to_string(), String::new()),
            (
                "data/magic/recipe/recipe.json".to_string(),
                "{\n  \"type\": \"\"\n}".to_string()
            ),
        ]
    );
}

#[test]
fn test_description_is_escaped() {
    let mut s = settings(vec![48]);
    s.description = "say \"hi\"\nback\\slash".to_string();
    let plan = plan_pack(&s, false).unwrap();
    let v: serde_json::Value = serde_json::from_str(&plan.manifest).unwrap();
    assert_eq!(
        v["pack"]["description"].as_str().unwrap(),
        "say \"hi\"\nback\\slash"
    );
}

#[test]
fn test_validate_formats() {
    assert!(validate_formats(&vec![48, 57, 61]).is_ok());
    let r = validate_formats(&vec![48, 50]);
    assert!(matches!(r, Err(CreateError::InvalidFormat(50))));
}

#[test]
fn test_validate_folder_names() {
    assert!(validate_folder_names(&vec!["function".to_string(), "tag".to_string()]).is_ok());
    let r = validate_folder_names(&vec!["function".to_string(), "shrine".to_string()]);
    assert!(matches!(r, Err(CreateError::InvalidFolder(f)) if f == "shrine"));
}

#[test]
fn test_create_error_messages() {
    assert_eq!(
        CreateError::InvalidFormat(50).message(),
        "Invalid pack format: 50. Valid formats are: 48, 57, 61"
    );
    assert_eq!(CreateError::NoFormats.message(), "No pack formats selected");
    assert_eq!(CreateError::IconNotPng.message(), "Icon must be a PNG file");
    assert_eq!(
        CreateError::IconMissing("a.png".to_string()).message(),
        "Selected icon file does not exist: a.png"
    );
}
