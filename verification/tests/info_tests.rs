use mcpack::info::{collect_info, collect_info_from_zip, find_pack_mcmeta_index};
use mcpack::manifest::InfoError;

#[test]
fn test_manifest_fields() {
    let text = "{\"pack\":{\"pack_format\":48,\"description\":\"hello\",\"supported_formats\":[48,57]}}";
    let info = collect_info(text, "p".to_string(), &vec![]).unwrap();
    assert_eq!(info.name, "p");
    assert_eq!(info.pack_format, 48);
    assert_eq!(info.description, "hello");
    assert_eq!(info.supported_formats, vec![48, 57]);
    assert!(info.namespaces.is_empty());
    assert!(info.features.is_empty());
    assert!(info.filter.is_none());
    assert!(info.overlays.is_empty());
}

#[test]
fn test_supported_formats_range_object() {
    let text = "{\"pack\":{\"pack_format\":50,\"supported_formats\":{\"min_inclusive\":48,\"max_inclusive\":50}}}";
    let info = collect_info(text, "p".to_string(), &vec![]).unwrap();
    assert_eq!(info.supported_formats, vec![48, 49, 50]);
}

#[test]
fn test_supported_formats_default() {
    let text = "{\"pack\":{\"pack_format\":61}}";
    let info = collect_info(text, "p".to_string(), &vec![]).unwrap();
    assert_eq!(info.supported_formats, vec![61]);
}

#[test]
fn test_rich_text_description() {
    let text = "{\"pack\":{\"pack_format\":48,\"description\":{\"text\":\"hi\",\"color\":\"gray\"}}}";
    let info = collect_info(text, "p".to_string(), &vec![]).unwrap();
    assert_eq!(info.description, "hi");

    let text = "{\"pack\":{\"pack_format\":48,\"description\":[\"a\",{\"text\":\"b\"}]}}";
    let info = collect_info(text, "p".to_string(), &vec![]).unwrap();
    assert_eq!(info.description, "ab");

    let text = "{\"pack\":{\"pack_format\":48,\"description\":7}}";
    let info = collect_info(text, "p".to_string(), &vec![]).unwrap();
    assert_eq!(info.description, "Invalid description");
}

#[test]
fn test_manifest_errors() {
    let r = collect_info("not json", "p".to_string(), &vec![]);
    assert!(matches!(r, Err(InfoError::MalformedJson)));

    let r = collect_info("{}", "p".to_string(), &vec![]);
    assert!(matches!(r, Err(InfoError::MissingPack)));

    let r = collect_info("{\"pack\":{}}", "p".to_string(), &vec![]);
    assert!(matches!(r, Err(InfoError::MissingPackFormat)));

    let r = collect_info("{\"pack\":{\"pack_format\":\"x\"}}", "p".to_string(), &vec![]);
    assert!(matches!(r, Err(InfoError::InvalidPackFormat)));

    let r = collect_info("{\"pack\":{\"pack_format\":48.5}}", "p".to_string(), &vec![]);
    assert!(matches!(r, Err(InfoError::InvalidPackFormat)));
}

#[test]
fn test_info_error_messages() {
    assert_eq!(InfoError::MalformedJson.message(), "Failed to parse pack.mcmeta");
    assert_eq!(
        InfoError::MissingPack.message(),
        "Invalid pack.mcmeta: missing 'pack' object"
    );
    assert_eq!(InfoError::MissingPackFormat.message(), "Missing pack_format");
    assert_eq!(InfoError::InvalidPackFormat.message(), "Invalid pack_format");
}

#[test]
fn test_features_filter_overlays() {
    let text = "{\"pack\":{\"pack_format\":48},\"features\":{\"enabled\":[\"minecraft:trade_rebalance\",\"mod:custom\"]},\"filter\":{\"block\":[{\"namespace\":\"ns\",\"path\":\"p/*\"},{\"path\":\"q\"}]},\"overlays\":{\"entries\":[{\"formats\":[57,61],\"directory\":\"newer\"},{\"formats\":[],\"directory\":\"x\"}]}}";
    let info = collect_info(text, "p".to_string(), &vec![]).unwrap();
    assert_eq!(info.features.len(), 2);
    assert_eq!(info.features[0].0, "minecraft:trade_rebalance");
    assert!(info.features[0].1);
    assert_eq!(info.features[1].0, "mod:custom");
    assert!(!info.features[1].1);
    let filter = info.filter.unwrap();
    assert_eq!(filter.block.len(), 2);
    assert_eq!(filter.block[0].namespace.as_deref(), Some("ns"));
    assert_eq!(filter.block[0].path.as_deref(), Some("p/*"));
    assert!(filter.block[1].namespace.is_none());
    assert_eq!(info.overlays.len(), 1);
    assert_eq!(info.overlays[0].formats, vec![57, 61]);
    assert_eq!(info.overlays[0].directory, "newer");
}

#[test]
fn test_zip_scan_report() {
    let text = "{\"pack\":{\"pack_format\":48,\"description\":\"d\"}}";
    let entries = vec![
        "pack.mcmeta".to_string(),
        "data/ns/function/f.mcfunction".to_string(),
    ];
    let info = collect_info_from_zip(text, "arch".to_string(), &entries).unwrap();
    assert_eq!(info.name, "arch");
    assert_eq!(info.namespaces.len(), 1);
    assert_eq!(info.namespaces[0].0, "ns");
    assert_eq!(info.namespaces[0].1.functions, 1);
}

#[test]
fn test_find_manifest_entry() {
    let names = vec![
        "readme.txt".to_string(),
        "mypack/pack.mcmeta".to_string(),
        "pack.mcmeta".to_string(),
    ];
    assert_eq!(find_pack_mcmeta_index(&names), Some(1));

    let names = vec!["xpack.mcmeta".to_string(), "data/f.json".to_string()];
    assert_eq!(find_pack_mcmeta_index(&names), None);
}

#[test]
fn test_created_manifest_reads_back() {
    // a manifest the builder renders is read back with the same fields
    let settings = mcpack::create::PackSettings {
        name: "round".to_string(),
        description: "a \"quoted\" line".to_string(),
        icon_path: None,
        pack_formats: vec![48, 57, 61],
        include_minecraft_namespace: false,
        minecraft_tags: vec![],
        custom_namespace: None,
        custom_namespace_folders: vec![],
    };
    let plan = mcpack::create::plan_pack(&settings, false).unwrap();
    let info = collect_info(&plan.manifest, "round".to_string(), &vec![]).unwrap();
    assert_eq!(info.pack_format, 61);
    assert_eq!(info.description, "a \"quoted\" line");
    // the compact range form stands for every number between its bounds
    assert_eq!(info.supported_formats, (48..=61).collect::<Vec<u8>>());
}
