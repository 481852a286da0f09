use mcpack::scanner;

#[test]
fn test_namespace_tally() {
    let rels = vec![
        "function/a.mcfunction".to_string(),
        "function/deep/b.mcfunction".to_string(),
        "advancement/adv.json".to_string(),
        "recipe/r.json".to_string(),
        "loot_table/l.json".to_string(),
        "predicate/p.json".to_string(),
        "tags/t.json".to_string(),
        "worldgen/biome.json".to_string(),
        "notes.txt".to_string(),
    ];
    let info = scanner::collect_namespace_info(&rels);
    assert_eq!(info.functions, 2);
    assert_eq!(info.advancements, 1);
    assert_eq!(info.recipes, 1);
    assert_eq!(info.loot_tables, 1);
    assert_eq!(info.predicates, 1);
    assert_eq!(info.tags, 1);
    assert!(info.world_gen);
    assert!(info.has_content());
}

#[test]
fn test_empty_namespace_has_no_content() {
    let rels: Vec<String> = vec![];
    let info = scanner::collect_namespace_info(&rels);
    assert!(!info.has_content());
}

#[test]
fn test_unrecognized_files_are_skipped() {
    let rels = vec![
        "readme.md".to_string(),
        "function/no_extension".to_string(),
        "misc/thing.json".to_string(),
    ];
    let info = scanner::collect_namespace_info(&rels);
    assert!(!info.has_content());
}

#[test]
fn test_zip_namespace_grouping() {
    let entries = vec![
        "pack.mcmeta".to_string(),
        "data/alpha/function/a.mcfunction".to_string(),
        "data/alpha/advancement/b.json".to_string(),
        "data/beta/tags/t.json".to_string(),
        "data/empty".to_string(),
    ];
    let spaces = scanner::collect_zip_namespaces(&entries);
    assert_eq!(spaces.len(), 2);
    assert_eq!(spaces[0].0, "alpha");
    assert_eq!(spaces[0].1.functions, 1);
    assert_eq!(spaces[0].1.advancements, 1);
    assert_eq!(spaces[1].0, "beta");
    assert_eq!(spaces[1].1.tags, 1);
}

#[test]
fn test_scan_equivalence_example() {
    // the same file set read as a directory tree and as the archive the
    // archiver would build from it
    let groups = vec![
        (
            "mypack".to_string(),
            vec![
                "function/a.mcfunction".to_string(),
                "advancement/b.json".to_string(),
                "worldgen/w.json".to_string(),
            ],
        ),
        ("plain".to_string(), vec!["readme.txt".to_string()]),
        ("other".to_string(), vec!["tags/t.json".to_string()]),
    ];
    let mut entries: Vec<String> = Vec::new();
    for (ns, rels) in &groups {
        for rel in rels {
            entries.push(format!("data/{}/{}", ns, rel));
        }
    }
    let from_dir = scanner::collect_dir_namespaces(&groups);
    let from_zip = scanner::collect_zip_namespaces(&entries);
    assert_eq!(from_dir, from_zip);
    // the namespace without content is left out on both sides
    assert_eq!(from_dir.len(), 2);
    assert_eq!(from_dir[0].0, "mypack");
    assert_eq!(from_dir[1].0, "other");
}
