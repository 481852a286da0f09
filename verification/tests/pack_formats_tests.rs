use mcpack::pack_formats;

#[test]
fn test_version_info() {
    let info = pack_formats::get_version_info(48).unwrap();
    assert_eq!(info, vec!["1.21".to_string(), "1.21.1".to_string()]); // function with valid input

    let invalid_info = pack_formats::get_version_info(0);
    assert!(invalid_info.is_none()); // function with invalid input
}

#[test]
fn test_valid_pack_format() {
    assert!(pack_formats::is_valid_format(48)); // function with valid input
    assert!(!pack_formats::is_valid_format(0)); //function with invalid input
}

#[test]
fn test_version_parsing() {
    let version = "1.21";
    let parts = pack_formats::parse_version(version);
    assert_eq!(parts, vec![1, 21, 0]);

    let version = "1.21.1";
    let parts = pack_formats::parse_version(version);
    assert_eq!(parts, vec![1, 21, 1]);
}

#[test]
fn test_formats_in_range() {
    let formats = pack_formats::get_formats_in_range(48, 61);
    assert_eq!(formats, vec![48, 57, 61]);
}

#[test]
fn test_version_range() {
    let formats = [48, 61];
    let range = pack_formats::get_format_versions(&formats);
    assert_eq!(
        range,
        vec!["1.21".to_string(), "1.21.1".to_string(), "1.21.4".to_string()]
    );
}

#[test]
fn test_format_version_range() {
    let versions = vec!["1.21", "1.21.1", "1.21.2"];
    let range = pack_formats::format_version_range(&versions);
    assert_eq!(range, "1.21-1.21.2");

    let versions = vec!["1.21", "1.21.1", "1.21.2", "1.21.4"];
    let range = pack_formats::format_version_range(&versions);
    assert_eq!(range, "1.21-1.21.2, 1.21.4");
}

#[test]
fn test_format_version_range_empty() {
    let versions: Vec<&str> = vec![];
    assert_eq!(pack_formats::format_version_range(&versions), "");
}

#[test]
fn test_format_version_range_single() {
    let versions = vec!["1.21.4"];
    assert_eq!(pack_formats::format_version_range(&versions), "1.21.4");
}

#[test]
fn test_every_table_format_has_versions() {
    for f in [48u8, 57, 61] {
        assert!(pack_formats::is_valid_format(f));
        let versions = pack_formats::get_version_info(f).unwrap();
        assert!(!versions.is_empty());
    }
    for f in [0u8, 1, 47, 49, 62, 255] {
        assert!(!pack_formats::is_valid_format(f));
        assert!(pack_formats::get_version_info(f).is_none());
    }
}

#[test]
fn test_formats_in_range_subsets() {
    assert_eq!(pack_formats::get_formats_in_range(49, 61), vec![57, 61]);
    assert_eq!(pack_formats::get_formats_in_range(48, 56), vec![48]);
    assert_eq!(pack_formats::get_formats_in_range(62, 255), Vec::<u8>::new());
    assert_eq!(pack_formats::get_formats_in_range(61, 48), Vec::<u8>::new());
}

#[test]
fn test_formats_string() {
    assert_eq!(pack_formats::get_formats_string(), "48, 57, 61");
}

#[test]
fn test_valid_formats_of() {
    let formats = vec![48u8, 3, 61, 57, 200];
    assert_eq!(pack_formats::valid_formats_of(&formats), vec![48, 61, 57]);
}

#[test]
fn test_version_parsing_oddities() {
    // unreadable pieces read as zero, and short versions pad to three parts
    assert_eq!(pack_formats::parse_version(""), vec![0, 0, 0]);
    assert_eq!(pack_formats::parse_version("1"), vec![1, 0, 0]);
    assert_eq!(pack_formats::parse_version("1.x.2"), vec![1, 0, 2]);
    assert_eq!(pack_formats::parse_version("1.2.3.4"), vec![1, 2, 3, 4]);
    assert_eq!(pack_formats::parse_version("+7.21"), vec![7, 21, 0]);
}

#[test]
fn test_all_known_versions_collapse() {
    let formats = [48u8, 57, 61];
    let versions = pack_formats::get_format_versions(&formats);
    let refs: Vec<&str> = versions.iter().map(|s| s.as_str()).collect();
    assert_eq!(pack_formats::format_version_range(&refs), "1.21-1.21.4");
}
