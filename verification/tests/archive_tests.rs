use mcpack::add::{plan_add, AddError, AddOutcome};
use mcpack::archive::{archive_file_name, ensure_zip_extension, normalize_separators, ZipError};

#[test]
fn test_derived_archive_name() {
    let n = archive_file_name("mypack", 48, &None).unwrap();
    assert_eq!(n, "mypack_1.21.1.zip");
    let n = archive_file_name("mypack", 61, &None).unwrap();
    assert_eq!(n, "mypack_1.21.4.zip");
    // an unknown format contributes no version suffix
    let n = archive_file_name("mypack", 3, &None).unwrap();
    assert_eq!(n, "mypack.zip");
}

#[test]
fn test_custom_archive_name() {
    let n = archive_file_name("mypack", 48, &Some("bundle.zip".to_string())).unwrap();
    assert_eq!(n, "bundle.zip");
    let r = archive_file_name("mypack", 48, &Some("bundle.tar".to_string()));
    assert!(matches!(r, Err(ZipError::NameNotZip(c)) if c == "bundle.tar"));
}

#[test]
fn test_zip_error_message() {
    assert_eq!(
        ZipError::NameNotZip("x".to_string()).message(),
        "The zip file name must end with '.zip'. Provided name: 'x'"
    );
}

#[test]
fn test_normalize_separators() {
    assert_eq!(normalize_separators("a\\b\\c.json"), "a/b/c.json");
    assert_eq!(normalize_separators("plain/path.json"), "plain/path.json");
}

#[test]
fn test_ensure_zip_extension() {
    assert_eq!(ensure_zip_extension("pack"), "pack.zip");
    assert_eq!(ensure_zip_extension("pack.zip"), "pack.zip");
}

#[test]
fn test_add_element_plan() {
    let r = plan_add("function", "magic", "spells/cast", false, false, false).unwrap();
    match r {
        AddOutcome::Write(path, content) => {
            assert_eq!(path, "data/magic/function/spells/cast.mcfunction");
            assert_eq!(content, "");
        },
        AddOutcome::Skipped => panic!("expected a write"),
    }
}

#[test]
fn test_add_element_overwrite_declined() {
    // an existing target without force and without consent is skipped, not an error
    let r = plan_add("recipe", "magic", "stew", true, false, false).unwrap();
    assert!(matches!(r, AddOutcome::Skipped));
}

#[test]
fn test_add_element_overwrite_allowed() {
    let r = plan_add("recipe", "magic", "stew", true, true, false).unwrap();
    assert!(matches!(r, AddOutcome::Write(_, _)));
    let r = plan_add("recipe", "magic", "stew", true, false, true).unwrap();
    match r {
        AddOutcome::Write(path, content) => {
            assert_eq!(path, "data/magic/recipe/stew.json");
            assert_eq!(content, "{\n  \"type\": \"\"\n}");
        },
        AddOutcome::Skipped => panic!("expected a write"),
    }
}

#[test]
fn test_add_element_invalid_type() {
    let r = plan_add("shrine", "magic", "x", false, false, false);
    assert!(matches!(r, Err(AddError::InvalidElementType)));
}
