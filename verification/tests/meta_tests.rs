use pdx_mods::meta::ExtractError;
use pdx_mods::meta::Meta;
use pdx_mods::parser::parse_content;

const DEFINES: &str = "version=\"0.0.1\"\ndependencies={\n\t\"Missions Expanded\"\n}\ntags={\n\t\"Utilities\"\n}\nname=\"defines\"\nsupported_version=\"1.34.5\"\npath=\"C:/Users/actur/Documents/Paradox Interactive/Europa Universalis IV/mod/defines\"";

#[test]
fn test_meta_extract_descriptor() {
    let entries = parse_content(DEFINES).unwrap();
    let meta = Meta::extract(&entries, "fallback.mod").unwrap();
    assert_eq!(meta.name, "defines");
    assert_eq!(meta.version, Some("0.0.1".to_string()));
    assert_eq!(meta.dependencies, vec!["Missions Expanded"]);
    assert_eq!(meta.tags, vec!["Utilities"]);
    assert_eq!(
        meta.local_path,
        "C:/Users/actur/Documents/Paradox Interactive/Europa Universalis IV/mod/defines"
    );
    assert_eq!(meta.remote_file_id, None);
}

#[test]
fn test_meta_extract_missing_name() {
    let entries = parse_content("version=\"1.0\"").unwrap();
    assert_eq!(Meta::extract(&entries, "p"), Err(ExtractError::MissingName));
}

#[test]
fn test_meta_extract_non_string_name() {
    let entries = parse_content("name=12").unwrap();
    assert_eq!(Meta::extract(&entries, "p"), Err(ExtractError::MissingName));
}

#[test]
fn test_meta_extract_invalid_tag() {
    let entries = parse_content("name=\"x\"\ntags={\n1\n}").unwrap();
    assert_eq!(Meta::extract(&entries, "p"), Err(ExtractError::InvalidTag));
}

#[test]
fn test_meta_extract_drops_non_string_dependency() {
    // non-string dependency elements are dropped silently, unlike tags
    let entries = parse_content("name=\"x\"\ndependencies={\n\"a\"\n7\n\"b\"\n}").unwrap();
    let meta = Meta::extract(&entries, "p").unwrap();
    assert_eq!(meta.dependencies, vec!["a", "b"]);
}

#[test]
fn test_meta_extract_defaults() {
    let entries = parse_content("name=\"bare\"").unwrap();
    let meta = Meta::extract(&entries, "some/dir/bare.mod").unwrap();
    assert_eq!(meta.name, "bare");
    assert_eq!(meta.version, None);
    assert_eq!(meta.local_path, "some/dir/bare.mod");
    assert!(meta.dependencies.is_empty());
    assert!(meta.tags.is_empty());
    assert_eq!(meta.remote_file_id, None);
}

#[test]
fn test_meta_extract_remote_file_id() {
    let entries = parse_content("name=\"x\"\nremote_file_id=\"2636386736\"").unwrap();
    let meta = Meta::extract(&entries, "p").unwrap();
    assert_eq!(meta.remote_file_id, Some("2636386736".to_string()));
}

#[test]
fn test_meta_new() {
    let meta = Meta::new(
        "n".to_string(),
        "1.0".to_string(),
        "path".to_string(),
        vec!["d".to_string()],
    );
    assert_eq!(meta.name, "n");
    assert_eq!(meta.version, Some("1.0".to_string()));
    assert_eq!(meta.local_path, "path");
    assert_eq!(meta.dependencies, vec!["d"]);
    assert!(meta.tags.is_empty());
    assert_eq!(meta.remote_file_id, None);
}
