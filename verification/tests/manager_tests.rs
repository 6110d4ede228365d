use pdx_mods::component::components_from_files;
use pdx_mods::component::FileEntry;
use pdx_mods::component::FileStruct;
use pdx_mods::manager::meta_from_content;
use pdx_mods::manager::BuildError;
use pdx_mods::manager::Dependency;
use pdx_mods::manager::Module;
use pdx_mods::manager::ModuleManager;
use pdx_mods::meta::ExtractError;
use pdx_mods::meta::Meta;

const P8_INPUT: &str = "name=\"X\"\nversion=\"1.0\"\ndependencies={\n\"Y\"\n}\ntags={\n\"T\"\n}";

#[test]
fn test_manager_add_and_find() {
    let mut manager = ModuleManager::new();
    assert_eq!(manager.module_count(), 0);
    assert!(manager.find_module("m").is_none());
    let meta = Meta::new("m".to_string(), "1".to_string(), "p".to_string(), Vec::new());
    manager.add_module(Module::new(meta, Vec::new(), Vec::new(), true));
    assert_eq!(manager.module_count(), 1);
    let found = manager.find_module("m").unwrap();
    assert_eq!(found.meta.name, "m");
    assert!(found.is_valid);
    assert_eq!(manager.all_modules().len(), 1);
}

#[test]
fn test_missing_dependency_gets_placeholder() {
    let mut manager = ModuleManager::new();
    let meta = Meta::new(
        "X".to_string(),
        "1".to_string(),
        "p".to_string(),
        vec!["Y".to_string()],
    );
    let module = manager.build_module(meta, Some(Vec::new()));
    assert_eq!(module.dependencies, vec![Dependency::new("Y".to_string(), false)]);
    // the placeholder is registered under the dependency's name
    let placeholder = manager.find_module("Y").unwrap();
    assert_eq!(placeholder.meta.name, "Y");
    assert!(!placeholder.is_valid);
    assert!(placeholder.components.is_empty());
    assert!(placeholder.dependencies.is_empty());
    assert_eq!(manager.module_count(), 2);
}

#[test]
fn test_present_dependency_links_to_existing() {
    let mut manager = ModuleManager::new();
    let y_meta = Meta::new("Y".to_string(), "2".to_string(), "py".to_string(), Vec::new());
    manager.build_module(y_meta, Some(Vec::new()));
    let x_meta = Meta::new(
        "X".to_string(),
        "1".to_string(),
        "px".to_string(),
        vec!["Y".to_string()],
    );
    let module = manager.build_module(x_meta, Some(Vec::new()));
    assert_eq!(module.dependencies, vec![Dependency::new("Y".to_string(), true)]);
    // the slot keeps the real module, not a placeholder
    let y = manager.find_module("Y").unwrap();
    assert_eq!(y.meta.version, Some("2".to_string()));
    assert!(y.is_valid);
    assert_eq!(manager.module_count(), 2);
}

#[test]
fn test_same_missing_dependency_twice_single_entry() {
    let mut manager = ModuleManager::new();
    let a = Meta::new("A".to_string(), "1".to_string(), "pa".to_string(), vec!["Y".to_string()]);
    let b = Meta::new("B".to_string(), "1".to_string(), "pb".to_string(), vec!["Y".to_string()]);
    let ma = manager.build_module(a, Some(Vec::new()));
    let mb = manager.build_module(b, Some(Vec::new()));
    assert_eq!(ma.dependencies, vec![Dependency::new("Y".to_string(), false)]);
    // the second build finds the placeholder that the first registered
    assert_eq!(mb.dependencies, vec![Dependency::new("Y".to_string(), true)]);
    assert_eq!(manager.module_count(), 3);
}

#[test]
fn test_duplicate_dependency_names_resolved_once() {
    let mut manager = ModuleManager::new();
    let meta = Meta::new(
        "X".to_string(),
        "1".to_string(),
        "p".to_string(),
        vec!["Y".to_string(), "Y".to_string(), "Z".to_string()],
    );
    let module = manager.build_module(meta, Some(Vec::new()));
    assert_eq!(
        module.dependencies,
        vec![
            Dependency::new("Y".to_string(), false),
            Dependency::new("Z".to_string(), false),
        ]
    );
    assert_eq!(manager.module_count(), 3);
}

#[test]
fn test_failed_scan_degrades_to_invalid() {
    let mut manager = ModuleManager::new();
    let meta = Meta::new("X".to_string(), "1".to_string(), "gone".to_string(), Vec::new());
    let module = manager.build_module(meta, None);
    assert!(!module.is_valid);
    assert!(module.components.is_empty());
    // the module is still registered, metadata only
    let found = manager.find_module("X").unwrap();
    assert!(!found.is_valid);
}

#[test]
fn test_end_to_end_build() {
    let mut manager = ModuleManager::new();
    let meta = meta_from_content(P8_INPUT, "X.mod").unwrap();
    assert_eq!(meta.name, "X");
    assert_eq!(meta.version, Some("1.0".to_string()));
    assert_eq!(meta.dependencies, vec!["Y"]);
    assert_eq!(meta.tags, vec!["T"]);
    let module = manager.build_module(meta, Some(Vec::new()));
    assert!(module.is_valid);
    assert_eq!(module.dependencies, vec![Dependency::new("Y".to_string(), false)]);
    let placeholder = manager.find_module("Y").unwrap();
    assert_eq!(placeholder.meta.name, "Y");
    assert!(!placeholder.is_valid);
}

#[test]
fn test_meta_from_content_errors() {
    match meta_from_content("version=\"1.0\"", "p") {
        Err(BuildError::Extract(ExtractError::MissingName)) => {},
        other => panic!("expected a missing-name failure, got {:?}", other),
    }
    match meta_from_content("name=\"x", "p") {
        Err(BuildError::Parse(_)) => {},
        other => panic!("expected a parse failure, got {:?}", other),
    }
}

#[test]
fn test_components_digest() {
    let files = vec![
        FileEntry {
            name: "a.txt".to_string(),
            relative_path: "a.txt".to_string(),
            content: Some(b"abc".to_vec()),
        },
        FileEntry {
            name: "broken.txt".to_string(),
            relative_path: "broken.txt".to_string(),
            content: None,
        },
        FileEntry {
            name: "b.txt".to_string(),
            relative_path: "sub/b.txt".to_string(),
            content: Some(Vec::new()),
        },
    ];
    let components = components_from_files(&files);
    // the unreadable file is skipped, not fatal to the scan
    assert_eq!(components.len(), 2);
    assert_eq!(components[0].name, "a.txt");
    assert_eq!(
        components[0].hash,
        [
            0x90, 0x01, 0x50, 0x98, 0x3c, 0xd2, 0x4f, 0xb0, 0xd6, 0x96, 0x3f, 0x7d, 0x28, 0xe1,
            0x7f, 0x72,
        ]
    );
    assert_eq!(components[1].relative_path, "sub/b.txt");
    assert_eq!(
        components[1].hash,
        [
            0xd4, 0x1d, 0x8c, 0xd9, 0x8f, 0x00, 0xb2, 0x04, 0xe9, 0x80, 0x09, 0x98, 0xec, 0xf8,
            0x42, 0x7e,
        ]
    );
}

#[test]
fn test_file_struct_hash() {
    let mut file = FileStruct::new(
        "test".to_string(),
        ".".to_string(),
        "Cargo.toml".to_string(),
    );
    assert!(file.hash.is_none());
    file.compute_hash(&b"hello".to_vec());
    assert_eq!(
        file.hash,
        Some(
            [
                0x5d, 0x41, 0x40, 0x2a, 0xbc, 0x4b, 0x2a, 0x76, 0xb9, 0x71, 0x9d, 0x91, 0x10, 0x17,
                0xc5, 0x92,
            ],
        )
    );
}

#[test]
fn test_get_or_insert() {
    let mut manager = ModuleManager::new();
    let placeholder = manager.get_or_insert("Y");
    assert_eq!(placeholder.meta.name, "Y");
    assert!(!placeholder.is_valid);
    assert_eq!(manager.module_count(), 1);
    // a second call finds the same slot and adds nothing
    let again = manager.get_or_insert("Y");
    assert_eq!(again.meta.name, "Y");
    assert_eq!(manager.module_count(), 1);
    // an existing full module is returned as-is
    let meta = Meta::new("X".to_string(), "1".to_string(), "p".to_string(), Vec::new());
    manager.add_module(Module::new(meta, Vec::new(), Vec::new(), true));
    let x = manager.get_or_insert("X");
    assert!(x.is_valid);
    assert_eq!(manager.module_count(), 2);
}
