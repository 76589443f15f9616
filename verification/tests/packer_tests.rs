use engine_core::packer::{source_kind, subdirectory_name, SourceKind};
use engine_core::packer::{
    packed_file_path, packed_hashed_name, resource_key, split_file_name, PackLog,
};
use std::collections::hash_map::DefaultHasher;
use std::hash::{Hash, Hasher};

fn record(hashed: u64, time: u64) -> Vec<u8> {
    let mut v = hashed.to_le_bytes().to_vec();
    v.extend_from_slice(&time.to_le_bytes());
    v
}

#[test]
fn log_is_read_record_by_record() {
    let mut bytes = record(5, 100);
    bytes.extend(record(6, 200));
    bytes.extend(record(5, 300));
    let log = PackLog::parse(&bytes).unwrap();
    assert!(!log.needs_packing(5, 300));
    assert!(log.needs_packing(5, 301));
    assert!(!log.needs_packing(6, 150));
    assert!(log.needs_packing(7, 0));
}

#[test]
fn log_ignores_a_partial_name_but_refuses_a_missing_timestamp() {
    let mut bytes = record(1, 2);
    bytes.extend_from_slice(&[1, 2, 3]);
    assert!(PackLog::parse(&bytes).is_some());
    let mut bytes = record(1, 2);
    bytes.extend_from_slice(&9u64.to_le_bytes());
    assert!(PackLog::parse(&bytes).is_none());
    assert!(PackLog::parse(&[]).is_some());
}

#[test]
fn log_written_then_read_gives_back_the_timestamps() {
    let mut log = PackLog::new();
    log.record(10, 1000);
    log.record(20, 2000);
    log.record(10, 3000);
    let bytes = log.to_bytes();
    assert_eq!(bytes.len(), 32);
    let back = PackLog::parse(&bytes).unwrap();
    assert!(!back.needs_packing(10, 3000));
    assert!(back.needs_packing(10, 3001));
    assert!(!back.needs_packing(20, 2000));
}

#[test]
fn log_forgets_resources_that_are_gone() {
    let mut log = PackLog::new();
    log.record(1, 1);
    log.record(2, 2);
    log.record(3, 3);
    let mut stale = log.retain_present(&vec![2, 9]);
    stale.sort();
    assert_eq!(stale, vec![1, 3]);
    assert!(log.needs_packing(1, 0));
    assert!(!log.needs_packing(2, 2));
    assert_eq!(log.to_bytes().len(), 16);
}

#[test]
fn file_names_split_at_the_first_dot() {
    let (name, ext) = split_file_name("terrain.vrsh.glsl");
    assert_eq!(name, "terrain");
    assert_eq!(ext, "vrsh.glsl");
    let (name, ext) = split_file_name("README");
    assert_eq!(name, "README");
    assert_eq!(ext, "");
}

#[test]
fn resource_keys_and_packed_paths() {
    assert_eq!(resource_key("shaders\\", "sky", "frsh.glsl"), "shaders\\sky.frsh.glsl");
    assert_eq!(resource_key("", "x", ""), "x.");
    assert_eq!(packed_file_path("out\\", 0), "out\\0.pkg");
    assert_eq!(packed_file_path("out\\", 18446744073709551615), "out\\18446744073709551615.pkg");
}

#[test]
fn packed_names_hash_the_key_with_the_default_hasher() {
    let mut h = DefaultHasher::new();
    "shaders\\sky.frsh.glsl".hash(&mut h);
    assert_eq!(packed_hashed_name("shaders\\", "sky", "frsh.glsl"), h.finish());
    assert_ne!(
        packed_hashed_name("shaders\\", "sky", "frsh.glsl"),
        packed_hashed_name("shaders\\", "sky", "vrsh.glsl")
    );
}

#[test]
fn a_recorded_resource_is_repacked_only_once_modified() {
    let mut log = PackLog::new();
    log.record(42, 500);
    assert!(!log.needs_packing(42, 499));
    assert!(!log.needs_packing(42, 500));
    assert!(log.needs_packing(42, 501));
}

#[test]
fn source_kinds_follow_extensions() {
    assert_eq!(source_kind("vrsh.glsl"), SourceKind::Shader);
    assert_eq!(source_kind("func.glsl"), SourceKind::Shader);
    assert_eq!(source_kind("mdl3d"), SourceKind::Model);
    assert_eq!(source_kind("png"), SourceKind::Texture);
    assert_eq!(source_kind("font"), SourceKind::Font);
    assert_eq!(source_kind("txt"), SourceKind::Unknown);
}

#[test]
fn subdirectories_are_named_as_the_packer_names_them() {
    let root = "C:\\p\\resources\\resources\\";
    let cases = [
        ("C:\\p\\resources\\resources\\shaders\\sky.frsh.glsl", "sky.frsh.glsl"),
        ("C:\\p\\resources\\resources\\grass.png", "grass.png"),
        ("C:\\p\\resources\\resources\\a\\b.png\\b.png", "b.png"),
        ("elsewhere\\x.png", "x.png"),
    ];
    for (path, file) in cases {
        let expected = path.split(root).nth(1).map(|rest| rest.replace(file, ""));
        assert_eq!(subdirectory_name(path, root, file), expected);
    }
    assert_eq!(subdirectory_name("C:\\p\\resources\\resources\\shaders\\sky.frsh.glsl", root, "sky.frsh.glsl"), Some("shaders\\".to_string()));
    // An empty folder splits before each character.
    assert_eq!(subdirectory_name("abc", "", ""), "abc".split("").nth(1).map(|s| s.to_string()));
    assert_eq!(subdirectory_name("", "", ""), "".split("").nth(1).map(|s| s.to_string()));
}
