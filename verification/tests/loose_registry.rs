use systemg::error::{Fault, FaultKind};
use systemg::loose_registry::{
    registry_path, temp_name, LooseEntry, LooseRegistry, RegistryError, RegistryFile,
    REGISTRY_FILE_NAME, REGISTRY_VERSION,
};
use systemg::names::NameMap;
use systemg::status::ProjectRunMode;

fn entry(id: &str, path: &str) -> LooseEntry {
    LooseEntry {
        config_path: path.to_string(),
        project_id: id.to_string(),
        mode: ProjectRunMode::Daemon,
    }
}

#[test]
fn absent_registry_loads_empty() {
    let registry = LooseRegistry::load(RegistryFile::Absent).ok().unwrap();
    assert_eq!(registry.entries().len(), 0);
    assert_eq!(registry.version, REGISTRY_VERSION);
}

#[test]
fn entries_are_listed_by_project() {
    let mut registry = LooseRegistry::empty();
    registry.insert(entry("z", "/a"));
    registry.insert(entry("a", "/b"));
    registry.insert(entry("m", "/d"));
    registry.insert(entry("m", "/c"));
    let listed: Vec<(&str, &str)> = registry
        .entries()
        .iter()
        .map(|e| (e.project_id.as_str(), e.config_path.as_str()))
        .collect();
    assert_eq!(listed, vec![("a", "/b"), ("m", "/c"), ("m", "/d"), ("z", "/a")]);
}

#[test]
fn entries_come_back_in_order() {
    let mut registry = LooseRegistry::empty();
    registry.insert(entry("ngrok-tunnel-8d7b", "/units/ngrok-tunnel-8d7b.yaml"));
    registry.insert(entry("gamecast-tunnel-3a2a", "/units/gamecast-tunnel-3a2a.yaml"));
    let loaded = LooseRegistry::load(RegistryFile::Read(registry)).ok().unwrap();
    let ids: Vec<&str> = loaded.entries().iter().map(|e| e.project_id.as_str()).collect();
    assert_eq!(ids, vec!["gamecast-tunnel-3a2a", "ngrok-tunnel-8d7b"]);
}

#[test]
fn saved_manifests_come_back() {
    let mut registry = LooseRegistry::empty();
    registry.insert(entry("z", "/a"));
    registry.insert(entry("a", "/b"));
    let records = registry.records();
    assert_eq!(records.iter().map(|r| r.path.as_str()).collect::<Vec<_>>(), vec!["/a", "/b"]);
    let back = LooseRegistry::from_records(registry.version, records);
    let back = LooseRegistry::load(RegistryFile::Read(back)).ok().unwrap();
    assert_eq!(back.version, registry.version);
    assert_eq!(back.entries(), registry.entries());
    assert_eq!(back.records(), registry.records());
}

#[test]
fn many_loose_manifests_coexist() {
    let mut registry = LooseRegistry::empty();
    for i in 0..8 {
        registry.insert(entry(&format!("unit-{i}"), &format!("/units/unit-{i}.yaml")));
    }
    assert_eq!(registry.entries().len(), 8);
}

#[test]
fn sibling_units_sharing_a_stem_each_keep_a_slot() {
    // The three gamecast-tunnel units must occupy three registry slots, not one.
    let mut registry = LooseRegistry::empty();
    for hash in ["3a2a1f8c6425", "5a9ce32857ea", "6df683933138"] {
        registry.insert(entry(
            &format!("gamecast-tunnel-{hash}-deadbeefdeadbeef"),
            &format!("/units/gamecast-tunnel-{hash}.yaml"),
        ));
    }
    assert_eq!(registry.entries().len(), 3);
}

#[test]
fn reinserting_the_same_path_replaces_rather_than_duplicates() {
    let mut registry = LooseRegistry::empty();
    registry.insert(entry("unit", "/units/unit.yaml"));
    registry.insert(entry("unit", "/units/unit.yaml"));
    assert_eq!(registry.entries().len(), 1);
}

#[test]
fn two_paths_sharing_a_filename_do_not_share_a_slot() {
    let mut registry = LooseRegistry::empty();
    registry.insert(entry("svc-aaaa", "/a/svc.yaml"));
    registry.insert(entry("svc-bbbb", "/b/svc.yaml"));
    assert_eq!(registry.entries().len(), 2);
}

#[test]
fn remove_reports_whether_an_entry_was_present() {
    let mut registry = LooseRegistry::empty();
    registry.insert(entry("unit", "/units/unit.yaml"));
    assert!(registry.remove("/units/unit.yaml"));
    assert!(!registry.remove("/units/unit.yaml"));
}

#[test]
fn entries_are_addressable_by_derived_project_id() {
    let mut registry = LooseRegistry::empty();
    registry.insert(entry("unit-abcd", "/units/unit.yaml"));
    assert_eq!(
        registry.by_project("unit-abcd").map(|e| e.config_path.as_str()),
        Some("/units/unit.yaml")
    );
    assert!(registry.by_project("missing").is_none());
    assert!(registry.remove_project("unit-abcd"));
    assert!(!registry.remove_project("unit-abcd"));
}

#[test]
fn a_malformed_registry_is_an_error_not_an_empty_overwrite() {
    let why = serde_json::from_slice::<serde_json::Value>(b"{ not json").unwrap_err().to_string();
    assert!(matches!(
        LooseRegistry::load(RegistryFile::Malformed(why)),
        Err(RegistryError::Malformed(_))
    ));
}

#[test]
fn a_future_version_is_an_error_rather_than_being_misparsed() {
    let found = LooseRegistry { version: 999, entries: NameMap::new() };
    assert!(matches!(
        LooseRegistry::load(RegistryFile::Read(found)),
        Err(RegistryError::UnsupportedVersion(999))
    ));
}

#[test]
fn an_unreadable_registry_is_told() {
    let fault = Fault { kind: FaultKind::Other, message: "denied".to_string() };
    let err = LooseRegistry::load(RegistryFile::Unreadable(fault)).err().unwrap();
    assert!(err.message().contains("denied"));
    assert_eq!(registry_path("/s"), format!("/s/{REGISTRY_FILE_NAME}"));
    assert_eq!(temp_name(REGISTRY_FILE_NAME, 7), ".loose_registry.json.7.tmp");
    assert_ne!(temp_name(REGISTRY_FILE_NAME, 7), temp_name(REGISTRY_FILE_NAME, 71));
}
