use mm_installer::config::{ModEntry, ModLoader, ResourceEntry, SideType, SourceType};
use mm_installer::ledger::{
    mod_key, resource_key, InstallerState, ModLoaderState, ModState, ResourceState,
};
use mm_installer::version::Version;

fn v(major: u64, minor: u64, patch: u64) -> Version {
    Version { major, minor, patch }
}

fn direct(url: &str) -> SourceType {
    SourceType::Direct { url: url.to_string() }
}

fn mod_state(url: &str, hash: &str) -> ModState {
    ModState { file_name: "f.jar".to_string(), source: direct(url), hash: hash.to_string() }
}

fn mod_entry(url: &str, hash: &str) -> ModEntry {
    ModEntry {
        name: "m".to_string(),
        source: direct(url),
        hash: hash.to_string(),
        side: SideType::Both,
    }
}

fn resource_state(url: &str, hash: &str, dir: &str) -> ResourceState {
    ResourceState {
        file_name: "r.zip".to_string(),
        source: direct(url),
        hash: hash.to_string(),
        target_dir: dir.to_string(),
        decompress: false,
    }
}

#[test]
fn canonical_keys() {
    assert_eq!(mod_key(&SourceType::Curseforge { project_id: 7, file_id: 31 }), "cf:7:31");
    assert_eq!(mod_key(&direct("https://e/x.jar")), "direct:https://e/x.jar");
    let (k, d) = resource_key(&direct("u"), "packs");
    assert_eq!(k, "direct:u");
    assert_eq!(d, "packs");
}

#[test]
fn lookup_by_source_identity() {
    let mut state = InstallerState::new(&v(1, 0, 0));
    state.add_mod(mod_state("https://e/a.jar", "aa"));
    state.add_mod(mod_state("https://e/b.jar", "bb"));
    let found = state.get_mod(&mod_entry("https://e/b.jar", "bb")).unwrap();
    assert_eq!(found.hash, "bb");
    assert!(state.get_mod(&mod_entry("https://e/c.jar", "cc")).is_none());
}

#[test]
fn drifted_mod_record_is_replaced_in_place() {
    let mut state = InstallerState::new(&v(1, 0, 0));
    state.add_mod(mod_state("https://e/a.jar", "aa"));
    state.add_mod(mod_state("https://e/b.jar", "bb"));
    state.add_mod(mod_state("https://e/a.jar", "a2"));
    assert_eq!(state.mods.len(), 2);
    assert_eq!(state.mods[0].hash, "a2");
    assert_eq!(state.mods[1].hash, "bb");
}

#[test]
fn resources_are_keyed_by_source_and_target_dir() {
    let mut state = InstallerState::new(&v(1, 0, 0));
    state.add_resource(resource_state("https://e/r.zip", "aa", "packs"));
    state.add_resource(resource_state("https://e/r.zip", "aa", "shaders"));
    assert_eq!(state.resources.len(), 2);
    state.add_resource(resource_state("https://e/r.zip", "a2", "packs"));
    assert_eq!(state.resources.len(), 2);
    assert_eq!(state.resources[0].hash, "a2");
    assert_eq!(state.resources[1].hash, "aa");
}

#[test]
fn loader_record_is_replaced_whole() {
    let mut state = InstallerState::new(&v(1, 0, 0));
    assert!(state.get_mod_loader().is_none());
    state.set_mod_loader(ModLoaderState {
        file_name: "l.jar".to_string(),
        url: "https://e/l.jar".to_string(),
        hash: "aa".to_string(),
    });
    assert_eq!(state.get_mod_loader().unwrap().hash, "aa");
}

#[test]
fn version_marker_moves_forward_only() {
    let mut state = InstallerState::new(&v(1, 2, 3));
    state.migrate_version(&v(1, 4, 0));
    assert_eq!(state.installer_version, v(1, 4, 0));
    state.migrate_version(&v(1, 0, 0));
    assert_eq!(state.installer_version, v(1, 4, 0));
}

#[test]
fn record_equals_requires_source_and_hash() {
    let rec = mod_state("https://e/a.jar", "aa");
    assert!(rec.equals(&mod_entry("https://e/a.jar", "aa")));
    assert!(!rec.equals(&mod_entry("https://e/a.jar", "a2")));
    assert!(!rec.equals(&mod_entry("https://e/b.jar", "aa")));

    let loader = ModLoaderState {
        file_name: "l.jar".to_string(),
        url: "https://e/l.jar".to_string(),
        hash: "aa".to_string(),
    };
    let config = ModLoader {
        name: "loader".to_string(),
        url: "https://e/l.jar".to_string(),
        hash: "aa".to_string(),
        auto_open: false,
    };
    assert!(loader.equals(&config));

    let res = resource_state("https://e/r.zip", "aa", "packs");
    let entry = ResourceEntry {
        name: "r".to_string(),
        source: direct("https://e/r.zip"),
        hash: "aa".to_string(),
        target_dir: "packs".to_string(),
        decompress: false,
        side: SideType::Both,
    };
    assert!(res.equals(&entry));
}
