use mm_installer::config::Profile;
use mm_installer::error::InstallError;
use mm_installer::launcher::{
    backup_extension, build_profile, has_jar_extension, order_runtime_dirs, select_jar,
    LauncherProfile, LauncherProfiles,
};
use mm_installer::resolver::{Modrinth, ModrinthFile, ModrinthVersion};

fn profile_named(name: &str) -> LauncherProfile {
    build_profile(
        &Profile {
            name: name.to_string(),
            icon: "Furnace".to_string(),
            version: "1.20.1".to_string(),
            jvm_args: None,
        },
        "game",
        1700000000000,
    )
}

#[test]
fn built_profile_carries_manifest_metadata() {
    let p = Profile {
        name: "Pack".to_string(),
        icon: "Grass".to_string(),
        version: "1.20.1".to_string(),
        jvm_args: Some("-Xmx4G".to_string()),
    };
    let r = build_profile(&p, "install/here", 1700000000123);
    assert_eq!(r.created, Some(1700000000123));
    assert_eq!(r.last_used, Some(1700000000123));
    assert_eq!(r.game_dir.as_deref(), Some("install/here"));
    assert_eq!(r.icon, "Grass");
    assert_eq!(r.java_args.as_deref(), Some("-Xmx4G"));
    assert_eq!(r.last_version_id, "1.20.1");
    assert_eq!(r.name, "Pack");
    assert_eq!(r.profile_type, "custom");
    assert!(r.java_dir.is_none());
    assert!(r.resolution.is_none());
    assert!(r.skip_jre_version_check.is_none());
}

#[test]
fn existing_profile_name_is_detected() {
    let profiles = LauncherProfiles {
        profiles: vec![
            ("id1".to_string(), profile_named("Other")),
            ("id2".to_string(), profile_named("Pack")),
        ],
        version: 3,
    };
    assert!(profiles.has_profile_named("Pack"));
    assert!(!profiles.has_profile_named("Missing"));
}

#[test]
fn inserting_a_duplicate_profile_id_is_refused() {
    let mut profiles = LauncherProfiles {
        profiles: vec![("id1".to_string(), profile_named("Other"))],
        version: 3,
    };
    assert!(profiles.insert_profile("id2".to_string(), profile_named("Pack")).is_ok());
    assert_eq!(profiles.profiles.len(), 2);
    let err = profiles.insert_profile("id1".to_string(), profile_named("Again")).unwrap_err();
    assert!(matches!(err, InstallError::Io { .. }));
    assert_eq!(profiles.profiles.len(), 2);
}

#[test]
fn backup_extensions_are_numbered() {
    assert_eq!(backup_extension(0), "json.bak");
    assert_eq!(backup_extension(1), "json.bak1");
    assert_eq!(backup_extension(12), "json.bak12");
}

#[test]
fn jar_files_are_recognized_case_insensitively() {
    assert!(has_jar_extension("forge-installer.jar"));
    assert!(has_jar_extension("FORGE.JAR"));
    assert!(has_jar_extension("a.b.Jar"));
    assert!(!has_jar_extension("readme.txt"));
    assert!(!has_jar_extension("jar"));
    assert!(!has_jar_extension("archive.jarx"));
}

#[test]
fn first_jar_is_selected() {
    let names = vec![
        "readme.txt".to_string(),
        "forge-installer.JAR".to_string(),
        "second.jar".to_string(),
    ];
    assert_eq!(select_jar(&names), Some(1));
    assert_eq!(select_jar(&vec!["a.txt".to_string()]), None);
}

#[test]
fn runtime_dirs_prefer_newer_format_then_descending_names() {
    let dirs = vec![
        "jre-legacy".to_string(),
        "java-runtime-delta".to_string(),
        "java-runtime-gamma".to_string(),
        "jre-x64".to_string(),
    ];
    let ordered = order_runtime_dirs(dirs);
    assert_eq!(
        ordered,
        vec![
            "java-runtime-gamma".to_string(),
            "java-runtime-delta".to_string(),
            "jre-x64".to_string(),
            "jre-legacy".to_string(),
        ]
    );
}

#[test]
fn modrinth_selects_primary_file() {
    let version = ModrinthVersion {
        project_id: "abc".to_string(),
        files: vec![
            ModrinthFile { url: "https://m/x1.jar".to_string(), primary: false },
            ModrinthFile { url: "https://m/x2.jar".to_string(), primary: true },
        ],
    };
    let (url, ambiguous) = Modrinth::get_download_url("abc", &version).unwrap();
    assert_eq!(url, "https://m/x2.jar");
    assert!(!ambiguous);
}

#[test]
fn modrinth_falls_back_to_first_file_with_warning() {
    let version = ModrinthVersion {
        project_id: "abc".to_string(),
        files: vec![
            ModrinthFile { url: "https://m/x1.jar".to_string(), primary: false },
            ModrinthFile { url: "https://m/x2.jar".to_string(), primary: false },
        ],
    };
    let (url, ambiguous) = Modrinth::get_download_url("abc", &version).unwrap();
    assert_eq!(url, "https://m/x1.jar");
    assert!(ambiguous);
}

#[test]
fn modrinth_rejects_project_mismatch_and_empty_files() {
    let wrong = ModrinthVersion {
        project_id: "zzz".to_string(),
        files: vec![ModrinthFile { url: "https://m/x1.jar".to_string(), primary: true }],
    };
    assert!(matches!(
        Modrinth::get_download_url("abc", &wrong).unwrap_err(),
        InstallError::Integrity { .. }
    ));
    let empty = ModrinthVersion { project_id: "abc".to_string(), files: vec![] };
    assert!(matches!(
        Modrinth::get_download_url("abc", &empty).unwrap_err(),
        InstallError::NoFiles
    ));
}
