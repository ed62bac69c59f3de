use mm_installer::config::{
    validate_relative_dir, ModEntry, ModLoader, ModPackConfig, Profile, ResourceEntry, SideType,
    SourceType,
};
use mm_installer::error::InstallError;
use mm_installer::version::Version;

fn sample_profile() -> Profile {
    Profile {
        name: "Sample Pack".to_string(),
        icon: "Furnace".to_string(),
        version: "1.20.1".to_string(),
        jvm_args: None,
    }
}

fn sample_loader() -> ModLoader {
    ModLoader {
        name: "loader".to_string(),
        url: "https://example.com/loader.jar".to_string(),
        hash: "aa".to_string(),
        auto_open: false,
    }
}

fn sample_config() -> ModPackConfig {
    ModPackConfig {
        schema_version: 2,
        pack_version: Version { major: 1, minor: 0, patch: 0 },
        profile: sample_profile(),
        mod_loader: sample_loader(),
        mods: vec![],
        resources: vec![],
    }
}

fn resource(target_dir: &str) -> ResourceEntry {
    ResourceEntry {
        name: "res".to_string(),
        source: SourceType::Direct { url: "https://example.com/r.zip".to_string() },
        hash: "bb".to_string(),
        target_dir: target_dir.to_string(),
        decompress: false,
        side: SideType::Both,
    }
}

#[test]
fn valid_manifest_accepted() {
    let config = sample_config();
    assert!(config.validate().is_ok());
}

#[test]
fn newer_schema_version_rejected() {
    let mut config = sample_config();
    config.schema_version = 3;
    let err = config.validate().unwrap_err();
    assert!(matches!(err, InstallError::Validation { .. }));
}

#[test]
fn blank_profile_name_rejected() {
    let mut config = sample_config();
    config.profile.name = "   ".to_string();
    assert!(config.validate().is_err());
}

#[test]
fn blank_profile_version_rejected() {
    let mut config = sample_config();
    config.profile.version = "\t".to_string();
    assert!(config.validate().is_err());
}

#[test]
fn parent_traversal_target_dir_rejected() {
    let mut config = sample_config();
    config.resources.push(resource("../../etc"));
    let err = config.validate().unwrap_err();
    assert!(matches!(err, InstallError::Validation { .. }));
}

#[test]
fn backslash_target_dir_rejected() {
    let mut config = sample_config();
    config.resources.push(resource("resourcepacks\\evil"));
    assert!(config.validate().is_err());
}

#[test]
fn absolute_target_dir_rejected() {
    assert!(validate_relative_dir("/etc", "resources.targetDir").is_err());
}

#[test]
fn drive_colon_target_dir_rejected() {
    assert!(validate_relative_dir("C:stuff", "resources.targetDir").is_err());
}

#[test]
fn plain_relative_target_dir_accepted() {
    assert!(validate_relative_dir("resourcepacks/extra", "resources.targetDir").is_ok());
    assert!(validate_relative_dir("./shaderpacks", "resources.targetDir").is_ok());
    assert!(validate_relative_dir("a..b/c", "resources.targetDir").is_ok());
}

#[test]
fn dotdot_in_middle_rejected() {
    assert!(validate_relative_dir("a/../b", "resources.targetDir").is_err());
    assert!(validate_relative_dir("..", "resources.targetDir").is_err());
}

#[test]
fn curseforge_download_url_formatted() {
    let source = SourceType::Curseforge { project_id: 238222, file_id: 4965798 };
    assert_eq!(
        source.get_download_url(),
        "https://www.curseforge.com/api/v1/mods/238222/files/4965798/download"
    );
}

#[test]
fn direct_download_url_verbatim() {
    let source = SourceType::Direct { url: "https://example.com/m.jar".to_string() };
    assert_eq!(source.get_download_url(), "https://example.com/m.jar");
}

#[test]
fn mod_entry_validation_is_permissive() {
    let entry = ModEntry {
        name: "m".to_string(),
        source: SourceType::Direct { url: "u".to_string() },
        hash: "cc".to_string(),
        side: SideType::Client,
    };
    assert!(entry.validate().is_ok());
}

#[test]
fn version_parse_basic() {
    assert_eq!(Version::parse("1.2.3").unwrap(), Version { major: 1, minor: 2, patch: 3 });
    assert_eq!(Version::parse("0.0.0").unwrap(), Version { major: 0, minor: 0, patch: 0 });
}

#[test]
fn version_parse_rejects_bad_shapes() {
    assert!(Version::parse("1.2").is_err());
    assert!(Version::parse("1.2.3.4").is_err());
    assert!(Version::parse("a.b.c").is_err());
    assert!(Version::parse("1..3").is_err());
    assert!(Version::parse("").is_err());
    assert!(Version::parse("1.2.").is_err());
}

#[test]
fn version_parse_ignores_prerelease_and_build_suffixes() {
    assert_eq!(Version::parse("1.2.3-rc1").unwrap(), Version { major: 1, minor: 2, patch: 3 });
    assert_eq!(Version::parse("1.2.3+build.5").unwrap(), Version { major: 1, minor: 2, patch: 3 });
    assert_eq!(
        Version::parse("1.2.3-alpha.1+42").unwrap(),
        Version { major: 1, minor: 2, patch: 3 }
    );
    assert!(Version::parse("1.2-rc1").is_err());
    assert!(Version::parse("-rc1").is_err());
}

#[test]
fn version_parse_rejects_overflow() {
    assert!(Version::parse("99999999999999999999.0.0").is_err());
}

#[test]
fn version_render_round_trip() {
    let v = Version { major: 10, minor: 20, patch: 30 };
    assert_eq!(v.render(), "10.20.30");
    assert_eq!(Version::parse(&v.render()).unwrap(), v);
}

#[test]
fn version_ordering() {
    let a = Version { major: 1, minor: 2, patch: 3 };
    let b = Version { major: 1, minor: 3, patch: 0 };
    assert!(a.is_older_than(&b));
    assert!(!b.is_older_than(&a));
    assert!(!a.is_older_than(&a));
}
