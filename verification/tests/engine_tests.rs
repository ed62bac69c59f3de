use mm_installer::commands::{initialize_title, select_mode, AppState, InstallerMode};
use mm_installer::config::{ModEntry, ModLoader, ModPackConfig, Profile, ResourceEntry, SideType,
    SourceType};
use mm_installer::download::DownloadProgress;
use mm_installer::error::InstallError;
use mm_installer::hashing::sha1_hex;
use mm_installer::install::{downloads_needed, Action, Installer, InstallerEvent, Outcome, Phase,
    PROGRESS_SCALE};
use mm_installer::ledger::InstallerState;
use mm_installer::version::Version;

fn sample_config(auto_open: bool) -> ModPackConfig {
    ModPackConfig {
        schema_version: 2,
        pack_version: Version { major: 1, minor: 0, patch: 0 },
        profile: Profile {
            name: "Pack".to_string(),
            icon: "Furnace".to_string(),
            version: "1.20.1".to_string(),
            jvm_args: None,
        },
        mod_loader: ModLoader {
            name: "loader".to_string(),
            url: "https://e/loader.jar".to_string(),
            hash: sha1_hex(b"loader"),
            auto_open,
        },
        mods: vec![
            ModEntry {
                name: "alpha".to_string(),
                source: SourceType::Direct { url: "https://e/alpha.jar".to_string() },
                hash: sha1_hex(b"alpha"),
                side: SideType::Both,
            },
            ModEntry {
                name: "beta".to_string(),
                source: SourceType::Curseforge { project_id: 9, file_id: 77 },
                hash: sha1_hex(b"beta"),
                side: SideType::Both,
            },
        ],
        resources: vec![ResourceEntry {
            name: "pack".to_string(),
            source: SourceType::Direct { url: "https://e/pack.zip".to_string() },
            hash: sha1_hex(b"pack"),
            target_dir: "resourcepacks".to_string(),
            decompress: false,
        side: SideType::Both,
        }],
    }
}

/// Drives a run to its end, answering every fetch from `served`: a list of
/// (url, file name, content bytes). Returns the number of fetches performed,
/// or the error that ended the run.
fn drive(engine: &mut Installer, served: &[(&str, &str, &[u8])]) -> Result<usize, InstallError> {
    let mut fetches = 0usize;
    let mut outcome = Outcome::Start;
    loop {
        let action = engine.advance(outcome)?;
        outcome = match action {
            Action::Proceed => Outcome::Proceed,
            Action::PrepareTempDir { .. } => Outcome::Prepared,
            Action::FetchArtifact { url, .. } => {
                fetches += 1;
                let (_u, name, body) = served
                    .iter()
                    .find(|(u, _, _)| *u == url)
                    .unwrap_or_else(|| panic!("unexpected fetch of {}", url));
                engine.on_chunk(DownloadProgress {
                    received_bytes: body.len() as u64 / 2,
                    total_bytes: Some(body.len() as u64),
                });
                Outcome::Fetched { file_name: name.to_string(), hash: sha1_hex(body) }
            }
            Action::PlaceFile { .. } => Outcome::Placed,
            Action::PersistLedger => Outcome::Persisted,
            Action::AddLauncherProfile => Outcome::ProfileHandled { ok: true },
            Action::LaunchModLoader => Outcome::LaunchHandled { ok: true },
            Action::Finished => return Ok(fetches),
        };
    }
}

fn served() -> Vec<(&'static str, &'static str, &'static [u8])> {
    vec![
        ("https://e/loader.jar", "loader.jar", b"loader" as &[u8]),
        ("https://e/alpha.jar", "alpha.jar", b"alpha"),
        ("https://www.curseforge.com/api/v1/mods/9/files/77/download", "beta.jar", b"beta"),
        ("https://e/pack.zip", "pack.zip", b"pack"),
    ]
}

fn progress_values(engine: &Installer) -> Vec<(u64, u64)> {
    engine
        .events
        .iter()
        .filter_map(|e| match e {
            InstallerEvent::UpdateProgress { progress } => {
                Some((progress.units, progress.total_units))
            }
            _ => None,
        })
        .collect()
}

#[test]
fn phases_are_emitted_in_order() {
    let config = sample_config(true);
    let ledger = InstallerState::new(&Version { major: 1, minor: 0, patch: 0 });
    let mut engine = Installer::new(config, ledger, "game".to_string(), "game/.temp".to_string());
    drive(&mut engine, &served()).unwrap();
    let phases: Vec<Phase> = engine
        .events
        .iter()
        .filter_map(|e| match e {
            InstallerEvent::ChangePhase { phase } => Some(*phase),
            _ => None,
        })
        .collect();
    assert_eq!(
        phases,
        vec![
            Phase::DownloadModLoader,
            Phase::DownloadMods,
            Phase::DownloadResources,
            Phase::AddProfile,
            Phase::LaunchModLoader,
        ]
    );

    let mut quiet = Installer::new(
        sample_config(false),
        InstallerState::new(&Version { major: 1, minor: 0, patch: 0 }),
        "game".to_string(),
        "game/.temp".to_string(),
    );
    drive(&mut quiet, &served()).unwrap();
    let quiet_phases: Vec<Phase> = quiet
        .events
        .iter()
        .filter_map(|e| match e {
            InstallerEvent::ChangePhase { phase } => Some(*phase),
            _ => None,
        })
        .collect();
    assert_eq!(
        quiet_phases,
        vec![
            Phase::DownloadModLoader,
            Phase::DownloadMods,
            Phase::DownloadResources,
            Phase::AddProfile,
        ]
    );
}

#[test]
fn chunk_reports_emit_windowed_progress() {
    let config = sample_config(false);
    let ledger = InstallerState::new(&Version { major: 1, minor: 0, patch: 0 });
    let mut engine = Installer::new(config, ledger, "game".to_string(), "game/.temp".to_string());
    // Walk to the first fetch (the loader, entry 0).
    let mut outcome = Outcome::Start;
    loop {
        match engine.advance(outcome).unwrap() {
            Action::Proceed => outcome = Outcome::Proceed,
            Action::PrepareTempDir { .. } => outcome = Outcome::Prepared,
            Action::FetchArtifact { .. } => break,
            other => panic!("unexpected action {:?}", other),
        }
    }
    let before = engine.events.len();
    engine.on_chunk(DownloadProgress { received_bytes: 50, total_bytes: Some(200) });
    assert_eq!(engine.events.len(), before + 1);
    match &engine.events[before] {
        InstallerEvent::UpdateProgress { progress } => {
            // A quarter of the first of four steps.
            assert_eq!(progress.units, 2500);
            assert_eq!(progress.total_units, 4 * PROGRESS_SCALE);
        }
        other => panic!("expected a progress event, got {:?}", other),
    }
    // An unknown total reports nothing.
    let quiet_before = engine.events.len();
    engine.on_chunk(DownloadProgress { received_bytes: 60, total_bytes: None });
    assert_eq!(engine.events.len(), quiet_before);
    // An over-long transfer is clamped to the step's end.
    engine.on_chunk(DownloadProgress { received_bytes: 500, total_bytes: Some(200) });
    match engine.events.last().unwrap() {
        InstallerEvent::UpdateProgress { progress } => assert_eq!(progress.units, PROGRESS_SCALE),
        other => panic!("expected a progress event, got {:?}", other),
    }
}

#[test]
fn full_run_fetches_everything_once() {
    let config = sample_config(false);
    let ledger = InstallerState::new(&Version { major: 1, minor: 0, patch: 0 });
    let mut engine = Installer::new(config, ledger, "game".to_string(), "game/.temp".to_string());
    let n = drive(&mut engine, &served()).unwrap();
    assert_eq!(n, 4);
    assert_eq!(engine.ledger.mods.len(), 2);
    assert_eq!(engine.ledger.resources.len(), 1);
    assert!(engine.ledger.get_mod_loader().is_some());
}

#[test]
fn artifacts_are_placed_at_their_destinations() {
    let config = sample_config(false);
    let ledger = InstallerState::new(&Version { major: 1, minor: 0, patch: 0 });
    let mut engine = Installer::new(config, ledger, "game".to_string(), "game/.temp".to_string());
    let table = served();
    let mut outcome = Outcome::Start;
    let mut placements: Vec<(String, String)> = Vec::new();
    loop {
        let action = engine.advance(outcome).unwrap();
        outcome = match action {
            Action::Proceed => Outcome::Proceed,
            Action::PrepareTempDir { .. } => Outcome::Prepared,
            Action::FetchArtifact { url, .. } => {
                let (_u, name, body) =
                    table.iter().find(|(u, _, _)| *u == url).expect("unexpected fetch");
                Outcome::Fetched { file_name: name.to_string(), hash: sha1_hex(body) }
            }
            Action::PlaceFile { from, to } => {
                placements.push((from, to));
                Outcome::Placed
            }
            Action::PersistLedger => Outcome::Persisted,
            Action::AddLauncherProfile => Outcome::ProfileHandled { ok: true },
            Action::LaunchModLoader => Outcome::LaunchHandled { ok: true },
            Action::Finished => break,
        };
    }
    assert_eq!(
        placements,
        vec![
            ("game/.temp/loader.jar".to_string(), "game/loader.jar".to_string()),
            ("game/.temp/alpha.jar".to_string(), "game/mods/alpha.jar".to_string()),
            ("game/.temp/beta.jar".to_string(), "game/mods/beta.jar".to_string()),
            ("game/.temp/pack.zip".to_string(), "game/resourcepacks/pack.zip".to_string()),
        ]
    );
}

#[test]
fn progress_is_monotone_and_ends_at_one() {
    let config = sample_config(false);
    let ledger = InstallerState::new(&Version { major: 1, minor: 0, patch: 0 });
    let mut engine = Installer::new(config, ledger, "game".to_string(), "game/.temp".to_string());
    drive(&mut engine, &served()).unwrap();
    let values = progress_values(&engine);
    assert!(!values.is_empty());
    assert_eq!(values[0].0, 0);
    for w in values.windows(2) {
        assert!(w[0].0 <= w[1].0, "progress went backwards: {:?}", w);
    }
    let (last_units, total_units) = *values.last().unwrap();
    assert_eq!(total_units, 4 * PROGRESS_SCALE);
    assert_eq!(last_units, total_units);
}

#[test]
fn second_run_downloads_nothing_and_keeps_ledger() {
    let config = sample_config(false);
    let ledger = InstallerState::new(&Version { major: 1, minor: 0, patch: 0 });
    let mut first = Installer::new(config, ledger, "game".to_string(), "game/.temp".to_string());
    drive(&mut first, &served()).unwrap();

    let ledger_after = first.ledger.clone();
    assert!(downloads_needed(&first.config, &first.ledger).is_empty());
    let mut second = Installer::new(
        sample_config(false),
        first.ledger,
        "game".to_string(),
        "game/.temp".to_string(),
    );
    let n = drive(&mut second, &served()).unwrap();
    assert_eq!(n, 0);
    assert_eq!(second.ledger.mods.len(), ledger_after.mods.len());
    assert_eq!(second.ledger.resources.len(), ledger_after.resources.len());
    for (a, b) in second.ledger.mods.iter().zip(ledger_after.mods.iter()) {
        assert_eq!(a.hash, b.hash);
        assert_eq!(a.file_name, b.file_name);
    }
}

#[test]
fn interrupted_run_resumes_with_remaining_entries() {
    let config = sample_config(false);
    let ledger = InstallerState::new(&Version { major: 1, minor: 0, patch: 0 });
    let mut first = Installer::new(config, ledger, "game".to_string(), "game/.temp".to_string());

    // Simulate a crash after two artifacts were persisted: stop feeding
    // outcomes after the second PersistLedger.
    let mut persisted = 0usize;
    let mut outcome = Outcome::Start;
    let table = served();
    loop {
        let action = first.advance(outcome).unwrap();
        outcome = match action {
            Action::Proceed => Outcome::Proceed,
            Action::PrepareTempDir { .. } => Outcome::Prepared,
            Action::FetchArtifact { url, .. } => {
                let (_u, name, body) =
                    table.iter().find(|(u, _, _)| *u == url).expect("unexpected fetch");
                Outcome::Fetched { file_name: name.to_string(), hash: sha1_hex(body) }
            }
            Action::PlaceFile { .. } => Outcome::Placed,
            Action::PersistLedger => Outcome::Persisted,
            other => panic!("unexpected action before interruption: {:?}", other),
        };
        if matches!(outcome, Outcome::Persisted) {
            persisted += 1;
            if persisted == 2 {
                first.advance(outcome).unwrap();
                break;
            }
        }
    }

    let needed = downloads_needed(&first.config, &first.ledger);
    assert_eq!(needed, vec![2, 3]);
    let mut resumed = Installer::new(
        sample_config(false),
        first.ledger,
        "game".to_string(),
        "game/.temp".to_string(),
    );
    let n = drive(&mut resumed, &served()).unwrap();
    assert_eq!(n, 2);
}

#[test]
fn drifted_entry_is_redownloaded_and_replaced_in_place() {
    let config = sample_config(false);
    let ledger = InstallerState::new(&Version { major: 1, minor: 0, patch: 0 });
    let mut first = Installer::new(config, ledger, "game".to_string(), "game/.temp".to_string());
    drive(&mut first, &served()).unwrap();

    // The pack now expects different bytes for the first mod.
    let mut config2 = sample_config(false);
    config2.mods[0].hash = sha1_hex(b"alpha-v2");
    let mut table = served();
    table[1] = ("https://e/alpha.jar", "alpha-v2.jar", b"alpha-v2");
    let mods_before = first.ledger.mods.len();
    let mut second =
        Installer::new(config2, first.ledger, "game".to_string(), "game/.temp".to_string());
    let n = drive(&mut second, &table).unwrap();
    assert_eq!(n, 1);
    assert_eq!(second.ledger.mods.len(), mods_before);
    assert_eq!(second.ledger.mods[0].hash, sha1_hex(b"alpha-v2"));
    assert_eq!(second.ledger.mods[0].file_name, "alpha-v2.jar");
}

#[test]
fn hash_mismatch_aborts_before_placement() {
    let config = sample_config(false);
    let ledger = InstallerState::new(&Version { major: 1, minor: 0, patch: 0 });
    let mut engine = Installer::new(config, ledger, "game".to_string(), "game/.temp".to_string());
    let mut outcome = Outcome::Start;
    let mut placed = 0usize;
    let result: Result<(), InstallError> = loop {
        match engine.advance(outcome) {
            Err(e) => break Err(e),
            Ok(Action::Proceed) => outcome = Outcome::Proceed,
            Ok(Action::PrepareTempDir { .. }) => outcome = Outcome::Prepared,
            Ok(Action::FetchArtifact { .. }) => {
                outcome = Outcome::Fetched {
                    file_name: "loader.jar".to_string(),
                    hash: sha1_hex(b"corrupted bytes"),
                };
            }
            Ok(Action::PlaceFile { .. }) => {
                placed += 1;
                outcome = Outcome::Placed;
            }
            Ok(other) => panic!("unexpected action {:?}", other),
        }
    };
    assert!(matches!(result, Err(InstallError::Integrity { .. })));
    assert_eq!(placed, 0);
    assert!(engine.ledger.get_mod_loader().is_none());
    assert_eq!(engine.ledger.mods.len(), 0);
}

#[test]
fn auto_open_run_requests_launch() {
    let config = sample_config(true);
    let ledger = InstallerState::new(&Version { major: 1, minor: 0, patch: 0 });
    let mut engine = Installer::new(config, ledger, "game".to_string(), "game/.temp".to_string());
    drive(&mut engine, &served()).unwrap();
    // The launch alert is emitted and the run still completes.
    let launched = engine.events.iter().any(|e| {
        matches!(e, InstallerEvent::AddAlert { translation_key, .. }
            if translation_key == "alertOnLaunchModLoader")
    });
    assert!(launched);
}

#[test]
fn failed_post_install_steps_do_not_fail_the_run() {
    let config = sample_config(true);
    let ledger = InstallerState::new(&Version { major: 1, minor: 0, patch: 0 });
    let mut engine = Installer::new(config, ledger, "game".to_string(), "game/.temp".to_string());
    let table = served();
    let mut outcome = Outcome::Start;
    loop {
        let action = engine.advance(outcome).unwrap();
        outcome = match action {
            Action::Proceed => Outcome::Proceed,
            Action::PrepareTempDir { .. } => Outcome::Prepared,
            Action::FetchArtifact { url, .. } => {
                let (_u, name, body) =
                    table.iter().find(|(u, _, _)| *u == url).expect("unexpected fetch");
                Outcome::Fetched { file_name: name.to_string(), hash: sha1_hex(body) }
            }
            Action::PlaceFile { .. } => Outcome::Placed,
            Action::PersistLedger => Outcome::Persisted,
            Action::AddLauncherProfile => Outcome::ProfileHandled { ok: false },
            Action::LaunchModLoader => Outcome::LaunchHandled { ok: false },
            Action::Finished => break,
        };
    }
    let warnings: Vec<_> = engine
        .events
        .iter()
        .filter_map(|e| match e {
            InstallerEvent::AddAlert { translation_key, .. } => Some(translation_key.clone()),
            _ => None,
        })
        .collect();
    assert!(warnings.contains(&"alertOnFailedAddProfile".to_string()));
    assert!(warnings.contains(&"alertOnFailedLaunchModLoader".to_string()));
}

#[test]
fn busy_guard_rejects_second_run() {
    let mut state = AppState::new("cwd".to_string(), "cwd/logs".to_string());
    assert!(state.try_begin_run().is_ok());
    let cwd_before = state.cwd.clone();
    let err = state.try_begin_run().unwrap_err();
    assert!(matches!(err, InstallError::Busy));
    assert!(state.is_running);
    assert_eq!(state.cwd, cwd_before);
    state.finish_run();
    assert!(state.try_begin_run().is_ok());
}

#[test]
fn mode_selection_needs_manifest() {
    let ok = select_mode(InstallerMode::Install, true);
    assert!(ok.is_accept);
    assert!(ok.error.is_none());
    let missing = select_mode(InstallerMode::Install, false);
    assert!(!missing.is_accept);
    assert_eq!(missing.error.as_deref(), Some("Config file is missing."));
    assert!(initialize_title(true).is_exists_config);
    assert!(!initialize_title(false).is_exists_config);
}
