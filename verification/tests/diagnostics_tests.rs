use stream_archive::diagnostics::{
    collect, collect_with_backup, SecretStoreCheck, database_item, directory, item, optional_directory, tool_item, worse_of, DiagnosticStatus, DiagnosticsSnapshot,
    PathFact,
};
use stream_archive::environment::{snapshot, validate_updates, PathFacts};
use stream_archive::settings::SettingError;
use stream_archive::tools::{all_tools, resolve_tool, ToolFacts, ToolKind, ToolResolution};

fn missing(display: &str) -> PathFact {
    PathFact { display: display.into(), exists: false, is_dir: false, is_file: false }
}

fn dir(display: &str) -> PathFact {
    PathFact { display: display.into(), exists: true, is_dir: true, is_file: false }
}

#[test]
fn tool_setting_mapping_stays_stable() {
    assert_eq!(ToolKind::Streamlink.primary_setting_key(), "STREAMLINK_PATH");
    assert_eq!(ToolKind::YtDlp.primary_setting_key(), "YT_DLP_PATH");
    assert_eq!(ToolKind::Ffmpeg.primary_setting_key(), "FFMPEG_PATH");
}

#[test]
fn missing_optional_bundled_vod_directory_is_informational() {
    let row = optional_directory(
        "Bundled VOD tools directory (optional)",
        &missing("/x/backend/vod"),
        "Not present; configured paths, PATH, and common install locations are still searched",
    );
    assert_eq!(row.status, DiagnosticStatus::Okay);
    assert!(row.detail.contains("Not present"));
}

#[test]
fn discovery_warnings_and_missing_tools_are_not_ok() {
    let mut resolution = ToolResolution { kind: ToolKind::Ffmpeg, path: None, source: "missing".into(), warnings: vec![] };
    assert_eq!(tool_item(&resolution).status, DiagnosticStatus::Warning);
    resolution.path = Some("ffmpeg.exe".into());
    assert_eq!(tool_item(&resolution).status, DiagnosticStatus::Okay);
    resolution.warnings.push("configured path missing; using fallback".into());
    assert_eq!(tool_item(&resolution).status, DiagnosticStatus::Warning);
}

#[test]
fn aggregate_and_serialization_preserve_state() {
    let report = DiagnosticsSnapshot::from_items(vec![item("test", DiagnosticStatus::Okay, "ready")]);
    assert!(report.runtime_ready);
    assert_eq!(report.status, DiagnosticStatus::Okay);
    let warning = DiagnosticsSnapshot::from_items(vec![item("test", DiagnosticStatus::Warning, "attention")]);
    assert!(!warning.runtime_ready);
    let failed = DiagnosticsSnapshot::unavailable(None, None, "SQLite load failed");
    assert_eq!(failed.status, DiagnosticStatus::Error);
}

#[test]
fn worst_status_wins() {
    assert_eq!(worse_of(DiagnosticStatus::Okay, DiagnosticStatus::Warning), DiagnosticStatus::Warning);
    assert_eq!(worse_of(DiagnosticStatus::Error, DiagnosticStatus::Warning), DiagnosticStatus::Error);
    assert_eq!(DiagnosticStatus::Okay.label(), "OK");
    let mixed = DiagnosticsSnapshot::from_items(vec![
        item("a", DiagnosticStatus::Okay, ""),
        item("b", DiagnosticStatus::Error, ""),
        item("c", DiagnosticStatus::Warning, ""),
    ]);
    assert_eq!(mixed.status, DiagnosticStatus::Error);
    assert!(!mixed.runtime_ready);
    assert_eq!(mixed.items.len(), 4);
    assert_eq!(mixed.items[0].name, "Runtime readiness");
    assert_eq!(mixed.items[0].status, DiagnosticStatus::Error);
}

#[test]
fn directory_and_database_rows() {
    assert_eq!(directory("Out", &dir("/out"), true).detail, "/out — exists");
    assert_eq!(directory("Out", &missing("/out"), true).status, DiagnosticStatus::Error);
    assert_eq!(directory("Out", &missing("/out"), false).status, DiagnosticStatus::Warning);
    let db = database_item(&PathFact { display: "/d.db".into(), exists: true, is_dir: false, is_file: true });
    assert_eq!(db.status, DiagnosticStatus::Okay);
    assert_eq!(database_item(&missing("/d.db")).status, DiagnosticStatus::Error);
}

fn no_facts(configured: usize) -> ToolFacts {
    ToolFacts { configured_executable: vec![false; configured], bundled: vec![], on_path: vec![], common: vec![] }
}

#[test]
fn explicit_configured_path_wins() {
    let configured = vec![("FFMPEG_PATH".to_string(), " /opt/ffmpeg ".to_string())];
    let mut facts = no_facts(1);
    facts.configured_executable = vec![true];
    facts.on_path = vec![Some("/usr/bin/ffmpeg".into())];
    let resolved = resolve_tool(ToolKind::Ffmpeg, &configured, &facts);
    assert_eq!(resolved.path.as_deref(), Some("/opt/ffmpeg"));
    assert_eq!(resolved.source, "config:FFMPEG_PATH");
    assert!(resolved.warnings.is_empty());
}

#[test]
fn invalid_explicit_path_is_reported_without_becoming_a_result() {
    let configured = vec![("STREAMLINK_PATH".to_string(), "/definitely/not/a/tool".to_string())];
    let resolved = resolve_tool(ToolKind::Streamlink, &configured, &no_facts(1));
    assert!(!resolved.warnings.is_empty());
    assert_ne!(resolved.path.as_deref(), Some("/definitely/not/a/tool"));
    assert_eq!(resolved.source, "missing");
}

#[test]
fn discovery_falls_back_in_order() {
    let configured = vec![("YT_DLP_PATH".to_string(), "AUTO".to_string())];
    let mut facts = no_facts(1);
    facts.bundled = vec![("/b/yt-dlp".into(), false)];
    facts.on_path = vec![None, Some("/usr/bin/yt-dlp".into())];
    facts.common = vec![("/c/yt-dlp".into(), true)];
    let resolved = resolve_tool(ToolKind::YtDlp, &configured, &facts);
    assert_eq!(resolved.path.as_deref(), Some("/usr/bin/yt-dlp"));
    assert_eq!(resolved.source, "PATH");
    assert!(resolved.warnings.is_empty());
    facts.bundled = vec![("/b/yt-dlp".into(), true)];
    assert_eq!(resolve_tool(ToolKind::YtDlp, &configured, &facts).source, "bundled");
    assert_eq!(all_tools().len(), 3);
    assert!(ToolKind::Ffmpeg.binary_names(true).contains(&"ffmpeg.exe"));
}

fn update(key: &str, value: &str) -> Vec<(String, String)> {
    vec![(key.to_string(), value.to_string())]
}

fn facts(absolute: bool, executable_file: bool, directory: bool) -> Vec<PathFacts> {
    vec![PathFacts { absolute, executable_file, directory, windows_executable: None }]
}

#[test]
fn accepts_runtime_defaults_and_valid_numeric_settings() {
    for (key, value) in [
        ("STREAMLINK_PATH", "AUTO"),
        ("YT_DLP_PATH", ""),
        ("OUTPUT_DIR", ""),
        ("CHECK_INTERVAL", "30"),
        ("MIN_FREE_SPACE_GB", "1.5"),
    ] {
        validate_updates(&update(key, value), &facts(false, false, false)).unwrap();
    }
    assert!(validate_updates(&update("CHECK_INTERVAL", "0"), &facts(false, false, false)).is_err());
    assert!(validate_updates(&update("MIN_FREE_SPACE_GB", "NaN"), &facts(false, false, false)).is_err());
}

#[test]
fn environment_paths_must_exist_and_be_absolute() {
    assert!(validate_updates(&update("OUTPUT_DIR", "/out"), &facts(true, false, true)).is_ok());
    assert!(validate_updates(&update("OUTPUT_DIR", "/file"), &facts(true, true, false)).is_err());
    assert!(validate_updates(&update("OUTPUT_DIR", "relative"), &facts(false, false, true)).is_err());
    assert!(validate_updates(&update("FFMPEG_PATH", "/bin/ffmpeg"), &facts(true, true, false)).is_ok());
    assert!(validate_updates(&update("FFMPEG_PATH", "/dir"), &facts(true, false, true)).is_err());
    assert!(validate_updates(&update("FFMPEG_PATH", "bad\0path"), &facts(true, true, false)).is_err());
    assert!(matches!(
        validate_updates(&update("SOOP_PASSWORD", "secret"), &facts(false, false, false)),
        Err(SettingError::NotEnvironmentSetting(_))
    ));
}

#[test]
fn serialization_exposes_only_editable_nonsecret_fields() {
    let fields = snapshot(&update("SOOP_PASSWORD", "never-export"));
    assert_eq!(fields.len(), 8);
    assert!(fields.iter().all(|f| !f.value.contains("never-export")));
    let shown = snapshot(&update("QUALITY", "best"));
    assert!(shown.iter().any(|f| f.key == "QUALITY" && f.value == "best"));
}

fn no_tools() -> Vec<ToolFacts> {
    vec![no_facts(2), no_facts(1), no_facts(1)]
}

#[test]
fn missing_paths_are_reported_without_creating_them() {
    let report = collect(
        &missing("/tmp/x/missing"),
        &missing("/tmp/x/missing.db"),
        None,
        &missing("/tmp/x/missing/vod"),
        &missing(""),
        &[],
        &no_tools(),
        &SecretStoreCheck::Native,
    );
    assert_eq!(report.status, DiagnosticStatus::Error);
    assert!(!report.runtime_ready);
}

#[test]
fn backup_diagnostics_are_read_only() {
    let report = collect_with_backup(
        &missing("/tmp/x/backend"),
        &missing("/tmp/x/stream-archive.db"),
        None,
        &missing("/tmp/x/backend/vod"),
        &missing(""),
        &[],
        &no_tools(),
        &SecretStoreCheck::Native,
        &missing("/tmp/x/missing-backups"),
        &stream_archive::backup::BackupPolicy { enabled: true, interval_hours: 24, keep_count: 10, retention_days: 3 },
    );
    assert!(report.items.iter().any(|item| item.name == "Backup directory"));
}

fn file(display: &str) -> PathFact {
    PathFact { display: display.into(), exists: true, is_dir: false, is_file: true }
}

#[test]
fn missing_backup_directory_makes_the_report_at_least_a_warning() {
    let base = collect(
        &dir("/srv/backend"),
        &file("/srv/stream-archive.db"),
        None,
        &dir("/srv/backend/vod"),
        &dir("/srv/out"),
        &[],
        &no_tools(),
        &SecretStoreCheck::Native,
    );
    let policy = stream_archive::backup::BackupPolicy { enabled: true, interval_hours: 24, keep_count: 10, retention_days: 3 };
    let with_missing = collect_with_backup(
        &dir("/srv/backend"),
        &file("/srv/stream-archive.db"),
        None,
        &dir("/srv/backend/vod"),
        &dir("/srv/out"),
        &[],
        &no_tools(),
        &SecretStoreCheck::Native,
        &missing("/srv/backups"),
        &policy,
    );
    assert_eq!(with_missing.status, worse_of(base.status, DiagnosticStatus::Warning));
    assert_ne!(with_missing.status, DiagnosticStatus::Okay);
    assert_eq!(with_missing.items[0].status, with_missing.status);
    assert!(!with_missing.runtime_ready);
    let dir_row = with_missing.items.iter().find(|i| i.name == "Backup directory").unwrap();
    assert_eq!(dir_row.status, DiagnosticStatus::Warning);
    let policy_row = with_missing.items.iter().find(|i| i.name == "Backup policy").unwrap();
    assert_eq!(policy_row.status, DiagnosticStatus::Okay);
    let with_present = collect_with_backup(
        &dir("/srv/backend"),
        &file("/srv/stream-archive.db"),
        None,
        &dir("/srv/backend/vod"),
        &dir("/srv/out"),
        &[],
        &no_tools(),
        &SecretStoreCheck::Native,
        &dir("/srv/backups"),
        &policy,
    );
    assert_eq!(with_present.status, base.status);
}
