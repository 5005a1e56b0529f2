use stream_archive::backup::{
    auto_backup_due, backup_dir, backup_file_name, cleanup_selection, file_digest_hex, infer_kind, integrity,
    is_backup_database_name, policy_default_updates, policy_from_settings, policy_updates, restore_file_name,
    listing_order, BackupError, BackupInfo, BackupPolicy,
};
use stream_archive::mirror::{channels_mirror, live_settings_mirror, vod_settings_mirror};
use stream_archive::model::Channel;
use stream_archive::platform::PlatformId;

#[test]
fn default_backup_retention_is_three_days() {
    let policy = policy_from_settings(None, None, None, None);
    assert_eq!(policy.retention_days, 3);
    assert!(policy.enabled);
    assert_eq!(policy.interval_hours, 24);
    assert_eq!(policy.keep_count, 10);
}

#[test]
fn policy_validation_rejects_zero_interval() {
    let policy = BackupPolicy { enabled: true, interval_hours: 0, keep_count: 10, retention_days: 3 };
    assert!(policy_updates(&policy, None, true).is_err());
}

#[test]
fn policy_updates_write_the_settings() {
    let policy = BackupPolicy { enabled: false, interval_hours: 6, keep_count: 4, retention_days: 0 };
    let updates = policy_updates(&policy, Some(" /b "), true).unwrap();
    assert_eq!(updates[0], ("BACKUP_ENABLED".to_string(), "N".to_string()));
    assert_eq!(updates[1], ("BACKUP_INTERVAL_HOURS".to_string(), "6".to_string()));
    assert_eq!(updates.last().unwrap(), &("BACKUP_DIR".to_string(), "/b".to_string()));
    assert_eq!(policy_updates(&policy, Some("/b"), false), Err(BackupError::DirectoryNotEditable));
    let negative = BackupPolicy { retention_days: -1, ..policy };
    assert_eq!(policy_updates(&negative, None, true), Err(BackupError::NegativeRetention));
}

#[test]
fn stored_policy_values_are_clamped() {
    let p = policy_from_settings(Some("n"), Some("0"), Some("x"), Some("-5"));
    assert!(!p.enabled);
    assert_eq!(p.interval_hours, 1);
    assert_eq!(p.keep_count, 10);
    assert_eq!(p.retention_days, 0);
}

#[test]
fn backup_names() {
    let name = backup_file_name("manual", "20260101_000000");
    assert_eq!(name, "stream_archive_manual_20260101_000000.db");
    assert!(is_backup_database_name(&name));
    assert!(!is_backup_database_name("other.db"));
    assert_eq!(infer_kind(&name), "manual");
    assert_eq!(infer_kind("stream_archive_x.db"), "unknown");
    assert_eq!(restore_file_name(&format!(" {name} "), false).unwrap(), name);
    assert_eq!(restore_file_name("../stream_archive_a.db", false), Err(BackupError::InvalidFileName));
    assert!(restore_file_name("stream_archive_a\\b.db", false).is_ok());
    assert_eq!(restore_file_name("stream_archive_a\\b.db", true), Err(BackupError::InvalidFileName));
}

#[test]
fn integrity_and_cleanup() {
    assert_eq!(integrity(Some(("ABC", 3)), "abc", 3, true), "OK");
    assert_eq!(integrity(Some(("abc", 3)), "abc", 4, true), "HASH_MISMATCH");
    assert_eq!(integrity(Some(("abc", 3)), "abc", 3, false), "INVALID_SQLITE");
    assert_eq!(integrity(None, "abc", 3, true), "NO_METADATA");
    let policy = BackupPolicy { enabled: true, interval_hours: 24, keep_count: 2, retention_days: 1 };
    assert_eq!(
        cleanup_selection(&policy, &[Some(10), Some(90_000), Some(10), None]),
        vec![false, true, true, true]
    );
    assert!(auto_backup_due(None, 24));
    assert!(!auto_backup_due(Some(3600), 24));
    assert!(auto_backup_due(Some(86_400), 24));
}

#[test]
fn defaults_fill_only_missing_policy_settings() {
    let updates = policy_default_updates(&[true, false, true, false, true]);
    assert_eq!(
        updates,
        vec![
            ("BACKUP_INTERVAL_HOURS".to_string(), "24".to_string()),
            ("BACKUP_RETENTION_DAYS".to_string(), "3".to_string()),
        ]
    );
    assert!(policy_default_updates(&[true; 5]).is_empty());
    assert_eq!(backup_dir(false, Some(" /mine "), "/default"), "/mine");
    assert_eq!(backup_dir(true, Some("/mine"), "/default"), "/default");
    assert_eq!(backup_dir(false, Some("  "), "/default"), "/default");
}

#[test]
fn backup_digest_is_sha256_hex() {
    assert_eq!(
        file_digest_hex(b"abc"),
        "ba7816bf8f01cfea414140de5dae2223b00361a396177a9cb410ff61f20015ad"
    );
    assert_eq!(file_digest_hex(b"").len(), 64);
}

#[test]
fn mirrors_list_every_setting_and_channel() {
    let values = vec![("QUALITY".to_string(), "best".to_string())];
    let live = live_settings_mirror(&values);
    assert!(live.starts_with("# Export/import compatibility mirror"));
    assert!(live.contains("\r\nQUALITY=best\r\n"));
    assert!(live.contains("\r\nSOOP_PASSWORD=\r\n"));
    assert!(live.ends_with("CHZZK_NID_SES=\r\n"));
    let vod = vod_settings_mirror(&[]);
    assert!(vod.ends_with("\r\nYT_DLP_PATH=\r\nFFMPEG_PATH=\r\n"));
    let channels = channels_mirror(&[Channel {
        platform: PlatformId::Soop,
        enabled: false,
        name: " Name ".into(),
        account: "acc".into(),
        outdir: "".into(),
    }]);
    assert!(channels.ends_with("# ENABLED|NAME|ACCOUNT|OUTDIR\r\nN|Name|acc|\r\n"));
}

fn listed(name: &str, created_at: &str) -> BackupInfo {
    BackupInfo {
        file_name: name.to_string(),
        created_at: created_at.to_string(),
        kind: "manual".to_string(),
        size_bytes: 0,
        sha256: String::new(),
        integrity: "OK".to_string(),
    }
}

#[test]
fn backups_are_listed_newest_first_then_by_name() {
    let items = vec![
        listed("stream_archive_manual_a.db", "2026-01-01T00:00:00Z"),
        listed("stream_archive_auto_b.db", "2026-03-01T00:00:00Z"),
        listed("stream_archive_manual_c.db", "2026-03-01T00:00:00Z"),
        listed("stream_archive_manual_a.db", "2026-01-01T00:00:00Z"),
    ];
    assert_eq!(listing_order(&items), vec![2, 1, 0, 3]);
    assert!(listing_order(&[]).is_empty());
}

#[test]
fn persisted_backup_directory_updates_without_restart() {
    let default = "/apps/stream-archive-backups";
    assert_eq!(backup_dir(false, Some("/data/backup-a"), default), "/data/backup-a");
    assert_eq!(backup_dir(false, Some("/data/backup-b"), default), "/data/backup-b");
    assert_eq!(backup_dir(false, Some("  "), default), default);
    assert_eq!(backup_dir(true, Some("/data/backup-b"), default), default);
}
