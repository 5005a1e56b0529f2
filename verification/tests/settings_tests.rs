use stream_archive::settings::{backup_dir_step, backup_dir_verdict, BackupDirStep, PrepareOutcome};
use stream_archive::settings::{default_backup_dir, PathParts};
use stream_archive::settings::settings_response;
use stream_archive::model::Channel;
use stream_archive::platform::PlatformId;
use stream_archive::settings::{
    apply_vod_tool_defaults, check_provider_configuration, secrets_to_store, lookup_value, validate_channels, validate_secret_updates, validate_setting_updates,
    validate_vod_tool_updates, Field, SettingError,
};

fn one(key: &str, value: &str) -> Vec<(String, String)> {
    vec![(key.to_string(), value.to_string())]
}

fn soop(name: &str, account: &str) -> Channel {
    Channel { platform: PlatformId::Soop, enabled: true, name: name.into(), account: account.into(), outdir: String::new() }
}

#[test]
fn accepts_fractional_min_free_space() {
    assert!(validate_setting_updates(&one("MIN_FREE_SPACE_GB", "1.5")).is_ok());
}

#[test]
fn rejects_duplicate_channel_accounts_case_insensitively() {
    let channels = vec![soop("A", "User"), soop("B", "user")];
    assert!(validate_channels(&channels).is_err());
}

#[test]
fn same_account_text_is_allowed_on_different_platforms() {
    let channels = vec![
        Channel {
            platform: PlatformId::Soop,
            enabled: true,
            name: "SOOP".into(),
            account: "0123456789abcdef0123456789abcdef".into(),
            outdir: String::new(),
        },
        Channel {
            platform: PlatformId::Chzzk,
            enabled: true,
            name: "CHZZK".into(),
            account: "0123456789abcdef0123456789abcdef".into(),
            outdir: String::new(),
        },
    ];
    assert!(validate_channels(&channels).is_ok());
}

#[test]
fn rejects_invalid_chzzk_channel_id_on_save() {
    let channels = vec![Channel {
        platform: PlatformId::Chzzk,
        enabled: true,
        name: "CHZZK".into(),
        account: "not-a-channel-id".into(),
        outdir: String::new(),
    }];
    assert!(validate_channels(&channels).is_err());
}

#[test]
fn numeric_and_flag_settings_are_checked() {
    assert!(validate_setting_updates(&one("CHECK_INTERVAL", "30")).is_ok());
    assert_eq!(
        validate_setting_updates(&one("CHECK_INTERVAL", "0")),
        Err(SettingError::IntOutOfRange("CHECK_INTERVAL".into(), 1, 86_400))
    );
    assert_eq!(
        validate_setting_updates(&one("CHECK_INTERVAL", "abc")),
        Err(SettingError::NotInteger("CHECK_INTERVAL".into()))
    );
    assert_eq!(
        validate_setting_updates(&one("MIN_FREE_SPACE_GB", "NaN")),
        Err(SettingError::NumberOutOfRange("MIN_FREE_SPACE_GB".into(), 0, 1_000_000))
    );
    assert_eq!(
        validate_setting_updates(&one("MIN_FREE_SPACE_GB", "lots")),
        Err(SettingError::NotNumeric("MIN_FREE_SPACE_GB".into()))
    );
    assert_eq!(
        validate_setting_updates(&one("LOG_ENABLED", "yes")),
        Err(SettingError::NotYesNo("LOG_ENABLED".into()))
    );
    assert_eq!(
        validate_setting_updates(&one("CLOUDFLARE_WORKER_URL", "http://x")),
        Err(SettingError::WorkerUrlNotHttps)
    );
    assert!(validate_setting_updates(&one("CLOUDFLARE_WORKER_URL", "https://x")).is_ok());
    assert_eq!(
        validate_setting_updates(&one("SOOP_PASSWORD", "x")),
        Err(SettingError::NotEditable("SOOP_PASSWORD".into()))
    );
    assert_eq!(
        validate_setting_updates(&one("QUALITY", "a\nb")),
        Err(SettingError::NotSingleLine(Field::Setting("QUALITY".into())))
    );
}

#[test]
fn secrets_and_tool_paths_have_their_own_keys() {
    assert!(validate_secret_updates(&one("CHZZK_NID_AUT", "x")).is_ok());
    assert_eq!(
        validate_secret_updates(&one("QUALITY", "x")),
        Err(SettingError::UnsupportedSecret("QUALITY".into()))
    );
    assert!(validate_vod_tool_updates(&one("FFMPEG_PATH", "/usr/bin/ffmpeg")).is_ok());
    assert_eq!(
        validate_vod_tool_updates(&one("QUALITY", "x")),
        Err(SettingError::UnsupportedVodTool("QUALITY".into()))
    );
}

#[test]
fn channel_fields_are_checked() {
    assert_eq!(validate_channels(&[soop(" ", "a")]), Err(SettingError::ChannelNameEmpty));
    assert_eq!(validate_channels(&[soop("n", " ")]), Err(SettingError::ChannelAccountEmpty));
    assert_eq!(
        validate_channels(&[soop("a|b", "acc")]),
        Err(SettingError::ContainsPipe(Field::ChannelName))
    );
    assert!(validate_channels(&[soop("A", "acc"), soop("B", "other")]).is_ok());
}

#[test]
fn blank_tool_paths_take_the_stored_defaults() {
    let stored = vec![
        ("YT_DLP_PATH".to_string(), "/opt/yt-dlp".to_string()),
        ("FFMPEG_PATH".to_string(), "/opt/ffmpeg".to_string()),
    ];
    let mut yt = "  ".to_string();
    let mut ff = "/mine/ffmpeg".to_string();
    apply_vod_tool_defaults(&stored, &mut yt, &mut ff);
    assert_eq!(yt, "/opt/yt-dlp");
    assert_eq!(ff, "/mine/ffmpeg");
    assert_eq!(lookup_value(&stored, "FFMPEG_PATH").as_deref(), Some("/opt/ffmpeg"));
    assert_eq!(lookup_value(&stored, "QUALITY"), None);
}

use stream_archive::settings::{configured_secrets, missing_runtime_defaults, settings_for_keys};

#[test]
fn runtime_defaults_fill_only_missing_settings() {
    let stored = vec![("CHECK_INTERVAL".to_string(), "60".to_string())];
    let missing = missing_runtime_defaults(&stored);
    assert_eq!(missing.len(), 32);
    assert!(missing.iter().all(|(k, _)| k != "CHECK_INTERVAL"));
    assert_eq!(missing[0], ("CHANNEL_RELOAD_INTERVAL".to_string(), "2".to_string()));
    assert!(missing.contains(&("LOG_DIR".to_string(), ".\\logs".to_string())));
    assert_eq!(missing.last().unwrap(), &("FFMPEG_PATH".to_string(), String::new()));
}

#[test]
fn stored_settings_by_key_and_secret_presence() {
    let stored = vec![
        ("QUALITY".to_string(), "best".to_string()),
        ("SOOP_PASSWORD".to_string(), "x".to_string()),
        ("CHZZK_NID_AUT".to_string(), "   ".to_string()),
    ];
    assert_eq!(
        settings_for_keys(&stored, &["OUTPUT_DIR", "QUALITY"]),
        vec![("QUALITY".to_string(), "best".to_string())]
    );
    assert_eq!(
        configured_secrets(&stored),
        vec![
            ("SOOP_PASSWORD".to_string(), true),
            ("CLOUDFLARE_API_KEY".to_string(), false),
            ("CHZZK_NID_AUT".to_string(), false),
            ("CHZZK_NID_SES".to_string(), false),
        ]
    );
}

#[test]
fn provider_configuration_accepts_only_its_own_keys() {
    let settings = one("SOOP_USERNAME", "archiver");
    let secrets = vec![
        ("CHZZK_NID_AUT".to_string(), String::new()),
        ("SOOP_PASSWORD".to_string(), "pw".to_string()),
    ];
    assert_eq!(check_provider_configuration(&settings, &secrets), Ok(()));
    assert_eq!(
        check_provider_configuration(&one("QUALITY", "best"), &[]),
        Err(SettingError::NotProviderSetting("QUALITY".to_string()))
    );
    assert_eq!(
        check_provider_configuration(&settings, &one("SOOP_USERNAME", "x")),
        Err(SettingError::NotProviderSecret("SOOP_USERNAME".to_string()))
    );
    assert_eq!(
        check_provider_configuration(&one("CLOUDFLARE_WORKER_URL", "http://w"), &[]),
        Err(SettingError::WorkerUrlNotHttps)
    );
}

#[test]
fn empty_secret_drafts_are_not_stored() {
    let secrets = vec![
        ("SOOP_PASSWORD".to_string(), String::new()),
        ("CLOUDFLARE_API_KEY".to_string(), "key".to_string()),
    ];
    assert_eq!(secrets_to_store(&secrets), vec![("CLOUDFLARE_API_KEY".to_string(), "key".to_string())]);
}

/// The exact decimal text of 2^-1075 (5^1075 · 10^-1075).
fn half_min_subnormal_text() -> String {
    let mut digits: Vec<u32> = vec![1];
    for _ in 0..1075 {
        let mut carry = 0;
        for d in digits.iter_mut() {
            let v = *d * 5 + carry;
            *d = v % 10;
            carry = v / 10;
        }
        while carry > 0 {
            digits.push(carry % 10);
            carry /= 10;
        }
    }
    let significant: String = digits.iter().rev().map(|d| char::from_digit(*d, 10).unwrap()).collect();
    format!("0.{}{}", "0".repeat(1075 - significant.len()), significant)
}

fn free_space(value: &str) -> Result<(), SettingError> {
    validate_setting_updates(&one("MIN_FREE_SPACE_GB", value))
}

#[test]
fn free_space_follows_f64_rounding() {
    let out_of_range = Err(SettingError::NumberOutOfRange("MIN_FREE_SPACE_GB".into(), 0, 1_000_000));
    assert_eq!(free_space("-1e-400"), Ok(()));
    assert_eq!(free_space("-0"), Ok(()));
    assert_eq!(free_space("1e6"), Ok(()));
    assert_eq!(free_space("20.5"), Ok(()));
    assert_eq!(free_space("1000000.00000000000000001"), Ok(()));
    assert_eq!(free_space("1000000.0000000000582076609134674072265625"), Ok(()));
    assert_eq!(free_space("1000000.0000000000582076609134674072265626"), out_of_range);
    assert_eq!(free_space("1000001"), out_of_range);
    assert_eq!(free_space("1e400"), out_of_range);
    assert_eq!(free_space("-1e-323"), out_of_range);
    assert_eq!(free_space("-2.4703282292062328e-324"), out_of_range);
    let half = half_min_subnormal_text();
    assert!(half.starts_with("0.000") && half.ends_with("125"));
    assert_eq!(free_space(&format!("-{half}")), Ok(()));
    assert_eq!(free_space(&format!("-{half}1")), out_of_range);
    assert_eq!(free_space(&format!("{half}")), Ok(()));
}

#[test]
fn backup_directory_rule_from_path_facts() {
    assert!(matches!(backup_dir_step("   ", false, false), BackupDirStep::Nothing));
    assert!(matches!(
        backup_dir_step(" /srv/not-a-directory ", true, false),
        BackupDirStep::Refuse(SettingError::BackupDirNotDirectory(p)) if p == "/srv/not-a-directory"
    ));
    assert!(matches!(backup_dir_step("/srv/nested/backups", false, false), BackupDirStep::Prepare(p) if p == "/srv/nested/backups"));
    assert!(matches!(backup_dir_step("/srv/backups ", true, true), BackupDirStep::Prepare(p) if p == "/srv/backups"));
    assert_eq!(backup_dir_verdict("/srv/b", PrepareOutcome::Ready), Ok(()));
    assert_eq!(backup_dir_verdict("/srv/b", PrepareOutcome::NotCreatable), Err(SettingError::BackupDirNotCreatable("/srv/b".into())));
    assert_eq!(backup_dir_verdict("/srv/b", PrepareOutcome::NotWritable), Err(SettingError::BackupDirNotWritable("/srv/b".into())));
    assert_eq!(backup_dir_verdict("/srv/b", PrepareOutcome::CleanupFailed), Err(SettingError::BackupDirCleanupFailed("/srv/b".into())));
}

#[test]
fn backup_directory_is_sibling_of_application_root() {
    let backend = PathParts { base: "/".into(), parts: vec!["tmp".into(), "x".into(), "app".into(), "backend".into()] };
    match default_backup_dir(None, &backend) {
        Err(p) => {
            assert_eq!(p.base, "/");
            assert_eq!(p.parts, vec!["tmp".to_string(), "x".into(), "stream-archive-backups".into()]);
        }
        Ok(_) => panic!("expected the default"),
    }
    let short = PathParts { base: String::new(), parts: vec!["backend".into()] };
    assert!(matches!(default_backup_dir(Some("  ".into()), &short), Err(p) if p.parts == vec!["stream-archive-backups".to_string()]));
    assert!(matches!(default_backup_dir(Some("/backups".into()), &short), Ok(v) if v == "/backups"));
}

#[test]
fn settings_response_shows_only_safe_values() {
    let values = vec![
        ("CHECK_INTERVAL".to_string(), "30".to_string()),
        ("SOOP_PASSWORD".to_string(), "secret".to_string()),
    ];
    let r = settings_response(&values);
    assert_eq!(r.values, vec![("CHECK_INTERVAL".to_string(), "30".to_string())]);
    assert_eq!(r.hidden_keys, vec!["SOOP_PASSWORD", "CLOUDFLARE_API_KEY", "CHZZK_NID_AUT", "CHZZK_NID_SES"]);
}
