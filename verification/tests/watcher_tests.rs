use stream_archive::watcher::{start_decision, StartDecision, StartRefusal, WatcherTask};
use stream_archive::vod::NameChoice;
use stream_archive::watcher::choose_output_file_name;
use stream_archive::watcher::settings_values_changed;
use stream_archive::watcher::{channel_reload, settings_reload, ChannelReloadAction, ReloadAction, WatcherConfigError, WatcherSettings};
use stream_archive::watcher::streamlink_choice;
use stream_archive::model::Channel;
use stream_archive::platform::PlatformId;
use stream_archive::watcher::{
    channel_key, channel_signature, channels_require_soop, deadline_after, mark_watcher_stopped,
    output_base_dir, output_file_name, parse_channel_action, recording_exit_outcome, safe_name, ChannelState,
    ChannelStatus, CommandError, PasswordRegistry, WatcherCommand,
};

fn channel(name: &str, account: &str) -> Channel {
    Channel {
        platform: PlatformId::Soop,
        enabled: true,
        name: name.into(),
        account: account.into(),
        outdir: String::new(),
    }
}

fn chzzk_channel(enabled: bool) -> Channel {
    Channel {
        platform: PlatformId::Chzzk,
        enabled,
        name: "CHZZK".into(),
        account: "0123456789abcdef0123456789abcdef".into(),
        outdir: String::new(),
    }
}

#[test]
fn safe_filename_replaces_windows_reserved_chars() {
    assert_eq!(safe_name("a:b/c*?d", 80), "a_b_c__d");
    assert_eq!(safe_name("CON", 80), "_CON");
}

#[test]
fn recorder_exit_outcome_distinguishes_crashes() {
    assert_eq!(recording_exit_outcome(Some(0)), (true, "NORMAL".to_string()));
    assert_eq!(recording_exit_outcome(Some(23)), (false, "RECORDER EXIT CODE=23".to_string()));
    assert_eq!(recording_exit_outcome(None), (false, "RECORDER EXIT CODE=unknown".to_string()));
}

#[test]
fn channel_key_namespaces_accounts_by_platform() {
    assert_eq!(channel_key(PlatformId::Soop, "User"), "SOOP:user");
    assert_eq!(
        channel_key(PlatformId::Chzzk, "ABCDEF0123456789ABCDEF0123456789"),
        "CHZZK:abcdef0123456789abcdef0123456789"
    );
}

#[test]
fn channel_signature_is_case_insensitive_for_accounts() {
    let a = vec![channel("A", "UserA")];
    let b = vec![channel("A", "usera")];
    assert_eq!(channel_signature(&a), channel_signature(&b));
}

#[test]
fn soop_worker_credentials_are_needed_only_for_enabled_soop_channels() {
    assert!(!channels_require_soop(&[chzzk_channel(true)]));

    let mut disabled_soop = channel("SOOP", "disabled");
    disabled_soop.enabled = false;
    assert!(!channels_require_soop(&[disabled_soop, chzzk_channel(true)]));

    assert!(channels_require_soop(&[channel("SOOP", "enabled"), chzzk_channel(true)]));
}

#[test]
fn watcher_exit_replaces_paused_state_and_clears_runtime_markers() {
    let mut disabled = channel("Disabled", "disabled");
    disabled.enabled = false;
    let mut live = ChannelState::new(channel("Live", "live"), 0);
    live.status = ChannelStatus::Paused;
    live.last_broadcast_id = Some("123".into());
    live.suppressed_broadcast_id = Some("123".into());
    live.detail = Some("old detail".into());
    let mut states = vec![live, ChannelState::new(disabled, 0)];

    mark_watcher_stopped(&mut states);

    let live = &states[0];
    assert_eq!(live.status.as_str(), "WATCHER_STOPPED");
    assert!(live.last_broadcast_id.is_none());
    assert!(live.suppressed_broadcast_id.is_none());
    assert!(live.detail.is_none());
    assert_eq!(states[1].status.as_str(), "DISABLED");
}

#[test]
fn new_states_start_unknown_or_disabled() {
    let s = ChannelState::new(channel("A", "a"), 77);
    assert_eq!(s.status, ChannelStatus::Unknown);
    assert_eq!(s.next_check, 77);
    assert_eq!(ChannelState::new(chzzk_channel(false), 0).status, ChannelStatus::Disabled);
}

#[test]
fn deadlines_are_at_least_one_second_and_saturate() {
    assert_eq!(deadline_after(1000, 0), 2000);
    assert_eq!(deadline_after(1000, 30), 31_000);
    assert_eq!(deadline_after(u64::MAX - 5, 1), u64::MAX);
}

#[test]
fn channel_actions_parse() {
    assert!(matches!(parse_channel_action("a".into(), "stop"), Ok(WatcherCommand::StopOnce(a)) if a == "a"));
    assert!(matches!(parse_channel_action("a".into(), "resume"), Ok(WatcherCommand::Resume(_))));
    assert!(matches!(parse_channel_action("a".into(), "recheck"), Ok(WatcherCommand::Recheck(_))));
    assert_eq!(
        parse_channel_action("a".into(), "pause").unwrap_err(),
        CommandError::UnsupportedAction("pause".into())
    );
}

#[test]
fn output_names_follow_the_pattern() {
    assert_eq!(
        output_file_name("DEFAULT", "260101", "1200", "Ch", "Title", 0).as_deref(),
        Some("260101_1200_Ch.ts")
    );
    assert_eq!(
        output_file_name("BJ_TITLE", "260101", "1200", "Ch", "Ti:tle", 1).as_deref(),
        Some("260101_Ch_Ti_tle_02.ts")
    );
    assert_eq!(
        output_file_name("TITLE_NUMBER", "260101", "1200", "Ch", "Title", 0).as_deref(),
        Some("260101_Title_01_Ch.ts")
    );
    assert_eq!(output_file_name("DEFAULT", "d", "t", "c", "x", 9998), None);
    assert_eq!(output_base_dir("  ", "/rec"), "/rec");
    assert_eq!(output_base_dir(" /mine ", "/rec"), "/mine");
}

#[test]
fn passwords_are_kept_per_broadcast() {
    let mut registry = PasswordRegistry::new();
    registry.insert(PlatformId::Soop, "Acc", "100", "pw");
    assert_eq!(registry.password_for(PlatformId::Soop, "acc", "100").as_deref(), Some("pw"));
    assert_eq!(registry.password_for(PlatformId::Chzzk, "acc", "100"), None);
    assert_eq!(registry.password_for(PlatformId::Soop, "acc", "101"), None);
    assert_eq!(registry.password_for(PlatformId::Soop, "acc", "100"), None);
    registry.insert(PlatformId::Soop, "Acc", "100", "pw");
    registry.clear(PlatformId::Soop, "ACC");
    assert_eq!(registry.password_for(PlatformId::Soop, "acc", "100"), None);
}

#[test]
fn streamlink_is_configured_then_bundled() {
    let cfg = |v: &str, f: bool| (v.to_string(), f);
    let bundled = vec![cfg("backend/streamlink.exe", true)];
    assert_eq!(streamlink_choice(&[cfg("C:/sl.exe", true), cfg("", false)], &bundled), Some("C:/sl.exe".to_string()));
    assert_eq!(streamlink_choice(&[cfg("AUTO", true), cfg("D:/sl.exe", true)], &bundled), Some("D:/sl.exe".to_string()));
    assert_eq!(streamlink_choice(&[cfg("C:/missing.exe", false)], &bundled), Some("backend/streamlink.exe".to_string()));
    assert_eq!(streamlink_choice(&[cfg("  ", true)], &[cfg("x", false)]), None);
}

fn settings(user: &str, password: &str) -> WatcherSettings {
    WatcherSettings {
        check_interval: 30,
        reload_interval: 2,
        retry_interval: 5,
        worker_max_retry: 3,
        output_dir: "./SOOP_LIVE".to_string(),
        file_name_pattern: "LEGACY".to_string(),
        worker_url: "https://w".to_string(),
        worker_api_key: "k".to_string(),
        soop_username: user.to_string(),
        soop_password: password.to_string(),
        quality: "best".to_string(),
        stall_timeout: 90,
        monitor_interval: 5,
    }
}

#[test]
fn settings_hot_reload_keeps_previous_values_when_rejected() {
    let (c, a) = settings_reload(false, settings("a", "p"), Ok(settings("b", "p")), true);
    assert_eq!(c.soop_username, "a");
    assert!(matches!(a, ReloadAction::Unchanged));
    let (c, a) = settings_reload(true, settings("a", "p"), Err(WatcherConfigError::WorkerApiKeyEmpty), true);
    assert_eq!(c.soop_username, "a");
    assert!(matches!(a, ReloadAction::Rejected(WatcherConfigError::WorkerApiKeyEmpty)));
    let (c, a) = settings_reload(true, settings("a", "p"), Ok(settings("b", "p")), true);
    assert_eq!(c.soop_username, "b");
    assert!(matches!(a, ReloadAction::Applied { refresh_login: true }));
    let (_, a) = settings_reload(true, settings("a", "p"), Ok(settings("b", "p")), false);
    assert!(matches!(a, ReloadAction::Applied { refresh_login: false }));
    let (_, a) = settings_reload(true, settings("a", "p"), Ok(settings("a", "p")), true);
    assert!(matches!(a, ReloadAction::Applied { refresh_login: false }));
}

#[test]
fn channel_hot_reload_applies_only_changed_lists() {
    let list = vec![Channel {
        platform: PlatformId::Soop,
        name: "A".to_string(),
        account: "acc".to_string(),
        enabled: true,
        outdir: String::new(),
    }];
    let (_, a) = channel_reload(false, &list, settings("a", "p"), Ok(settings("a", "p")));
    assert!(matches!(a, ChannelReloadAction::Unchanged));
    let (c, a) = channel_reload(true, &list, settings("a", "p"), Err(WatcherConfigError::WorkerUrlNotHttps));
    assert_eq!(c.soop_username, "a");
    assert!(matches!(a, ChannelReloadAction::RejectedConfig(WatcherConfigError::WorkerUrlNotHttps)));
    let (c, a) = channel_reload(true, &list, settings("a", "p"), Ok(settings("b", "q")));
    assert_eq!(c.soop_username, "b");
    assert!(matches!(a, ChannelReloadAction::Applied { refresh_login: true }));
}

#[test]
fn start_while_running_returns_current_and_launches_nothing() {
    let channels = vec![channel("a", "abc")];
    let running = start_decision(WatcherTask::Running, &channels, Ok(settings("u", "p")), Some("/bin/streamlink".into()));
    assert!(matches!(running, StartDecision::AlreadyRunning));
    let running_bad = start_decision(WatcherTask::Running, &channels, Err(WatcherConfigError::WorkerApiKeyEmpty), None);
    assert!(matches!(running_bad, StartDecision::AlreadyRunning));
    let fresh = start_decision(WatcherTask::Absent, &channels, Ok(settings("u", "p")), Some("/bin/streamlink".into()));
    assert!(matches!(fresh, StartDecision::Launch { collect_finished: false, ref streamlink, .. } if streamlink == "/bin/streamlink"));
    let restart = start_decision(WatcherTask::Finished, &channels, Ok(settings("u", "p")), Some("sl".into()));
    assert!(matches!(restart, StartDecision::Launch { collect_finished: true, .. }));
    let refused = start_decision(WatcherTask::Absent, &channels, Err(WatcherConfigError::WorkerUrlNotHttps), Some("sl".into()));
    assert!(matches!(
        refused,
        StartDecision::Refused { collect_finished: false, reason: StartRefusal::Config(WatcherConfigError::WorkerUrlNotHttps) }
    ));
    let no_streamlink = start_decision(WatcherTask::Finished, &channels, Ok(settings("u", "p")), None);
    assert!(matches!(no_streamlink, StartDecision::Refused { collect_finished: true, reason: StartRefusal::NoStreamlink }));
}

#[test]
fn recording_names_skip_existing_files() {
    let first = choose_output_file_name("BJ_TITLE", "240101", "120000", "chan", "title", &[false]);
    assert_eq!(first, NameChoice::Free { attempt: 0, name: "240101_chan_title.ts".into() });
    let second = choose_output_file_name("BJ_TITLE", "240101", "120000", "chan", "title", &[true, true, false]);
    assert_eq!(second, NameChoice::Free { attempt: 2, name: "240101_chan_title_03.ts".into() });
    assert_eq!(choose_output_file_name("BJ_TITLE", "240101", "120000", "chan", "title", &[true]), NameChoice::NeedFacts);
    let numbered = choose_output_file_name("TITLE_NUMBER", "240101", "120000", "chan", "title", &[true, false]);
    assert_eq!(numbered, NameChoice::Free { attempt: 1, name: "240101_title_02_chan.ts".into() });
    assert_eq!(choose_output_file_name("LEGACY", "d", "t", "c", "x", &vec![true; 9998]), NameChoice::Exhausted);
    assert_eq!(choose_output_file_name("TITLE_NUMBER", "d", "t", "c", "x", &vec![true; 9998]), NameChoice::NeedFacts);
}

#[test]
fn stored_values_compare_as_maps() {
    let a = vec![("A".to_string(), "1".to_string()), ("B".to_string(), "2".to_string())];
    let b = vec![("A".to_string(), "1".to_string()), ("B".to_string(), "3".to_string())];
    assert!(!settings_values_changed(&a, &a.clone()));
    assert!(settings_values_changed(&a, &b));
    assert!(settings_values_changed(&a, &a[..1].to_vec()));
}
