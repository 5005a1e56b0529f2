use stream_archive::recorder::choose_live_output_name;
use stream_archive::vod::{choose_collision_name, NameChoice};
use stream_archive::backend::logs_response;
use stream_archive::recorder::finished_status;
use stream_archive::recorder::{stream_url, streamlink_args};
use stream_archive::live::StreamInput;
use stream_archive::platform::PlatformId;
use stream_archive::recorder::live_output_file_name;
use stream_archive::backend::{strip_windows_verbatim_prefix, LogBuffer, LOG_CAPACITY};
use stream_archive::launcher::{local_endpoint, probe_response, Probe};
use stream_archive::live::HttpCookie;
use stream_archive::recorder::{
    netscape_cookie_text, poll_after_disk, poll_before_disk, timestamp_rebase_player_args, PollOutcome,
    RecorderError, COOKIE_FILE_EXPIRES_UNIX,
};
use stream_archive::storage::{classify_status, format_bytes_compact};

#[test]
fn compact_bytes_formats_gib_and_tib() {
    let gib = 1024_u64 * 1024 * 1024;
    assert_eq!(format_bytes_compact(640 * gib), "640.0 GiB");
    assert_eq!(format_bytes_compact(2 * 1024 * gib), "2.00 TiB");
}

#[test]
fn compact_bytes_match_float_formatting() {
    for bytes in [0u64, 1, 1023, 1024, 1536, 1_048_575, 1_048_576, 5_000_000_000, 1_099_511_627_776, u64::MAX, 3_000_000_000_000_000] {
        let v = bytes as f64;
        let expected = if v >= 1099511627776.0 {
            format!("{:.2} TiB", v / 1099511627776.0)
        } else if v >= 1073741824.0 {
            format!("{:.1} GiB", v / 1073741824.0)
        } else if v >= 1048576.0 {
            format!("{:.1} MiB", v / 1048576.0)
        } else if v >= 1024.0 {
            format!("{:.1} KiB", v / 1024.0)
        } else {
            format!("{bytes} B")
        };
        assert_eq!(format_bytes_compact(bytes), expected, "bytes={bytes}");
    }
}

#[test]
fn storage_thresholds_match_web_semantics() {
    let gib = 1024_u64 * 1024 * 1024;
    let threshold = 20 * gib;
    assert_eq!(classify_status(20 * gib, threshold), "CRITICAL");
    assert_eq!(classify_status(30 * gib, threshold), "WARN");
    assert_eq!(classify_status(40 * gib, threshold), "WARN");
    assert_eq!(classify_status(41 * gib, threshold), "OK");
    assert_eq!(classify_status(u64::MAX, u64::MAX / 2 + 1), "WARN");
}

#[test]
fn timestamp_rebase_player_args_write_zero_based_mpegts_stream_copy() {
    let args = timestamp_rebase_player_args("capture.ts").unwrap();
    assert!(args.contains("-fflags +genpts+discardcorrupt"));
    assert!(args.contains("-i {playerinput}"));
    assert!(args.contains("-c copy"));
    assert!(args.contains("-bsf:v h264_mp4toannexb"));
    assert!(args.contains("-f mpegts"));
    assert!(args.contains("-mpegts_flags resend_headers"));
    assert!(args.contains("-mpegts_copyts 0"));
    assert!(args.contains("-avoid_negative_ts make_zero"));
    assert!(args.contains("-muxpreload 0 -muxdelay 0"));
    assert!(args.ends_with("-avioflags direct -y \"capture.ts\""));
    assert!(!args.contains("frag_keyframe"));
}

#[test]
fn timestamp_rebase_player_args_escape_streamlink_format_braces() {
    let args = timestamp_rebase_player_args("capture_{live}.ts").unwrap();
    assert!(args.contains("capture_{{live}}.ts"));
    assert_eq!(timestamp_rebase_player_args("a\"b.ts"), Err(RecorderError::QuoteInOutputPath));
}

#[test]
fn writes_netscape_cookie_file_with_non_expired_cookie() {
    let text = netscape_cookie_text(&[HttpCookie {
        domain: ".naver.com".into(),
        name: "NID_AUT".into(),
        value: "secret-value".into(),
        secure: true,
    }])
    .unwrap();
    assert!(text.starts_with("# Netscape HTTP Cookie File\n"));
    assert!(text.contains(&format!(".naver.com\tTRUE\t/\tTRUE\t{}\tNID_AUT\tsecret-value", COOKIE_FILE_EXPIRES_UNIX)));
    assert!(!text.contains("\t0\tNID_AUT\t"));
    let bad = netscape_cookie_text(&[HttpCookie { domain: "x".into(), name: "a\tb".into(), value: "v".into(), secure: false }]);
    assert_eq!(bad, Err(RecorderError::InvalidCookieData));
    let host = netscape_cookie_text(&[HttpCookie { domain: "naver.com".into(), name: "n".into(), value: "v".into(), secure: false }]).unwrap();
    assert!(host.contains("naver.com\tFALSE\t/\tFALSE\t4102444800\tn\tv\n"));
}

#[test]
fn polls_conclude_in_order() {
    assert_eq!(poll_before_disk(Some(Some(3)), 0, 5), Some(PollOutcome::Exited(Some(3))));
    assert_eq!(poll_before_disk(None, 4_999, 5), Some(PollOutcome::Running));
    assert_eq!(poll_before_disk(None, 5_000, 5), None);
    assert_eq!(poll_before_disk(None, 999, 0), Some(PollOutcome::Running));
    assert_eq!(poll_after_disk(true, 10, 0, 0, 60), (PollOutcome::LowDisk, false));
    assert_eq!(poll_after_disk(false, 10, 5, 0, 60), (PollOutcome::Running, true));
    assert_eq!(poll_after_disk(false, 5, 5, 60_000, 60), (PollOutcome::Stalled, false));
    assert_eq!(poll_after_disk(false, 5, 5, 59_999, 60), (PollOutcome::Running, false));
    assert_eq!(poll_after_disk(false, 5, 5, 10_000, 1), (PollOutcome::Stalled, false));
}

#[test]
fn runtime_logs_are_bounded_by_requested_tail() {
    let mut logs = LogBuffer::new();
    for index in 0..8 {
        logs.push(format!("line-{index}"));
    }
    assert_eq!(logs.tail(3), vec!["line-5", "line-6", "line-7"]);
    assert_eq!(logs.tail(0), vec!["line-7"]);
    for index in 0..500 {
        logs.push(format!("more-{index}"));
    }
    let all = logs.tail(10_000);
    assert_eq!(all.len(), LOG_CAPACITY);
    assert_eq!(logs.len(), LOG_CAPACITY);
    assert_eq!(all.last().unwrap(), "more-499");
    assert_eq!(all[0], "more-100");
}

#[test]
fn endpoint_defaults_to_loopback() {
    let endpoint = local_endpoint(None);
    assert_eq!(endpoint.address, "127.0.0.1:8787");
    assert_eq!(endpoint.url, "http://127.0.0.1:8787/");
    assert_eq!(local_endpoint(Some("0.0.0.0:9000")).url, "http://127.0.0.1:9000/");
    assert_eq!(local_endpoint(Some("[::1]:9001")).port, 9001);
    assert_eq!(local_endpoint(Some("host:99999")).port, 8787);
    assert_eq!(local_endpoint(Some("nohost")).port, 8787);
}

#[test]
fn launcher_recognises_its_server() {
    assert_eq!(probe_response("HTTP/1.1 200 OK\r\n\r\n<title>Stream Archive</title>"), Probe::StreamArchive);
    assert_eq!(probe_response("HTTP/1.1 200 OK\r\n\r\nhello"), Probe::Other);
}

#[test]
fn verbatim_prefixes_are_removed() {
    assert_eq!(strip_windows_verbatim_prefix(r"\\?\UNC\server\share\x"), r"\\server\share\x");
    assert_eq!(strip_windows_verbatim_prefix(r"\\?\C:\dir"), r"C:\dir");
    assert_eq!(strip_windows_verbatim_prefix(r"C:\dir"), r"C:\dir");
}

use stream_archive::storage::{collapse_volumes, VolumeFacts, VolumeProbe};

fn on(key: &str, role: &str, path: &str) -> VolumeProbe {
    VolumeProbe {
        role: role.into(),
        path: path.into(),
        outcome: Ok(VolumeFacts { key: key.into(), probe_path: path.into(), total_bytes: 100, free_bytes: 50 }),
    }
}

#[test]
fn same_volume_targets_are_collapsed() {
    let groups = collapse_volumes(&[on("/", "LIVE 기본", "/tmp/one"), on("/", "LIVE · test", "/tmp/two")]);
    assert_eq!(groups.len(), 1);
    assert_eq!(groups[0].roles.len(), 2);
    assert_eq!(groups[0].paths.len(), 2);
    assert_eq!(groups[0].origin, 0);
}

#[test]
fn volumes_are_listed_by_key_and_failures_stand_alone() {
    let failed = VolumeProbe { role: "R".into(), path: "/Missing".into(), outcome: Err("no parent".into()) };
    let groups = collapse_volumes(&[on("d:", "a", "d:/x"), on("c:", "b", "c:/y"), failed, on("c:", "b", "c:/y")]);
    let keys: Vec<&str> = groups.iter().map(|g| g.key.as_str()).collect();
    assert_eq!(keys, vec!["c:", "d:", "error:/missing"]);
    assert_eq!(groups[0].roles, vec!["b".to_string()]);
    assert_eq!(groups[0].paths, vec!["c:/y".to_string()]);
    assert_eq!(groups[2].origin, 2);
}

#[test]
fn uses_platform_specific_live_output_extension_without_overwriting_existing_file() {
    assert_eq!(live_output_file_name("capture.ts", PlatformId::Soop, 0).unwrap(), "capture.ts");
    assert_eq!(live_output_file_name("capture.ts", PlatformId::Chzzk, 0).unwrap(), "capture.ts");
    assert_eq!(live_output_file_name("capture.ts", PlatformId::Chzzk, 1).unwrap(), "capture_02.ts");
}

#[test]
fn live_output_names_keep_extension_case_and_number_collisions() {
    assert_eq!(live_output_file_name("capture.TS", PlatformId::Soop, 0).unwrap(), "capture.TS");
    assert_eq!(live_output_file_name("capture.ts", PlatformId::Soop, 1).unwrap(), "capture_02.ts");
    assert_eq!(live_output_file_name("capture.mp4", PlatformId::Chzzk, 0).unwrap(), "capture.ts");
    assert_eq!(live_output_file_name("capture", PlatformId::Chzzk, 10).unwrap(), "capture_11.ts");
    assert_eq!(live_output_file_name(".hidden", PlatformId::Soop, 0).unwrap(), ".hidden.ts");
    assert!(live_output_file_name("capture.ts", PlatformId::Soop, 9999).is_none());
}

#[test]
fn direct_playlists_get_hls_scheme_once() {
    assert_eq!(stream_url(&StreamInput::DirectHls("https://cdn/x.m3u8".to_string())), "hls://https://cdn/x.m3u8");
    assert_eq!(stream_url(&StreamInput::DirectHls("HLS://cdn/x.m3u8".to_string())), "HLS://cdn/x.m3u8");
    let plugin = StreamInput::PluginUrl { url: "https://chzzk.naver.com/live/abc".to_string(), cookies: vec![], start_at_zero: true };
    assert_eq!(stream_url(&plugin), "https://chzzk.naver.com/live/abc");
}

#[test]
fn streamlink_arguments_follow_recording_mode() {
    let plain = streamlink_args(None, None, "out.ts", 90, 5, "hls://u", "best");
    assert_eq!(
        plain,
        vec![
            "--output", "out.ts", "--force", "--progress", "no", "--hls-live-edge", "3",
            "--stream-segment-threads", "3", "--stream-segmented-queue-deadline", "0", "--stream-timeout", "95",
            "hls://u", "best",
        ]
    );
    let rebased = streamlink_args(Some("c.txt"), Some(("ffmpeg", "-i x")), "out.ts", 0, 0, "u", "720p");
    assert_eq!(&rebased[..7], &["--http-cookies-file", "c.txt", "--player", "ffmpeg", "--player-args", "-i x", "--player-verbose"]);
    assert_eq!(rebased[rebased.len() - 3], "11");
    let huge = streamlink_args(None, None, "o", u64::MAX, 5, "u", "q");
    assert_eq!(huge[huge.len() - 3], u64::MAX.to_string());
}

#[test]
fn finished_recordings_are_classified_by_reason() {
    assert_eq!(finished_status("NORMAL"), "COMPLETED");
    assert_eq!(finished_status("STALLED no growth"), "FAILED");
    assert_eq!(finished_status("EXIT CODE 1"), "FAILED");
    assert_eq!(finished_status("USER STOP"), "STOPPED");
}

#[test]
fn live_output_name_is_the_first_that_does_not_exist() {
    assert_eq!(
        choose_live_output_name("capture.ts", PlatformId::Chzzk, &[false]),
        NameChoice::Free { attempt: 0, name: "capture.ts".into() }
    );
    assert_eq!(
        choose_live_output_name("capture.ts", PlatformId::Chzzk, &[true, false]),
        NameChoice::Free { attempt: 1, name: "capture_02.ts".into() }
    );
    assert_eq!(choose_live_output_name("capture.ts", PlatformId::Soop, &[true, true]), NameChoice::NeedFacts);
    assert_eq!(choose_live_output_name("capture.ts", PlatformId::Soop, &vec![true; 9999]), NameChoice::Exhausted);
    assert_eq!(
        choose_collision_name("240101_x_y", "mp4", &[true, true, true, false]),
        NameChoice::Free { attempt: 3, name: "240101_x_y_04.mp4".into() }
    );
    assert_eq!(choose_collision_name("b", "mp4", &vec![true; 10000]), NameChoice::Exhausted);
}

#[test]
fn log_tail_after_many_pushes_keeps_the_newest() {
    let mut log = LogBuffer::new();
    for i in 0..8 {
        log.push(format!("line-{i}"));
    }
    assert_eq!(log.tail(3), vec!["line-5", "line-6", "line-7"]);
    assert_eq!(log.tail(0), vec!["line-7"]);
    for i in 8..1000 {
        log.push(format!("line-{i}"));
    }
    assert_eq!(log.len(), LOG_CAPACITY);
    let all = logs_response(&log).lines;
    assert_eq!(all.len(), 400);
    assert_eq!(all[0], "line-600");
    assert_eq!(all[399], "line-999");
    assert_eq!(log.tail(5000).len(), 400);
}

#[test]
fn settings_live_in_the_database_not_a_file() {
    assert_eq!(stream_archive::backend::settings_path("/srv/backend"), "");
}
