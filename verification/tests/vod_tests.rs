use stream_archive::vod::{running_platform, vod_target_platform};
use stream_archive::platform::PlatformId;
use stream_archive::vod::vod_job_kind;
use stream_archive::vod::{
    analysis_view, finished_job, finished_output_choice, collision_name, download_attempts, download_base_name, format_selector, metadata_from_fields,
    progress_text, push_tail, quality_options, redact, retry_after_failure, retry_delay_secs, short_date,
    tail_summary, validate_download_request, validate_retries, validate_url, video_id, FormatHeight,
    VodDownloadRequest, VodError,
};

#[test]
fn recognizes_only_chzzk_video_urls() {
    assert_eq!(video_id("https://chzzk.naver.com/video/6325166").unwrap(), "6325166");
    assert_eq!(video_id("https://chzzk.naver.com/video/6325166?foo=bar").unwrap(), "6325166");
    assert!(video_id("https://chzzk.naver.com/live/abc").is_err());
    assert!(video_id("https://example.com/video/6325166").is_err());
}

#[test]
fn builds_quality_options_from_video_heights() {
    let formats = [
        FormatHeight { audio_only: false, height: Some(1080) },
        FormatHeight { audio_only: false, height: Some(720) },
        FormatHeight { audio_only: false, height: Some(1080) },
        FormatHeight { audio_only: true, height: None },
    ];
    let options = quality_options(&formats);
    assert_eq!(options[0].value, "best");
    assert_eq!(options[1].value, "best[height<=1080]");
    assert_eq!(options[2].value, "best[height<=720]");
    assert_eq!(options.len(), 3);
    assert_eq!(options[2].label, "720p 이하");
}

#[test]
fn maps_ui_quality_to_ytdlp_selector() {
    assert_eq!(format_selector("best"), "bestvideo*+bestaudio/best");
    assert_eq!(
        format_selector("best[height<=1080]"),
        "bestvideo*[height<=1080]+bestaudio/best[height<=1080]"
    );
}

fn request() -> VodDownloadRequest {
    VodDownloadRequest {
        vod_url: "https://chzzk.naver.com/video/6325166".into(),
        output_directory: "C:\\VOD".into(),
        parts: vec![1],
        quality: "best".into(),
        merge: true,
        cookie_mode: "SOOP_LOGIN".into(),
        cookie_file: String::new(),
        browser_name: "firefox".into(),
        yt_dlp_path: String::new(),
        ffmpeg_path: String::new(),
        max_retries: 5,
    }
}

#[test]
fn validates_single_part_download_contract() {
    let mut req = request();
    assert!(validate_download_request(&req).is_ok());
    req.parts = vec![2];
    assert!(validate_download_request(&req).is_err());
}

#[test]
fn download_request_errors() {
    let mut req = request();
    req.max_retries = 0;
    assert_eq!(validate_download_request(&req), Err(VodError::RetriesOutOfRange));
    let mut req = request();
    req.output_directory = "   ".into();
    assert_eq!(validate_download_request(&req), Err(VodError::NoOutputDirectory));
    let mut req = request();
    req.quality = "worst".into();
    assert_eq!(validate_download_request(&req), Err(VodError::UnsupportedQuality));
    let mut req = request();
    req.quality = "best[height<=720]".into();
    assert!(validate_download_request(&req).is_ok());
    let mut req = request();
    req.vod_url = "ftp://chzzk.naver.com/video/1".into();
    assert_eq!(validate_download_request(&req), Err(VodError::NotHttp));
    assert_eq!(validate_url("::"), Err(VodError::MalformedUrl));
    assert_eq!(validate_url("https://example.com/video/1"), Err(VodError::NotChzzkHost));
    assert_eq!(validate_url("https://chzzk.naver.com/video/x1"), Err(VodError::NotVideoPath));
    assert!(validate_retries(20).is_ok());
    assert!(validate_retries(21).is_err());
}

#[test]
fn metadata_json_maps_to_common_analysis_shape() {
    let metadata = metadata_from_fields(
        Some("테스트 VOD".into()),
        Some("테스트 채널".into()),
        None,
        Some("0123456789abcdef0123456789abcdef".into()),
        None,
        1234,
        Some("20260913".into()),
        "990101",
        &[FormatHeight { audio_only: false, height: Some(1080) }],
    )
    .unwrap();
    assert_eq!(metadata.title, "테스트 VOD");
    assert_eq!(metadata.streamer, "테스트 채널");
    assert_eq!(metadata.date, "260913");
    assert_eq!(metadata.duration_seconds, 1234);
    let view = analysis_view("https://chzzk.naver.com/video/1", &metadata);
    assert_eq!(view.part_count, 1);
    assert_eq!(view.parts[0].part, 1);
    assert_eq!(view.parts[0].duration_seconds, 1234);
    assert_eq!(view.qualities.len(), 2);
}

#[test]
fn metadata_needs_a_title_and_falls_back_for_the_rest() {
    let err = metadata_from_fields(Some("  ".into()), None, None, None, None, 0, None, "990101", &[]);
    assert!(matches!(err, Err(VodError::NoTitle)));
    let m = metadata_from_fields(Some("T".into()), None, Some(" up ".into()), None, None, 5, Some("2026".into()), "990101", &[])
        .unwrap();
    assert_eq!(m.streamer, "up");
    assert_eq!(m.streamer_id, "");
    assert_eq!(m.date, "990101");
    let anon = metadata_from_fields(Some("T".into()), None, None, None, None, 5, None, "990101", &[]).unwrap();
    assert_eq!(anon.streamer, "CHZZK");
    assert_eq!(short_date("2026-09-13").as_deref(), Some("260913"));
    assert_eq!(short_date("2026"), None);
}

#[test]
fn redacts_naver_cookie_values() {
    let text = redact("NID_AUT=aaa; NID_SES=bbb other").unwrap();
    assert!(!text.contains("aaa"));
    assert!(!text.contains("bbb"));
    assert!(text.contains("NID_AUT=<redacted>"));
    assert!(text.contains("NID_SES=<redacted>"));
}

#[test]
fn tail_keeps_twenty_redacted_lines() {
    let mut tail: Vec<String> = Vec::new();
    for i in 0..25 {
        push_tail(&mut tail, &format!(" line {i} nid_aut=secret{i} "));
    }
    assert_eq!(tail.len(), 20);
    assert_eq!(tail[0], "line 5 nid_aut=<redacted>");
    assert_eq!(tail[19], "line 24 nid_aut=<redacted>");
    push_tail(&mut tail, "   ");
    assert_eq!(tail.len(), 19);
    assert_eq!(tail[0], "line 6 nid_aut=<redacted>");
    let summary = tail_summary(&tail[17..]).unwrap();
    assert_eq!(summary, "line 23 nid_aut=<redacted> | line 24 nid_aut=<redacted>");
}

#[test]
fn progress_lines_give_their_percentage() {
    assert_eq!(progress_text("__CHZZK_PROGRESS__  42.5% ").as_deref(), Some("42.5"));
    assert_eq!(progress_text("x __CHZZK_PROGRESS__100%%").as_deref(), Some("100"));
    assert_eq!(progress_text("[download] 42%"), None);
}

#[test]
fn names_and_retries() {
    let m = metadata_from_fields(Some("제목: 1/2".into()), Some("채널".into()), None, None, None, 1, Some("20260913".into()), "x", &[])
        .unwrap();
    assert_eq!(download_base_name(&m), "260913_채널_제목_ 1_2");
    assert_eq!(collision_name("base", "mp4", 0).as_deref(), Some("base.mp4"));
    assert_eq!(collision_name("base", "mp4", 1).as_deref(), Some("base_02.mp4"));
    assert_eq!(collision_name("base", "mp4", 9998).as_deref(), Some("base_9999.mp4"));
    assert_eq!(collision_name("base", "mp4", 9999), None);
    assert_eq!(download_attempts(0), 1);
    assert_eq!(download_attempts(5), 5);
    assert_eq!(retry_delay_secs(2), 2);
    assert_eq!(retry_delay_secs(9), 5);
    assert_eq!(retry_after_failure(1, 3), Some(1));
    assert_eq!(retry_after_failure(3, 3), None);
}

#[test]
fn finished_job_states() {
    let (state, message) = finished_job(true, Some("boom")).unwrap();
    assert_eq!(state, "CANCELLED");
    assert_eq!(message.unwrap(), "CHZZK VOD 작업이 취소되었습니다.");
    assert!(finished_job(false, None).is_none());
    let (state, message) = finished_job(false, Some("failed NID_AUT=abc; x")).unwrap();
    assert_eq!(state, "FAILED");
    assert_eq!(message.unwrap(), "failed NID_AUT=<redacted>; x");
}

#[test]
fn finished_output_takes_first_matching_name() {
    let entries = vec![
        ("show.f137.webm".to_string(), true),
        ("other.mp4".to_string(), true),
        ("show.MKV".to_string(), true),
        ("show.part".to_string(), true),
        ("show.mp4".to_string(), false),
    ];
    assert_eq!(finished_output_choice("show.mp4", &entries), Some(2));
    let none = vec![("other.mp4".to_string(), true), (".show".to_string(), true)];
    assert_eq!(finished_output_choice("show.mp4", &none), None);
}

#[test]
fn job_kinds_follow_state_and_output() {
    assert_eq!(vod_job_kind("READY", false), "ANALYZE");
    assert_eq!(vod_job_kind("ANALYZING", true), "ANALYZE");
    assert_eq!(vod_job_kind("MERGING", false), "DOWNLOAD");
    assert_eq!(vod_job_kind("FAILED", true), "DOWNLOAD");
    assert_eq!(vod_job_kind("FAILED", false), "JOB");
}

#[test]
fn running_vod_job_decides_the_platform_shown() {
    assert_eq!(running_platform(true, true), Some(PlatformId::Soop));
    assert_eq!(running_platform(false, true), Some(PlatformId::Chzzk));
    assert_eq!(running_platform(false, false), None);
    assert_eq!(vod_target_platform(false, false, PlatformId::Chzzk), PlatformId::Chzzk);
    assert_eq!(vod_target_platform(false, true, PlatformId::Soop), PlatformId::Chzzk);
}
