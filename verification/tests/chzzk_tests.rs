use stream_archive::chzzk::{ChzzkAuthState, VodCookieError};
use stream_archive::vod::{download_args, metadata_args, metadata_failure_hint, vod_tool_choice};
use stream_archive::chzzk::{
    auth_failure, parse_probe_content, resolve_stream_with_auth, ChzzkAuth, ChzzkError, ChzzkProbe, LiveContent,
    LiveDetail,
};
use stream_archive::live::StreamInput;

const CHANNEL: &str = "0123456789abcdef0123456789abcdef";

fn open_live(adult: bool, membership: Option<&str>, playback: Option<&str>) -> LiveDetail {
    LiveDetail {
        code: Some(200),
        message: None,
        content: Some(LiveContent {
            status: Some("OPEN".into()),
            live_id_number: Some(123),
            live_id_text: None,
            channel_name: Some("테스트 채널".into()),
            live_title: Some("테스트 방송".into()),
            adult: Some(adult),
            membership_benefit_type: membership.map(|m| m.to_string()),
            live_playback_json: playback.map(|p| p.to_string()),
        }),
    }
}

#[test]
fn requires_both_naver_cookies_for_complete_auth() {
    assert!(!ChzzkAuth::from_plain("", "").configured());
    assert!(ChzzkAuth::from_plain("aut", "").partial());
    assert!(ChzzkAuth::from_plain("", "ses").partial());
    assert!(ChzzkAuth::from_plain("aut", "ses").configured());
}

#[test]
fn builds_cookie_header_and_streamlink_cookie_list() {
    let auth = ChzzkAuth::from_plain("aut", "ses");
    assert_eq!(auth.cookie_header().as_deref(), Some("NID_AUT=aut; NID_SES=ses"));
    let cookies = auth.streamlink_cookies();
    assert_eq!(cookies.len(), 2);
    assert_eq!(cookies[0].name, "NID_AUT");
    assert_eq!(cookies[1].name, "NID_SES");
}

#[test]
fn auth_failure_distinguishes_missing_partial_and_invalid() {
    assert!(matches!(auth_failure(&ChzzkAuth::from_plain("", "")).unwrap(), ChzzkProbe::AuthRequired));
    let partial = auth_failure(&ChzzkAuth::from_plain("aut", "")).unwrap_err().message();
    assert!(partial.contains("하나만 설정"));
    let invalid = auth_failure(&ChzzkAuth::from_plain("aut", "ses")).unwrap_err().message();
    assert!(invalid.contains("만료되었거나"));
}

#[test]
fn public_live_does_not_require_auth() {
    let probe = parse_probe_content(CHANNEL, &open_live(false, None, Some("{}")), &ChzzkAuth::from_plain("", ""))
        .unwrap();
    let ChzzkProbe::Live(live) = probe else {
        panic!("expected live probe");
    };
    assert!(!live.requires_auth);
    assert!(!live.adult);
}

#[test]
fn adult_and_membership_live_require_auth_when_playback_is_hidden() {
    for value in [open_live(true, None, None), open_live(false, Some("MEMBER_ONLY"), None)] {
        assert!(matches!(
            parse_probe_content(CHANNEL, &value, &ChzzkAuth::from_plain("", "")).unwrap(),
            ChzzkProbe::AuthRequired
        ));
    }
}

#[test]
fn configured_restricted_live_passes_cookies_to_streamlink() {
    let auth = ChzzkAuth::from_plain("aut", "ses");
    let probe = parse_probe_content(CHANNEL, &open_live(true, None, Some("{}")), &auth).unwrap();
    let ChzzkProbe::Live(live) = probe else {
        panic!("expected live probe");
    };
    let resolved = resolve_stream_with_auth(CHANNEL, &live, &auth).unwrap();
    let StreamInput::PluginUrl { cookies, .. } = resolved.input else {
        panic!("expected plugin URL");
    };
    assert_eq!(cookies.len(), 2);
}

#[test]
fn public_live_omits_auth_cookies_from_streamlink() {
    let auth = ChzzkAuth::from_plain("aut", "ses");
    let probe = parse_probe_content(CHANNEL, &open_live(false, None, Some("{}")), &auth).unwrap();
    let ChzzkProbe::Live(live) = probe else {
        panic!("expected live probe");
    };
    let resolved = resolve_stream_with_auth(CHANNEL, &live, &auth).unwrap();
    let StreamInput::PluginUrl { cookies, .. } = resolved.input else {
        panic!("expected plugin URL");
    };
    assert!(cookies.is_empty());
}

#[test]
fn open_live_without_playback_is_not_misreported_as_offline() {
    let err = parse_probe_content(CHANNEL, &open_live(false, None, None), &ChzzkAuth::from_plain("", ""))
        .unwrap_err()
        .message();
    assert!(err.contains("재생 정보를 받지 못했습니다"));
}

#[test]
fn closed_broadcasts_are_offline_and_api_errors_are_reported() {
    let mut closed = open_live(false, None, None);
    if let Some(content) = closed.content.as_mut() {
        content.status = Some("CLOSE".into());
    }
    assert!(matches!(
        parse_probe_content(CHANNEL, &closed, &ChzzkAuth::from_plain("", "")).unwrap(),
        ChzzkProbe::Offline
    ));
    let failed = LiveDetail { code: Some(500), message: Some("boom".into()), content: None };
    let err = parse_probe_content(CHANNEL, &failed, &ChzzkAuth::from_plain("", "")).unwrap_err();
    assert!(matches!(err, ChzzkError::Api { code: 500, .. }));
    assert!(err.message().contains("code=500"));
}

#[test]
fn missing_cookies_refuse_restricted_streams() {
    let probe = parse_probe_content(
        CHANNEL,
        &open_live(true, None, Some("{}")),
        &ChzzkAuth::from_plain("aut", "ses"),
    )
    .unwrap();
    let ChzzkProbe::Live(live) = probe else {
        panic!("expected live probe");
    };
    assert!(live.requires_auth);
    assert!(matches!(
        resolve_stream_with_auth(CHANNEL, &live, &ChzzkAuth::from_plain("", "")),
        Err(ChzzkError::CookiesRequired)
    ));
    assert!(matches!(
        resolve_stream_with_auth(CHANNEL, &live, &ChzzkAuth::from_plain("aut", "")),
        Err(ChzzkError::PartialCookiesForStream)
    ));
}

#[test]
fn vod_cookie_file_holds_both_naver_cookies() {
    assert_eq!(ChzzkAuth::from_plain("", "").vod_cookie_text(), Ok(None));
    assert_eq!(ChzzkAuth::from_plain("a", "").vod_cookie_text(), Err(VodCookieError::PartialLogin));
    assert_eq!(ChzzkAuth::from_plain("a\tb", "s").vod_cookie_text(), Err(VodCookieError::InvalidCookie));
    let text = ChzzkAuth::from_plain("aut", "ses").vod_cookie_text().unwrap().unwrap();
    assert_eq!(
        text,
        "# Netscape HTTP Cookie File\n.naver.com\tTRUE\t/\tTRUE\t4102444800\tNID_AUT\taut\n.naver.com\tTRUE\t/\tTRUE\t4102444800\tNID_SES\tses\n"
    );
}

#[test]
fn yt_dlp_arguments() {
    assert_eq!(
        metadata_args(Some("c.txt"), "https://chzzk.naver.com/video/1"),
        vec!["--dump-single-json", "--skip-download", "--no-playlist", "--no-warnings", "--cookies", "c.txt", "https://chzzk.naver.com/video/1"]
    );
    let args = download_args(" best[height<=720] ", "out.mp4", None, Some("ff"), "u");
    assert_eq!(
        args,
        vec![
            "--no-playlist", "--newline", "--progress", "--progress-template",
            "download:__CHZZK_PROGRESS__%(progress._percent_str)s", "-f",
            "bestvideo*[height<=720]+bestaudio/best[height<=720]", "--merge-output-format", "mp4", "-o", "out.mp4",
            "--ffmpeg-location", "ff", "u",
        ]
    );
    assert_eq!(download_args("best", "o", None, None, "u")[6], "bestvideo*+bestaudio/best");
}

#[test]
fn metadata_failures_explain_login_state() {
    assert!(metadata_failure_hint(ChzzkAuthState::Missing).contains("NID_AUT/NID_SES를 저장"));
    assert!(metadata_failure_hint(ChzzkAuthState::Partial).contains("일부만"));
    assert!(metadata_failure_hint(ChzzkAuthState::Configured).contains("만료"));
}

#[test]
fn vod_tool_is_configured_bundled_or_on_path() {
    let bundled = vec![("b1".to_string(), false), ("b2".to_string(), true)];
    assert_eq!(vod_tool_choice(" C:/yt.exe ", true, &bundled, None), Some("C:/yt.exe".to_string()));
    assert_eq!(vod_tool_choice("C:/yt.exe", false, &bundled, Some("p".to_string())), None);
    assert_eq!(vod_tool_choice("auto", false, &bundled, None), Some("b2".to_string()));
    assert_eq!(vod_tool_choice("", false, &[], Some("p".to_string())), Some("p".to_string()));
}

#[test]
fn auth_load_reports_the_first_unreadable_cookie() {
    let ok = ChzzkAuth::load(Ok("aut".into()), Ok("ses".into())).unwrap();
    assert!(ok.configured());
    assert_eq!(ok.state(), ChzzkAuthState::Configured);
    let partial = ChzzkAuth::load(Ok("aut".into()), Ok(String::new())).unwrap();
    assert_eq!(partial.state(), ChzzkAuthState::Partial);
    assert_eq!(ChzzkAuth::load(Err("aut bad".into()), Err("ses bad".into())).unwrap_err(), "aut bad");
    assert_eq!(ChzzkAuth::load(Ok("aut".into()), Err("ses bad".into())).unwrap_err(), "ses bad");
}
