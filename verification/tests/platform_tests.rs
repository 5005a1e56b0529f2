use stream_archive::platform::{chzzk_url_video_id, route_parsed_url, soop_url_accepted, UrlParts};
use stream_archive::platform::{
    chzzk_vod_id, default_platform, detect_vod_platform, parse_chzzk_channel_name, parse_platform,
    parse_soop_channel_name, stored_platform, validate_account, vod_platform, AccountError, ChzzkChannelInfo,
    LookupError, PlatformError, PlatformId, SoopStationStatus, VodUrlError,
};

const CHANNEL: &str = "0123456789abcdef0123456789abcdef";

#[test]
fn platform_id_defaults_to_soop_for_legacy_data() {
    assert_eq!(PlatformId::default(), PlatformId::Soop);
    assert_eq!("SOOP".parse::<PlatformId>().unwrap(), PlatformId::Soop);
    assert_eq!("soop".parse::<PlatformId>().unwrap(), PlatformId::Soop);
    assert_eq!("CHZZK".parse::<PlatformId>().unwrap(), PlatformId::Chzzk);
    assert_eq!("chzzk".parse::<PlatformId>().unwrap(), PlatformId::Chzzk);
}

#[test]
fn live_output_extensions_match_platform_container() {
    assert_eq!(PlatformId::Soop.live_output_extension(), "ts");
    assert_eq!(PlatformId::Chzzk.live_output_extension(), "mp4");
}

#[test]
fn common_vod_facade_routes_soop_and_chzzk() {
    assert_eq!(vod_platform("https://vod.sooplive.com/player/123456789").unwrap(), PlatformId::Soop);
    assert_eq!(vod_platform("https://chzzk.naver.com/video/123456").unwrap(), PlatformId::Chzzk);
    assert!(vod_platform("https://chzzk.naver.com/live/123456").is_err());
    assert!(vod_platform("https://example.com/player/123456789").is_err());
}

#[test]
fn detects_soop_and_chzzk_vod_urls() {
    assert_eq!(detect_vod_platform("https://vod.sooplive.com/player/123456789").unwrap(), PlatformId::Soop);
    assert_eq!(detect_vod_platform("https://chzzk.naver.com/video/123456").unwrap(), PlatformId::Chzzk);
    assert!(detect_vod_platform("https://chzzk.naver.com/live/123456").is_err());
    assert!(detect_vod_platform("https://example.com/player/123456789").is_err());
}

#[test]
fn provider_capabilities_are_explicit() {
    let soop = PlatformId::Soop.capabilities();
    assert!(soop.channel_lookup && soop.live && soop.vod);
    let chzzk = PlatformId::Chzzk.capabilities();
    assert!(chzzk.channel_lookup && chzzk.live && chzzk.vod);
    assert_eq!(PlatformId::Soop.display_name(), "SOOP");
    assert_eq!(PlatformId::Chzzk.display_name(), "CHZZK");
}

#[test]
fn default_channel_provider_is_soop() {
    assert_eq!(default_platform(), PlatformId::Soop);
}

#[test]
fn validates_channel_id_shape() {
    assert!(validate_account(PlatformId::Chzzk, CHANNEL).is_ok());
    assert!(validate_account(PlatformId::Chzzk, "not-a-channel-id").is_err());
}

#[test]
fn parses_channel_name() {
    let value = ChzzkChannelInfo {
        code: Some(200),
        has_content: true,
        channel_id: Some(CHANNEL.into()),
        channel_name: Some("테스트 채널".into()),
    };
    assert_eq!(parse_chzzk_channel_name(CHANNEL, &value).unwrap(), "테스트 채널");
}

#[test]
fn parses_current_nickname_shape() {
    let value = SoopStationStatus {
        result: Some(1),
        user_id: Some("1004ysus".into()),
        user_nick: Some("테스트닉".into()),
        station_name: None,
    };
    assert_eq!(parse_soop_channel_name("1004ysus", &value).unwrap(), "테스트닉");
}

#[test]
fn keeps_legacy_nickname_fallback() {
    let value = SoopStationStatus {
        result: Some(1),
        user_id: None,
        user_nick: None,
        station_name: Some("구형닉".into()),
    };
    assert_eq!(parse_soop_channel_name("legacy", &value).unwrap(), "구형닉");
}

#[test]
fn unknown_platform_names_are_refused_and_stored_names_fall_back() {
    assert_eq!(parse_platform(" twitch "), Err(PlatformError::Unsupported("TWITCH".into())));
    assert_eq!(stored_platform("twitch"), PlatformId::Soop);
    assert_eq!(stored_platform(" chzzk "), PlatformId::Chzzk);
}

#[test]
fn account_rules_per_platform() {
    assert_eq!(validate_account(PlatformId::Soop, ""), Err(AccountError::Empty));
    assert!(validate_account(PlatformId::Soop, "user_01").is_ok());
    assert_eq!(validate_account(PlatformId::Chzzk, "xyz"), Err(AccountError::InvalidFormat));
}

#[test]
fn vod_url_errors_and_ids() {
    assert_eq!(vod_platform("not a url"), Err(VodUrlError::Malformed));
    assert_eq!(vod_platform("https://example.com/"), Err(VodUrlError::Unsupported));
    assert_eq!(chzzk_vod_id("https://chzzk.naver.com/video/42").as_deref(), Some("42"));
    assert_eq!(chzzk_vod_id("https://chzzk.naver.com/live/42"), None);
}

#[test]
fn lookups_report_other_accounts_and_missing_names() {
    let other = ChzzkChannelInfo {
        code: Some(200),
        has_content: true,
        channel_id: Some("ffffffffffffffffffffffffffffffff".into()),
        channel_name: Some("x".into()),
    };
    assert_eq!(
        parse_chzzk_channel_name(CHANNEL, &other),
        Err(LookupError::OtherAccount("ffffffffffffffffffffffffffffffff".into()))
    );
    let nameless = SoopStationStatus { result: Some(1), user_id: None, user_nick: None, station_name: None };
    assert_eq!(parse_soop_channel_name("someone", &nameless), Err(LookupError::NoName));
}

#[test]
fn parsed_urls_route_by_host_and_path() {
    let soop = UrlParts { scheme: "https".into(), host: Some("vod.sooplive.com".into()), path: "/player/123".into() };
    assert!(soop_url_accepted(&soop));
    assert_eq!(route_parsed_url(&soop), Ok(PlatformId::Soop));
    let chzzk = UrlParts { scheme: "https".into(), host: Some("CHZZK.naver.com".into()), path: "/video/4567".into() };
    assert_eq!(chzzk_url_video_id(&chzzk), Some("4567".to_string()));
    assert_eq!(route_parsed_url(&chzzk), Ok(PlatformId::Chzzk));
    let other = UrlParts { scheme: "ftp".into(), host: Some("chzzk.naver.com".into()), path: "/video/4567".into() };
    assert_eq!(chzzk_url_video_id(&other), None);
    assert_eq!(route_parsed_url(&other), Err(VodUrlError::Unsupported));
    let no_host = UrlParts { scheme: "https".into(), host: None, path: "/player/1".into() };
    assert!(!soop_url_accepted(&no_host));
}
