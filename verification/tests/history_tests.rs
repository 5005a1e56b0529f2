use stream_archive::history::{
    date_matches, date_matches_with, format_history_timestamp_local, history_timestamp_sort_key, load_history,
    normalize_status_term, select_history, status_matches, HistoryError, HistoryFilter, HISTORY_MAX_LIMIT,
};
use stream_archive::model::{HistoryResponse, LiveHistoryItem, VodHistoryItem};
use stream_archive::platform::PlatformId;

fn statuses(value: &str) -> Option<Vec<String>> {
    HistoryFilter { status: Some(value.into()), ..Default::default() }.normalized().unwrap().statuses
}

#[test]
fn filter_normalizes_case_dates_and_limit() {
    let filter = HistoryFilter {
        q: Some("  Hello ".into()),
        status: Some(" completed ".into()),
        from: Some("2026-09-01".into()),
        to: Some("2026-09-30".into()),
        limit: Some(9999),
    };
    let normalized = filter.normalized().unwrap();
    assert_eq!(normalized.needle.as_deref(), Some("hello"));
    assert_eq!(normalized.statuses, Some(vec!["COMPLETED".to_string()]));
    assert_eq!(normalized.limit, HISTORY_MAX_LIMIT);
    assert!(HistoryFilter { from: Some("2026/09/01".into()), ..Default::default() }.normalized().is_err());
}

#[test]
fn korean_status_aliases_map_to_canonical_history_states() {
    assert_eq!(statuses("완료"), Some(vec!["COMPLETED".to_string()]));
    assert_eq!(
        statuses("대기"),
        Some(vec!["READY".to_string(), "QUEUED".to_string(), "IDLE".to_string()])
    );
    assert!(statuses("진행 중").as_ref().is_some_and(|states| states.contains(&"DOWNLOADING".to_string())));
    assert_eq!(statuses("cancelled"), Some(vec!["CANCELLED".to_string()]));
    assert_eq!(statuses("STOP"), Some(vec!["STOPPED".to_string()]));
    assert_eq!(statuses("병합"), Some(vec!["MERGING".to_string()]));
    assert!(statuses("진행").as_ref().is_some_and(|states| states.contains(&"DOWNLOADING".to_string())));
    let cancelling_states = statuses("취소").unwrap();
    assert!(cancelling_states.contains(&"CANCELLED".to_string()));
    assert!(cancelling_states.contains(&"CANCELLING".to_string()));
}

#[test]
fn date_filter_is_inclusive_in_system_local_time() {
    let local_date = chrono::DateTime::parse_from_rfc3339("2026-09-08T03:00:00Z")
        .unwrap()
        .with_timezone(&chrono::Local)
        .date_naive()
        .format("%Y-%m-%d")
        .to_string();
    assert!(date_matches("2026-09-08T03:00:00Z", Some(&local_date), Some(&local_date)));
}

#[test]
fn timestamp_display_and_sort_use_rfc3339_instant() {
    assert_eq!(
        history_timestamp_sort_key("2026-09-18T11:44:15Z"),
        history_timestamp_sort_key("2026-09-18T20:44:15+09:00")
    );
    let rendered = format_history_timestamp_local("2026-09-18T11:44:15Z");
    assert!(!rendered.contains('T'));
    assert!(!rendered.contains("+00:00"));
}

#[test]
fn unparsable_timestamps_sort_first_and_show_as_is() {
    assert_eq!(history_timestamp_sort_key("yesterday"), i64::MIN);
    assert_eq!(history_timestamp_sort_key("1970-01-01T00:00:01Z"), 1000);
    assert_eq!(format_history_timestamp_local("yesterday"), "yesterday");
    assert!(date_matches("2026-09-08 garbage", Some("2026-09-08"), Some("2026-09-08")));
    assert!(!date_matches("2026-09-09 garbage", None, Some("2026-09-08")));
}

#[test]
fn date_bounds_are_inclusive() {
    assert!(date_matches_with(Some("2026-09-08".into()), "x", Some("2026-09-08"), Some("2026-09-08")));
    assert!(!date_matches_with(Some("2026-09-07".into()), "x", Some("2026-09-08"), None));
    assert!(date_matches_with(Some("2026-09-07".into()), "x", None, None));
}

#[test]
fn filter_errors() {
    let reversed = HistoryFilter { from: Some("2026-09-30".into()), to: Some("2026-09-01".into()), ..Default::default() };
    assert_eq!(reversed.normalized().err(), Some(HistoryError::FromAfterTo));
    let bad = HistoryFilter { to: Some("2026-02-30".into()), ..Default::default() };
    assert_eq!(bad.normalized().err(), Some(HistoryError::InvalidDate));
    let blank = HistoryFilter { q: Some("   ".into()), limit: Some(0), ..Default::default() }.normalized().unwrap();
    assert_eq!(blank.needle, None);
    assert_eq!(blank.limit, 1);
}

#[test]
fn status_terms_and_matching() {
    assert_eq!(normalize_status_term(" In Progress "), "INPROGRESS");
    assert!(status_matches("completed", &["COMPLETED".to_string()]));
    assert!(!status_matches("FAILED", &["COMPLETED".to_string()]));
}

fn live(id: &str, status: &str, started_at: &str) -> LiveHistoryItem {
    LiveHistoryItem {
        platform: PlatformId::Soop,
        id: id.into(),
        account: "acc".into(),
        channel_name: "Channel".into(),
        bno: None,
        title: Some(format!("title {id}")),
        file_path: None,
        started_at: started_at.into(),
        ended_at: None,
        duration_seconds: 0,
        size_bytes: 0,
        reason: None,
        status: status.into(),
    }
}

fn vod(id: &str, state: &str) -> VodHistoryItem {
    VodHistoryItem {
        platform: PlatformId::Chzzk,
        id: id.into(),
        kind: "download".into(),
        vod_url: "https://chzzk.naver.com/video/1".into(),
        title: format!("vod {id}"),
        streamer: "s".into(),
        part_count: 1,
        state: state.into(),
        output_file: None,
        message: String::new(),
        started_at: None,
        finished_at: None,
    }
}

#[test]
fn history_search_keeps_matches_up_to_the_limit() {
    let history = HistoryResponse {
        live: vec![
            live("a", "COMPLETED", "2026-09-02T00:00:00Z"),
            live("b", "FAILED", "2026-09-02T00:00:00Z"),
            live("c", "COMPLETED", "2026-09-03T00:00:00Z"),
        ],
        vod: vec![vod("x", "COMPLETED"), vod("y", "FAILED")],
    };
    let filter = HistoryFilter { status: Some("완료".into()), limit: Some(1), ..Default::default() };
    let result = load_history(history.clone(), &filter).unwrap();
    assert_eq!(result.live.len(), 1);
    assert_eq!(result.live[0].id, "a");
    assert_eq!(result.vod.len(), 1);
    assert_eq!(result.vod[0].id, "x");

    let normalized = HistoryFilter { q: Some("TITLE C".into()), ..Default::default() }.normalized().unwrap();
    let picked = select_history(history, &normalized, &[None, None, None], &[None, None]);
    assert_eq!(picked.live.len(), 1);
    assert_eq!(picked.live[0].id, "c");
    assert!(picked.vod.is_empty());
}
