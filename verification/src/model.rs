//! Records shared by the settings checks, the watcher and the history.
use crate::platform::PlatformId;
use vstd::prelude::*;

verus! {

/// A channel to watch, as stored in the settings.
#[derive(Debug, Clone, PartialEq, Eq)]
pub struct Channel {
    pub platform: PlatformId,
    pub enabled: bool,
    pub name: String,
    pub account: String,
    pub outdir: String,
}

/// A channel with its texts taken as character sequences.
pub struct ChannelView {
    pub platform: PlatformId,
    pub enabled: bool,
    pub name: Seq<char>,
    pub account: Seq<char>,
    pub outdir: Seq<char>,
}

impl View for Channel {
    type V = ChannelView;

    open spec fn view(&self) -> ChannelView {
        ChannelView {
            platform: self.platform,
            enabled: self.enabled,
            name: self.name@,
            account: self.account@,
            outdir: self.outdir@,
        }
    }
}

pub open spec fn channels_view(cs: Seq<Channel>) -> Seq<ChannelView> {
    cs.map_values(|c: Channel| c@)
}

/// One LIVE recording in the history.
#[derive(Debug, Clone, PartialEq, Eq)]
pub struct LiveHistoryItem {
    pub platform: PlatformId,
    pub id: String,
    pub account: String,
    pub channel_name: String,
    pub bno: Option<String>,
    pub title: Option<String>,
    pub file_path: Option<String>,
    pub started_at: String,
    pub ended_at: Option<String>,
    pub duration_seconds: i64,
    pub size_bytes: u64,
    pub reason: Option<String>,
    pub status: String,
}

/// One VOD download job in the history.
#[derive(Debug, Clone, PartialEq, Eq)]
pub struct VodHistoryItem {
    pub platform: PlatformId,
    pub id: String,
    pub kind: String,
    pub vod_url: String,
    pub title: String,
    pub streamer: String,
    pub part_count: usize,
    pub state: String,
    pub output_file: Option<String>,
    pub message: String,
    pub started_at: Option<String>,
    pub finished_at: Option<String>,
}

/// LIVE recordings and VOD jobs, newest first.
#[derive(Debug, Clone, PartialEq, Eq)]
pub struct HistoryResponse {
    pub live: Vec<LiveHistoryItem>,
    pub vod: Vec<VodHistoryItem>,
}

/// One channel as the watcher reports it.
#[derive(Debug, Clone, PartialEq, Eq)]
pub struct ChannelRuntimeStatus {
    pub platform: PlatformId,
    pub account: String,
    pub name: String,
    pub status: String,
    pub bno: Option<String>,
    pub title: Option<String>,
    pub file: Option<String>,
    pub size_bytes: u64,
    pub started_at: Option<String>,
    pub suppressed: bool,
    pub detail: Option<String>,
}

/// The watcher as it reports itself.
#[derive(Debug, Clone, PartialEq, Eq)]
pub struct NativeWatcherStatus {
    pub running: bool,
    pub pid: Option<u32>,
    pub last_exit_code: Option<i32>,
    pub engine: String,
    pub started_at: Option<String>,
    pub channel_count: usize,
    pub recording_count: usize,
    pub offline_count: usize,
    pub error_count: usize,
    pub channels: Vec<ChannelRuntimeStatus>,
}

impl Default for NativeWatcherStatus {
    /// A watcher that is not running and watches nothing.
    fn default() -> (r: Self)
        ensures
            !r.running,
            r.pid.is_none(),
            r.last_exit_code.is_none(),
            r.engine@ == "rust-native"@,
            r.started_at.is_none(),
            r.channel_count == 0,
            r.recording_count == 0,
            r.offline_count == 0,
            r.error_count == 0,
            r.channels@.len() == 0,
    {
        NativeWatcherStatus {
            running: false,
            pid: None,
            last_exit_code: None,
            engine: crate::text::owned("rust-native"),
            started_at: None,
            channel_count: 0,
            recording_count: 0,
            offline_count: 0,
            error_count: 0,
            channels: Vec::new(),
        }
    }
}


/// The answer to a status request.
#[derive(Debug, Clone)]
pub struct StatusResponse {
    pub watcher: NativeWatcherStatus,
    pub backend_dir: String,
    pub bind: String,
    pub phase: &'static str,
}

/// The answer to a settings request: the editable settings that have a
/// stored value, and the keys that are never shown.
#[derive(Debug, Clone)]
pub struct SettingsResponse {
    pub values: Vec<(String, String)>,
    pub hidden_keys: Vec<&'static str>,
}

/// The answer to a log request.
#[derive(Debug, Clone)]
pub struct LogsResponse {
    pub lines: Vec<String>,
}

/// The answer to a channel lookup.
#[derive(Debug, Clone)]
pub struct ChannelLookupResponse {
    pub account: String,
    pub name: String,
}

} // verus!
