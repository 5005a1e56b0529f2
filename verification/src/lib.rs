//! Verified core of Stream Archive: settings and secrets validation,
//! platform routing, LIVE watcher decisions, recorder and yt-dlp commands,
//! VOD naming and progress, history filtering, backups, diagnostics, the
//! login limiter and session cookies, and the files the runtime writes.
use vstd::prelude::*;

pub mod auth;
pub mod backend;
pub mod backup;
pub mod chzzk;
pub mod decimal;
pub mod diagnostics;
pub mod environment;
pub mod history;
pub mod keyed;
pub mod launcher;
pub mod live;
pub mod mirror;
pub mod model;
pub mod picker;
pub mod platform;
pub mod process_tree;
pub mod recorder;
pub mod security;
pub mod soop_auth;
pub mod settings;
pub mod storage;
pub mod text;
pub mod tool_file;
pub mod tools;
pub mod vod;
pub mod watcher;
pub mod web;

verus! {

} // verus!
