//! Validation of settings, secrets, channels and VOD tool paths before they
//! are written to the canonical settings store.
//!
//! Updates are given as `(key, value)` pairs in key order, as a
//! `BTreeMap<String, String>` yields them; the first offending pair decides
//! the error.
use crate::decimal::{free_space_number, free_space_number_spec};
use crate::model::{Channel, ChannelView, channels_view};
use crate::platform::{AccountError, PlatformId, account_check, validate_account};
use crate::text::{
    byte_len, lemma_byte_len_bounds, opt_seq,
    chars_of, has_char, has_line_break_or_nul, line_break_or_nul, lower_chars, lower_seq,
    owned, parse_u64, parse_u64_spec, starts_with, str_eq, str_starts_with, string_of, trim,
    trim_chars, trim_str, upper_seq, to_upper, chars_eq,
};
use vstd::prelude::*;

verus! {

// ---------------------------------------------------------------------------
// Keys
// ---------------------------------------------------------------------------

/// Settings whose values are secrets; they are stored protected.
pub open spec fn hidden_keys() -> Seq<Seq<char>> {
    seq!["SOOP_PASSWORD"@, "CLOUDFLARE_API_KEY"@, "CHZZK_NID_AUT"@, "CHZZK_NID_SES"@]
}

/// Settings that users may edit as plain values.
pub open spec fn safe_keys() -> Seq<Seq<char>> {
    seq![
        "CHECK_INTERVAL"@,
        "CHANNEL_RELOAD_INTERVAL"@,
        "RECORD_RETRY_INTERVAL"@,
        "RECORD_STALL_TIMEOUT"@,
        "RECORD_MONITOR_INTERVAL"@,
        "WORKER_MAX_RETRY"@,
        "CONSOLE_REFRESH_INTERVAL"@,
        "CONSOLE_AUTO_FORMAT"@,
        "CHANNEL_NAME_WIDTH"@,
        "CONSOLE_COLOR"@,
        "CONSOLE_SHOW_PATH"@,
        "GUI_NOTIFY_RECORD_START"@,
        "GUI_NOTIFY_RECORD_FINISH"@,
        "GUI_NOTIFY_WARNING"@,
        "MIN_FREE_SPACE_GB"@,
        "OUTPUT_DIR"@,
        "QUALITY"@,
        "FILE_NAME_PATTERN"@,
        "STREAMLINK_PATH"@,
        "STREAMLINK_FALLBACK"@,
        "SOOP_USERNAME"@,
        "CLOUDFLARE_WORKER_URL"@,
        "MASTER_QUALITY"@,
        "LOG_ENABLED"@,
        "LOG_DIR"@,
        "LOG_RETENTION_DAYS"@,
        "BACKUP_ENABLED"@,
        "BACKUP_INTERVAL_HOURS"@,
        "BACKUP_KEEP_COUNT"@,
        "BACKUP_RETENTION_DAYS"@,
        "BACKUP_DIR"@,
    ]
}

/// The VOD tool path settings.
pub open spec fn vod_tool_keys() -> Seq<Seq<char>> {
    seq!["YT_DLP_PATH"@, "FFMPEG_PATH"@]
}

pub open spec fn views(v: Seq<&str>) -> Seq<Seq<char>> {
    v.map_values(|s: &str| s@)
}

pub fn hidden_setting_keys() -> (v: Vec<&'static str>)
    ensures
        views(v@) == hidden_keys(),
{
    let v = vec!["SOOP_PASSWORD", "CLOUDFLARE_API_KEY", "CHZZK_NID_AUT", "CHZZK_NID_SES"];
    assert(views(v@) =~= hidden_keys());
    v
}

pub fn safe_setting_keys() -> (v: Vec<&'static str>)
    ensures
        views(v@) == safe_keys(),
{
    let v = vec![
        "CHECK_INTERVAL",
        "CHANNEL_RELOAD_INTERVAL",
        "RECORD_RETRY_INTERVAL",
        "RECORD_STALL_TIMEOUT",
        "RECORD_MONITOR_INTERVAL",
        "WORKER_MAX_RETRY",
        "CONSOLE_REFRESH_INTERVAL",
        "CONSOLE_AUTO_FORMAT",
        "CHANNEL_NAME_WIDTH",
        "CONSOLE_COLOR",
        "CONSOLE_SHOW_PATH",
        "GUI_NOTIFY_RECORD_START",
        "GUI_NOTIFY_RECORD_FINISH",
        "GUI_NOTIFY_WARNING",
        "MIN_FREE_SPACE_GB",
        "OUTPUT_DIR",
        "QUALITY",
        "FILE_NAME_PATTERN",
        "STREAMLINK_PATH",
        "STREAMLINK_FALLBACK",
        "SOOP_USERNAME",
        "CLOUDFLARE_WORKER_URL",
        "MASTER_QUALITY",
        "LOG_ENABLED",
        "LOG_DIR",
        "LOG_RETENTION_DAYS",
        "BACKUP_ENABLED",
        "BACKUP_INTERVAL_HOURS",
        "BACKUP_KEEP_COUNT",
        "BACKUP_RETENTION_DAYS",
        "BACKUP_DIR",
    ];
    assert(views(v@) =~= safe_keys());
    v
}

pub fn vod_tool_setting_keys() -> (v: Vec<&'static str>)
    ensures
        views(v@) == vod_tool_keys(),
{
    let v = vec!["YT_DLP_PATH", "FFMPEG_PATH"];
    assert(views(v@) =~= vod_tool_keys());
    v
}

/// Whether `key` is one of `keys`.
pub fn key_in(keys: &[&str], key: &str) -> (r: bool)
    ensures
        r == views(keys@).contains(key@),
{
    let mut i: usize = 0;
    while i < keys.len()
        invariant
            i <= keys.len(),
            forall|j: int| 0 <= j < i ==> keys@[j]@ != key@,
        decreases keys.len() - i,
    {
        if str_eq(keys[i], key) {
            assert(views(keys@)[i as int] == key@);
            return true;
        }
        i += 1;
    }
    assert forall|j: int| 0 <= j < views(keys@).len() implies views(keys@)[j] != key@ by {
        assert(views(keys@)[j] == keys@[j]@);
    }
    false
}

// ---------------------------------------------------------------------------
// Errors
// ---------------------------------------------------------------------------

/// The field a single-line check is about.
#[derive(Debug, Clone, PartialEq, Eq)]
pub enum Field {
    Setting(String),
    Secret(String),
    VodTool(String),
    ChannelName,
    ChannelAccount,
    ChannelOutdir,
}

/// Why an update was refused.
#[derive(Debug, Clone, PartialEq, Eq)]
pub enum SettingError {
    /// The key is not an editable setting.
    NotEditable(String),
    /// The key is not a secret.
    UnsupportedSecret(String),
    /// The key is not a VOD tool path.
    UnsupportedVodTool(String),
    /// The value is longer than the field allows (in bytes).
    TooLong(Field),
    /// The value holds a line break or a NUL.
    NotSingleLine(Field),
    /// The value of an integer setting is not a decimal integer.
    NotInteger(String),
    /// The value of an integer setting is outside `min..=max`.
    IntOutOfRange(String, u64, u64),
    /// The value of a numeric setting is not a number.
    NotNumeric(String),
    /// The value of a numeric setting is outside `min..=max`.
    NumberOutOfRange(String, u64, u64),
    /// The value of a flag is neither `Y` nor `N`.
    NotYesNo(String),
    /// The Worker URL is not an `https://` URL.
    WorkerUrlNotHttps,
    /// A channel name that is empty after trimming.
    ChannelNameEmpty,
    /// A channel account that is empty after trimming.
    ChannelAccountEmpty,
    /// A channel account (trimmed) that its platform does not accept.
    InvalidChannelAccount(PlatformId, String, AccountError),
    /// A channel field that holds `|`.
    ContainsPipe(Field),
    /// A second channel with the same platform and account (the account
    /// as given).
    DuplicateChannel(PlatformId, String),
    /// The key is not an environment setting.
    NotEnvironmentSetting(String),
    /// An environment setting that is not a single line of at most 2048
    /// bytes.
    EnvironmentNotSingleLine(String),
    /// A path setting that is not an absolute path.
    NotAbsolute(String),
    /// An executable setting that names no executable file (key, value).
    NotExecutable(String, String),
    /// A directory setting that names no existing directory (key, value).
    NotDirectory(String, String),
    /// On Windows, an executable setting that names no `.exe` or `.com`.
    NotWindowsExecutable(String),
    /// The key is not a setting of the provider configuration.
    NotProviderSetting(String),
    /// The key is not a secret of the provider configuration.
    NotProviderSecret(String),
    /// `BACKUP_DIR` names something that is not a directory (the trimmed
    /// path).
    BackupDirNotDirectory(String),
    /// `BACKUP_DIR` could not be created.
    BackupDirNotCreatable(String),
    /// No file could be written in `BACKUP_DIR`.
    BackupDirNotWritable(String),
    /// The probe file written in `BACKUP_DIR` could not be removed.
    BackupDirCleanupFailed(String),
}

/// The text-free shape of a field, for contracts.
pub enum FieldKind {
    Setting(Seq<char>),
    Secret(Seq<char>),
    VodTool(Seq<char>),
    ChannelName,
    ChannelAccount,
    ChannelOutdir,
}

/// The text-free shape of a refusal, for contracts.
pub enum Refusal {
    NotEditable(Seq<char>),
    UnsupportedSecret(Seq<char>),
    UnsupportedVodTool(Seq<char>),
    TooLong(FieldKind),
    NotSingleLine(FieldKind),
    NotInteger(Seq<char>),
    IntOutOfRange(Seq<char>, u64, u64),
    NotNumeric(Seq<char>),
    NumberOutOfRange(Seq<char>, u64, u64),
    NotYesNo(Seq<char>),
    WorkerUrlNotHttps,
    ChannelNameEmpty,
    ChannelAccountEmpty,
    InvalidChannelAccount(PlatformId, Seq<char>, AccountError),
    ContainsPipe(FieldKind),
    DuplicateChannel(PlatformId, Seq<char>),
    NotEnvironmentSetting(Seq<char>),
    EnvironmentNotSingleLine(Seq<char>),
    NotAbsolute(Seq<char>),
    NotExecutable(Seq<char>, Seq<char>),
    NotDirectory(Seq<char>, Seq<char>),
    NotWindowsExecutable(Seq<char>),
    NotProviderSetting(Seq<char>),
    NotProviderSecret(Seq<char>),
    BackupDirNotDirectory(Seq<char>),
    BackupDirNotCreatable(Seq<char>),
    BackupDirNotWritable(Seq<char>),
    BackupDirCleanupFailed(Seq<char>),
}

impl View for Field {
    type V = FieldKind;

    open spec fn view(&self) -> FieldKind {
        match self {
            Field::Setting(k) => FieldKind::Setting(k@),
            Field::Secret(k) => FieldKind::Secret(k@),
            Field::VodTool(k) => FieldKind::VodTool(k@),
            Field::ChannelName => FieldKind::ChannelName,
            Field::ChannelAccount => FieldKind::ChannelAccount,
            Field::ChannelOutdir => FieldKind::ChannelOutdir,
        }
    }
}

impl View for SettingError {
    type V = Refusal;

    open spec fn view(&self) -> Refusal {
        match self {
            SettingError::NotEditable(k) => Refusal::NotEditable(k@),
            SettingError::UnsupportedSecret(k) => Refusal::UnsupportedSecret(k@),
            SettingError::UnsupportedVodTool(k) => Refusal::UnsupportedVodTool(k@),
            SettingError::TooLong(f) => Refusal::TooLong(f@),
            SettingError::NotSingleLine(f) => Refusal::NotSingleLine(f@),
            SettingError::NotInteger(k) => Refusal::NotInteger(k@),
            SettingError::IntOutOfRange(k, a, b) => Refusal::IntOutOfRange(k@, *a, *b),
            SettingError::NotNumeric(k) => Refusal::NotNumeric(k@),
            SettingError::NumberOutOfRange(k, a, b) => Refusal::NumberOutOfRange(k@, *a, *b),
            SettingError::NotYesNo(k) => Refusal::NotYesNo(k@),
            SettingError::WorkerUrlNotHttps => Refusal::WorkerUrlNotHttps,
            SettingError::ChannelNameEmpty => Refusal::ChannelNameEmpty,
            SettingError::ChannelAccountEmpty => Refusal::ChannelAccountEmpty,
            SettingError::InvalidChannelAccount(p, a, e) => Refusal::InvalidChannelAccount(*p, a@, *e),
            SettingError::ContainsPipe(f) => Refusal::ContainsPipe(f@),
            SettingError::DuplicateChannel(p, a) => Refusal::DuplicateChannel(*p, a@),
            SettingError::NotEnvironmentSetting(k) => Refusal::NotEnvironmentSetting(k@),
            SettingError::EnvironmentNotSingleLine(k) => Refusal::EnvironmentNotSingleLine(k@),
            SettingError::NotAbsolute(k) => Refusal::NotAbsolute(k@),
            SettingError::NotExecutable(k, v) => Refusal::NotExecutable(k@, v@),
            SettingError::NotDirectory(k, v) => Refusal::NotDirectory(k@, v@),
            SettingError::NotWindowsExecutable(k) => Refusal::NotWindowsExecutable(k@),
            SettingError::NotProviderSetting(k) => Refusal::NotProviderSetting(k@),
            SettingError::NotProviderSecret(k) => Refusal::NotProviderSecret(k@),
            SettingError::BackupDirNotDirectory(p) => Refusal::BackupDirNotDirectory(p@),
            SettingError::BackupDirNotCreatable(p) => Refusal::BackupDirNotCreatable(p@),
            SettingError::BackupDirNotWritable(p) => Refusal::BackupDirNotWritable(p@),
            SettingError::BackupDirCleanupFailed(p) => Refusal::BackupDirCleanupFailed(p@),
        }
    }
}

pub open spec fn result_view(r: Result<(), SettingError>) -> Result<(), Refusal> {
    match r {
        Ok(()) => Ok(()),
        Err(e) => Err(e@),
    }
}

// ---------------------------------------------------------------------------
// Single values
// ---------------------------------------------------------------------------

/// A single line of at most `max_len` bytes.
pub open spec fn single_line_check(value: Seq<char>, max_len: nat, field: FieldKind) -> Result<(), Refusal> {
    if byte_len(value) > max_len {
        Err(Refusal::TooLong(field))
    } else if has_line_break_or_nul(value) {
        Err(Refusal::NotSingleLine(field))
    } else {
        Ok(())
    }
}

fn validate_single_line(value: &str, max_len: usize, field: Field) -> (r: Result<(), SettingError>)
    requires
        max_len <= 0x10_0000,
    ensures
        result_view(r) == single_line_check(value@, max_len as nat, field@),
{
    let v = chars_of(value);
    proof {
        lemma_byte_len_bounds(value@);
    }
    if v.len() > max_len {
        return Err(SettingError::TooLong(field));
    }
    if value.len() > max_len {
        return Err(SettingError::TooLong(field));
    }
    if line_break_or_nul(v.as_slice()) {
        return Err(SettingError::NotSingleLine(field));
    }
    Ok(())
}

/// A decimal integer within `min..=max`.
pub open spec fn int_check(value: Seq<char>, min: u64, max: u64, key: Seq<char>) -> Result<(), Refusal> {
    match parse_u64_spec(value) {
        None => Err(Refusal::NotInteger(key)),
        Some(n) => if min <= n && n <= max {
            Ok(())
        } else {
            Err(Refusal::IntOutOfRange(key, min, max))
        },
    }
}

fn validate_int(value: &str, min: u64, max: u64, key: &str) -> (r: Result<(), SettingError>)
    ensures
        result_view(r) == int_check(value@, min, max, key@),
{
    match parse_u64(value) {
        None => Err(SettingError::NotInteger(key.to_owned())),
        Some(n) => {
            if min <= n && n <= max {
                Ok(())
            } else {
                Err(SettingError::IntOutOfRange(key.to_owned(), min, max))
            }
        },
    }
}

/// The largest `MIN_FREE_SPACE_GB`.
pub const MAX_FREE_SPACE_GB: u64 = 1_000_000;

/// A number that `f64` parsing reads as finite and within
/// `0..=MAX_FREE_SPACE_GB` (see `decimal::free_space_number_spec`).
pub open spec fn number_check(value: Seq<char>, key: Seq<char>) -> Result<(), Refusal> {
    match free_space_number_spec(value) {
        None => Err(Refusal::NotNumeric(key)),
        Some(true) => Ok(()),
        Some(false) => Err(Refusal::NumberOutOfRange(key, 0, MAX_FREE_SPACE_GB)),
    }
}

fn validate_number(value: &str, key: &str) -> (r: Result<(), SettingError>)
    requires
        value@.len() <= 4096,
    ensures
        result_view(r) == number_check(value@, key@),
{
    match free_space_number(value) {
        None => Err(SettingError::NotNumeric(key.to_owned())),
        Some(true) => Ok(()),
        Some(false) => Err(SettingError::NumberOutOfRange(key.to_owned(), 0, MAX_FREE_SPACE_GB)),
    }
}

/// `Y` or `N` in either case.
pub open spec fn yes_no_check(value: Seq<char>, key: Seq<char>) -> Result<(), Refusal> {
    let u = upper_seq(value);
    if u == seq!['Y'] || u == seq!['N'] {
        Ok(())
    } else {
        Err(Refusal::NotYesNo(key))
    }
}

fn validate_yes_no(value: &str, key: &str) -> (r: Result<(), SettingError>)
    ensures
        result_view(r) == yes_no_check(value@, key@),
{
    let u = to_upper(value);
    proof {
        reveal_strlit("Y");
        reveal_strlit("N");
        assert("Y"@ =~= seq!['Y']);
        assert("N"@ =~= seq!['N']);
    }
    if str_eq(u.as_str(), "Y") || str_eq(u.as_str(), "N") {
        Ok(())
    } else {
        Err(SettingError::NotYesNo(key.to_owned()))
    }
}

// ---------------------------------------------------------------------------
// Editable settings
// ---------------------------------------------------------------------------

/// How the value of an editable setting is checked.
#[derive(Debug, Clone, Copy, PartialEq, Eq, Structural)]
pub enum ValueRule {
    /// A decimal integer within `min..=max`.
    Int(u64, u64),
    /// A number that `f64` parsing reads as finite and within
    /// `0..=MAX_FREE_SPACE_GB`.
    Number,
    /// `Y` or `N`.
    YesNo,
    /// Empty, or an `https://` URL.
    HttpsUrl,
    /// Any single line.
    Free,
}

pub open spec fn rule_of(key: Seq<char>) -> ValueRule {
    if key == "CHECK_INTERVAL"@ {
        ValueRule::Int(1, 86_400)
    } else if key == "CHANNEL_RELOAD_INTERVAL"@ {
        ValueRule::Int(1, 3_600)
    } else if key == "RECORD_RETRY_INTERVAL"@ {
        ValueRule::Int(1, 3_600)
    } else if key == "RECORD_STALL_TIMEOUT"@ {
        ValueRule::Int(10, 86_400)
    } else if key == "RECORD_MONITOR_INTERVAL"@ {
        ValueRule::Int(1, 3_600)
    } else if key == "WORKER_MAX_RETRY"@ {
        ValueRule::Int(0, 100)
    } else if key == "CONSOLE_REFRESH_INTERVAL"@ {
        ValueRule::Int(1, 3_600)
    } else if key == "MIN_FREE_SPACE_GB"@ {
        ValueRule::Number
    } else if key == "LOG_RETENTION_DAYS"@ {
        ValueRule::Int(0, 36_500)
    } else if key == "BACKUP_INTERVAL_HOURS"@ {
        ValueRule::Int(1, 8_760)
    } else if key == "BACKUP_KEEP_COUNT"@ {
        ValueRule::Int(0, 1_000)
    } else if key == "BACKUP_RETENTION_DAYS"@ {
        ValueRule::Int(0, 36_500)
    } else if key == "CONSOLE_AUTO_FORMAT"@ || key == "CONSOLE_COLOR"@ || key == "CONSOLE_SHOW_PATH"@
        || key == "GUI_NOTIFY_RECORD_START"@ || key == "GUI_NOTIFY_RECORD_FINISH"@
        || key == "GUI_NOTIFY_WARNING"@ || key == "LOG_ENABLED"@ || key == "BACKUP_ENABLED"@ {
        ValueRule::YesNo
    } else if key == "CLOUDFLARE_WORKER_URL"@ {
        ValueRule::HttpsUrl
    } else {
        ValueRule::Free
    }
}

/// The rule that checks the value of `key`.
pub fn value_rule(key: &str) -> (r: ValueRule)
    ensures
        r == rule_of(key@),
{
    if str_eq(key, "CHECK_INTERVAL") {
        ValueRule::Int(1, 86_400)
    } else if str_eq(key, "CHANNEL_RELOAD_INTERVAL") {
        ValueRule::Int(1, 3_600)
    } else if str_eq(key, "RECORD_RETRY_INTERVAL") {
        ValueRule::Int(1, 3_600)
    } else if str_eq(key, "RECORD_STALL_TIMEOUT") {
        ValueRule::Int(10, 86_400)
    } else if str_eq(key, "RECORD_MONITOR_INTERVAL") {
        ValueRule::Int(1, 3_600)
    } else if str_eq(key, "WORKER_MAX_RETRY") {
        ValueRule::Int(0, 100)
    } else if str_eq(key, "CONSOLE_REFRESH_INTERVAL") {
        ValueRule::Int(1, 3_600)
    } else if str_eq(key, "MIN_FREE_SPACE_GB") {
        ValueRule::Number
    } else if str_eq(key, "LOG_RETENTION_DAYS") {
        ValueRule::Int(0, 36_500)
    } else if str_eq(key, "BACKUP_INTERVAL_HOURS") {
        ValueRule::Int(1, 8_760)
    } else if str_eq(key, "BACKUP_KEEP_COUNT") {
        ValueRule::Int(0, 1_000)
    } else if str_eq(key, "BACKUP_RETENTION_DAYS") {
        ValueRule::Int(0, 36_500)
    } else if str_eq(key, "CONSOLE_AUTO_FORMAT") || str_eq(key, "CONSOLE_COLOR") || str_eq(
        key,
        "CONSOLE_SHOW_PATH",
    ) || str_eq(key, "GUI_NOTIFY_RECORD_START") || str_eq(key, "GUI_NOTIFY_RECORD_FINISH")
        || str_eq(key, "GUI_NOTIFY_WARNING") || str_eq(key, "LOG_ENABLED") || str_eq(
        key,
        "BACKUP_ENABLED",
    ) {
        ValueRule::YesNo
    } else if str_eq(key, "CLOUDFLARE_WORKER_URL") {
        ValueRule::HttpsUrl
    } else {
        ValueRule::Free
    }
}

/// The value check of a rule, for a value that is already a single line.
pub open spec fn rule_check(rule: ValueRule, key: Seq<char>, value: Seq<char>) -> Result<(), Refusal> {
    match rule {
        ValueRule::Int(min, max) => int_check(value, min, max, key),
        ValueRule::Number => number_check(value, key),
        ValueRule::YesNo => yes_no_check(value, key),
        ValueRule::HttpsUrl => if trim(value).len() > 0 && !starts_with(value, "https://"@) {
            Err(Refusal::WorkerUrlNotHttps)
        } else {
            Ok(())
        },
        ValueRule::Free => Ok(()),
    }
}

/// The check of one editable setting.
pub open spec fn setting_check(key: Seq<char>, value: Seq<char>) -> Result<(), Refusal> {
    if !safe_keys().contains(key) {
        Err(Refusal::NotEditable(key))
    } else {
        match single_line_check(value, 2048, FieldKind::Setting(key)) {
            Err(e) => Err(e),
            Ok(_) => rule_check(rule_of(key), key, value),
        }
    }
}

pub open spec fn pairs_view(u: Seq<(String, String)>) -> Seq<(Seq<char>, Seq<char>)> {
    u.map_values(|p: (String, String)| (p.0@, p.1@))
}

/// The pairs stand for a map: its keys in ascending `str` order, each
/// once (the order a `BTreeMap` of updates is walked in).
pub open spec fn keys_ascending(u: Seq<(Seq<char>, Seq<char>)>) -> bool {
    forall|i: int, j: int| 0 <= i < j < u.len() ==> crate::text::text_lt(#[trigger] u[i].0, #[trigger] u[j].0)
}

/// The first refusal of `check` over the pairs, in order.
pub open spec fn first_refusal(
    u: Seq<(Seq<char>, Seq<char>)>,
    check: spec_fn(Seq<char>, Seq<char>) -> Result<(), Refusal>,
) -> Result<(), Refusal>
    decreases u.len(),
{
    if u.len() == 0 {
        Ok(())
    } else {
        match check(u[0].0, u[0].1) {
            Err(e) => Err(e),
            Ok(_) => first_refusal(u.drop_first(), check),
        }
    }
}

proof fn lemma_first_refusal_step(
    u: Seq<(Seq<char>, Seq<char>)>,
    i: int,
    check: spec_fn(Seq<char>, Seq<char>) -> Result<(), Refusal>,
)
    requires
        0 <= i < u.len(),
    ensures
        first_refusal(u.skip(i), check) == match check(u[i].0, u[i].1) {
            Err(e) => Err(e),
            Ok(_) => first_refusal(u.skip(i + 1), check),
        },
{
    assert(u.skip(i).drop_first() =~= u.skip(i + 1));
}

fn check_setting(key: &str, value: &str) -> (r: Result<(), SettingError>)
    ensures
        result_view(r) == setting_check(key@, value@),
{
    let keys = safe_setting_keys();
    if !key_in(keys.as_slice(), key) {
        return Err(SettingError::NotEditable(owned(key)));
    }
    validate_single_line(value, 2048, Field::Setting(owned(key)))?;
    proof {
        lemma_byte_len_bounds(value@);
    }
    match value_rule(key) {
        ValueRule::Int(min, max) => validate_int(value, min, max, key),
        ValueRule::Number => validate_number(value, key),
        ValueRule::YesNo => validate_yes_no(value, key),
        ValueRule::HttpsUrl => {
            let v = chars_of(value);
            let t = trim_chars(v.as_slice());
            if t.len() > 0 && !str_starts_with(value, "https://") {
                Err(SettingError::WorkerUrlNotHttps)
            } else {
                Ok(())
            }
        },
        ValueRule::Free => Ok(()),
    }
}

/// Checks setting updates, given in key order: each key must be an
/// editable setting and each value a single line of at most 2048 bytes
/// that meets the rule of its key.  The first offending pair decides.
/// `BACKUP_DIR` is then checked against the file system with
/// `backup_dir_step` and `backup_dir_verdict`.
pub fn validate_setting_updates(updates: &[(String, String)]) -> (r: Result<(), SettingError>)
    requires
        keys_ascending(pairs_view(updates@)),
    ensures
        result_view(r) == first_refusal(pairs_view(updates@), |k: Seq<char>, v: Seq<char>| setting_check(k, v)),
{
    let ghost u = pairs_view(updates@);
    let ghost check = |k: Seq<char>, v: Seq<char>| setting_check(k, v);
    assert(u.skip(0) =~= u);
    let mut i: usize = 0;
    while i < updates.len()
        invariant
            i <= updates.len(),
            u == pairs_view(updates@),
            check == (|k: Seq<char>, v: Seq<char>| setting_check(k, v)),
            first_refusal(u, check) == first_refusal(u.skip(i as int), check),
        decreases updates.len() - i,
    {
        proof {
            lemma_first_refusal_step(u, i as int, check);
        }
        let (key, value) = &updates[i];
        check_setting(key.as_str(), value.as_str())?;
        i += 1;
    }
    assert(u.skip(i as int) =~= Seq::<(Seq<char>, Seq<char>)>::empty());
    Ok(())
}

// ---------------------------------------------------------------------------
// Secrets and VOD tool paths
// ---------------------------------------------------------------------------

/// The check of one secret: a hidden key and a single line of at most
/// 16384 bytes.
pub open spec fn secret_check(key: Seq<char>, value: Seq<char>) -> Result<(), Refusal> {
    if !hidden_keys().contains(key) {
        Err(Refusal::UnsupportedSecret(key))
    } else {
        single_line_check(value, 16_384, FieldKind::Secret(key))
    }
}

/// The check of one VOD tool path: a VOD tool key and a single line of at
/// most 2048 bytes.
pub open spec fn vod_tool_check(key: Seq<char>, value: Seq<char>) -> Result<(), Refusal> {
    if !vod_tool_keys().contains(key) {
        Err(Refusal::UnsupportedVodTool(key))
    } else {
        single_line_check(value, 2048, FieldKind::VodTool(key))
    }
}

/// Checks secret updates, given in key order; the first offending pair
/// decides.
pub fn validate_secret_updates(updates: &[(String, String)]) -> (r: Result<(), SettingError>)
    requires
        keys_ascending(pairs_view(updates@)),
    ensures
        result_view(r) == first_refusal(pairs_view(updates@), |k: Seq<char>, v: Seq<char>| secret_check(k, v)),
{
    let ghost u = pairs_view(updates@);
    let ghost check = |k: Seq<char>, v: Seq<char>| secret_check(k, v);
    assert(u.skip(0) =~= u);
    let keys = hidden_setting_keys();
    let mut i: usize = 0;
    while i < updates.len()
        invariant
            i <= updates.len(),
            u == pairs_view(updates@),
            views(keys@) == hidden_keys(),
            check == (|k: Seq<char>, v: Seq<char>| secret_check(k, v)),
            first_refusal(u, check) == first_refusal(u.skip(i as int), check),
        decreases updates.len() - i,
    {
        proof {
            lemma_first_refusal_step(u, i as int, check);
        }
        let (key, value) = &updates[i];
        if !key_in(keys.as_slice(), key.as_str()) {
            return Err(SettingError::UnsupportedSecret(owned(key.as_str())));
        }
        validate_single_line(value.as_str(), 16_384, Field::Secret(owned(key.as_str())))?;
        i += 1;
    }
    assert(u.skip(i as int) =~= Seq::<(Seq<char>, Seq<char>)>::empty());
    Ok(())
}

/// Checks VOD tool path updates, given in key order; the first offending
/// pair decides.
pub fn validate_vod_tool_updates(updates: &[(String, String)]) -> (r: Result<(), SettingError>)
    requires
        keys_ascending(pairs_view(updates@)),
    ensures
        result_view(r) == first_refusal(pairs_view(updates@), |k: Seq<char>, v: Seq<char>| vod_tool_check(k, v)),
{
    let ghost u = pairs_view(updates@);
    let ghost check = |k: Seq<char>, v: Seq<char>| vod_tool_check(k, v);
    assert(u.skip(0) =~= u);
    let keys = vod_tool_setting_keys();
    let mut i: usize = 0;
    while i < updates.len()
        invariant
            i <= updates.len(),
            u == pairs_view(updates@),
            views(keys@) == vod_tool_keys(),
            check == (|k: Seq<char>, v: Seq<char>| vod_tool_check(k, v)),
            first_refusal(u, check) == first_refusal(u.skip(i as int), check),
        decreases updates.len() - i,
    {
        proof {
            lemma_first_refusal_step(u, i as int, check);
        }
        let (key, value) = &updates[i];
        if !key_in(keys.as_slice(), key.as_str()) {
            return Err(SettingError::UnsupportedVodTool(owned(key.as_str())));
        }
        validate_single_line(value.as_str(), 2048, Field::VodTool(owned(key.as_str())))?;
        i += 1;
    }
    assert(u.skip(i as int) =~= Seq::<(Seq<char>, Seq<char>)>::empty());
    Ok(())
}

/// The value stored under `key` (the first pair with that key).
pub open spec fn lookup(u: Seq<(Seq<char>, Seq<char>)>, key: Seq<char>) -> Option<Seq<char>>
    decreases u.len(),
{
    if u.len() == 0 {
        None
    } else if u[0].0 == key {
        Some(u[0].1)
    } else {
        lookup(u.drop_first(), key)
    }
}

/// The stored value of `key`, or the empty text.
pub open spec fn stored_or_empty(u: Seq<(Seq<char>, Seq<char>)>, key: Seq<char>) -> Seq<char> {
    match lookup(u, key) {
        Some(v) => v,
        None => Seq::empty(),
    }
}

/// The value of `key` among the pairs, if any.
pub fn lookup_value(values: &[(String, String)], key: &str) -> (r: Option<String>)
    ensures
        match lookup(pairs_view(values@), key@) {
            None => r.is_none(),
            Some(v) => r.is_some() && r.unwrap()@ == v,
        },
{
    let ghost u = pairs_view(values@);
    assert(u.skip(0) =~= u);
    let mut i: usize = 0;
    while i < values.len()
        invariant
            i <= values.len(),
            u == pairs_view(values@),
            lookup(u, key@) == lookup(u.skip(i as int), key@),
        decreases values.len() - i,
    {
        assert(u.skip(i as int).drop_first() =~= u.skip(i + 1));
        let (k, v) = &values[i];
        if str_eq(k.as_str(), key) {
            return Some(owned(v.as_str()));
        }
        i += 1;
    }
    assert(u.skip(i as int) =~= Seq::<(Seq<char>, Seq<char>)>::empty());
    None
}

/// Fills an empty (or blank) tool path from the stored VOD tool settings;
/// a path that is given stays as it is.
pub fn apply_vod_tool_defaults(values: &[(String, String)], yt_dlp: &mut String, ffmpeg: &mut String)
    ensures
        final(yt_dlp)@ == (if trim(old(yt_dlp)@).len() == 0 {
            stored_or_empty(pairs_view(values@), "YT_DLP_PATH"@)
        } else {
            old(yt_dlp)@
        }),
        final(ffmpeg)@ == (if trim(old(ffmpeg)@).len() == 0 {
            stored_or_empty(pairs_view(values@), "FFMPEG_PATH"@)
        } else {
            old(ffmpeg)@
        }),
{
    let yv = chars_of(yt_dlp.as_str());
    if trim_chars(yv.as_slice()).len() == 0 {
        *yt_dlp = match lookup_value(values, "YT_DLP_PATH") {
            Some(v) => v,
            None => String::new(),
        };
    }
    let fv = chars_of(ffmpeg.as_str());
    if trim_chars(fv.as_slice()).len() == 0 {
        *ffmpeg = match lookup_value(values, "FFMPEG_PATH") {
            Some(v) => v,
            None => String::new(),
        };
    }
}

// ---------------------------------------------------------------------------
// Channels
// ---------------------------------------------------------------------------

/// What makes two channels the same: the platform and the trimmed,
/// lower-cased account.
pub open spec fn channel_identity(c: ChannelView) -> (PlatformId, Seq<char>) {
    (c.platform, lower_seq(trim(c.account)))
}

/// The checks of one channel by itself, in order.
pub open spec fn channel_check(c: ChannelView) -> Result<(), Refusal> {
    if single_line_check(c.name, 200, FieldKind::ChannelName) is Err {
        single_line_check(c.name, 200, FieldKind::ChannelName)
    } else if single_line_check(c.account, 200, FieldKind::ChannelAccount) is Err {
        single_line_check(c.account, 200, FieldKind::ChannelAccount)
    } else if single_line_check(c.outdir, 2048, FieldKind::ChannelOutdir) is Err {
        single_line_check(c.outdir, 2048, FieldKind::ChannelOutdir)
    } else if trim(c.name).len() == 0 {
        Err(Refusal::ChannelNameEmpty)
    } else if trim(c.account).len() == 0 {
        Err(Refusal::ChannelAccountEmpty)
    } else if account_check(c.platform, trim(c.account)) is Err {
        Err(
            Refusal::InvalidChannelAccount(
                c.platform,
                trim(c.account),
                account_check(c.platform, trim(c.account))->Err_0,
            ),
        )
    } else if c.name.contains('|') {
        Err(Refusal::ContainsPipe(FieldKind::ChannelName))
    } else if c.account.contains('|') {
        Err(Refusal::ContainsPipe(FieldKind::ChannelAccount))
    } else if c.outdir.contains('|') {
        Err(Refusal::ContainsPipe(FieldKind::ChannelOutdir))
    } else {
        Ok(())
    }
}

/// The checks of the first `n` channels, in order: each channel by itself,
/// then against the channels before it.
pub open spec fn channels_check_upto(cs: Seq<ChannelView>, n: nat) -> Result<(), Refusal>
    decreases n,
{
    if n == 0 {
        Ok(())
    } else {
        match channels_check_upto(cs, (n - 1) as nat) {
            Err(e) => Err(e),
            Ok(_) => match channel_check(cs[n - 1]) {
                Err(e) => Err(e),
                Ok(_) => if exists|j: int|
                    0 <= j < n - 1 && channel_identity(#[trigger] cs[j]) == channel_identity(
                        cs[n - 1],
                    ) {
                    Err(Refusal::DuplicateChannel(cs[n - 1].platform, cs[n - 1].account))
                } else {
                    Ok(())
                },
            },
        }
    }
}

proof fn lemma_channels_err_stays(cs: Seq<ChannelView>, m: nat, n: nat)
    requires
        m <= n,
        channels_check_upto(cs, m) is Err,
    ensures
        channels_check_upto(cs, n) == channels_check_upto(cs, m),
    decreases n - m,
{
    if n > m {
        lemma_channels_err_stays(cs, m, (n - 1) as nat);
    }
}

fn check_channel(c: &Channel) -> (r: Result<(), SettingError>)
    ensures
        result_view(r) == channel_check(c@),
{
    validate_single_line(c.name.as_str(), 200, Field::ChannelName)?;
    validate_single_line(c.account.as_str(), 200, Field::ChannelAccount)?;
    validate_single_line(c.outdir.as_str(), 2048, Field::ChannelOutdir)?;
    let name = chars_of(c.name.as_str());
    let account = chars_of(c.account.as_str());
    let outdir = chars_of(c.outdir.as_str());
    if trim_chars(name.as_slice()).len() == 0 {
        return Err(SettingError::ChannelNameEmpty);
    }
    let acc = trim_chars(account.as_slice());
    if acc.len() == 0 {
        return Err(SettingError::ChannelAccountEmpty);
    }
    let acc_text = string_of(acc.as_slice());
    match validate_account(c.platform, acc_text.as_str()) {
        Err(e) => {
            return Err(SettingError::InvalidChannelAccount(c.platform, acc_text, e));
        },
        Ok(()) => {},
    }
    if has_char(name.as_slice(), '|') {
        return Err(SettingError::ContainsPipe(Field::ChannelName));
    }
    if has_char(account.as_slice(), '|') {
        return Err(SettingError::ContainsPipe(Field::ChannelAccount));
    }
    if has_char(outdir.as_slice(), '|') {
        return Err(SettingError::ContainsPipe(Field::ChannelOutdir));
    }
    Ok(())
}

/// Checks the channel list before it is saved: each channel by itself,
/// then that no two channels share a platform and an account (trimmed,
/// case ignored).  The first offending channel decides.
pub fn validate_channels(channels: &[Channel]) -> (r: Result<(), SettingError>)
    ensures
        result_view(r) == channels_check_upto(channels_view(channels@), channels@.len()),
{
    let ghost cs = channels_view(channels@);
    let mut seen: Vec<(PlatformId, Vec<char>)> = Vec::new();
    let mut i: usize = 0;
    while i < channels.len()
        invariant
            i <= channels.len(),
            cs == channels_view(channels@),
            cs.len() == channels.len(),
            seen.len() == i,
            forall|j: int| 0 <= j < i ==> (#[trigger] seen@[j]).0 == cs[j].platform && seen@[j].1@
                == lower_seq(trim(cs[j].account)),
            channels_check_upto(cs, i as nat) is Ok,
        decreases channels.len() - i,
    {
        let c = &channels[i];
        assert(c@ == cs[i as int]);
        match check_channel(c) {
            Err(e) => {
                proof {
                    lemma_channels_err_stays(cs, (i + 1) as nat, channels@.len());
                }
                return Err(e);
            },
            Ok(()) => {},
        }
        let account = chars_of(c.account.as_str());
        let id = lower_chars(trim_chars(account.as_slice()).as_slice());
        let mut j: usize = 0;
        while j < i
            invariant
                j <= i,
                i < channels.len(),
                cs == channels_view(channels@),
                cs.len() == channels.len(),
                channels_check_upto(cs, i as nat) is Ok,
                channel_check(cs[i as int]) is Ok,
                c@ == cs[i as int],
                id@ == lower_seq(trim(cs[i as int].account)),
                seen.len() == i,
                forall|k: int| 0 <= k < i ==> (#[trigger] seen@[k]).0 == cs[k].platform
                    && seen@[k].1@ == lower_seq(trim(cs[k].account)),
                forall|k: int| 0 <= k < j ==> channel_identity(#[trigger] cs[k]) != channel_identity(
                    cs[i as int],
                ),
            decreases i - j,
        {
            let (p, a) = &seen[j];
            if *p == c.platform && chars_eq(a.as_slice(), id.as_slice()) {
                assert(channel_identity(cs[j as int]) == channel_identity(cs[i as int]));
                proof {
                    let n = (i + 1) as nat;
                    assert(0 <= j < n - 1 && channel_identity(cs[j as int]) == channel_identity(cs[n - 1]));
                    assert(channels_check_upto(cs, n) == Err::<(), Refusal>(
                        Refusal::DuplicateChannel(cs[n - 1].platform, cs[n - 1].account),
                    ));
                    lemma_channels_err_stays(cs, (i + 1) as nat, channels@.len());
                }
                return Err(SettingError::DuplicateChannel(c.platform, owned(c.account.as_str())));
            }
            j += 1;
        }
        seen.push((c.platform, id));
        assert(!exists|k: int| 0 <= k < i && channel_identity(#[trigger] cs[k]) == channel_identity(cs[i as int]));
        i += 1;
    }
    Ok(())
}

// ---------------------------------------------------------------------------
// Stored settings
// ---------------------------------------------------------------------------

/// The settings every database is given when it lacks them, with their
/// defaults.
pub open spec fn runtime_defaults() -> Seq<(Seq<char>, Seq<char>)> {
    seq![
        ("CHECK_INTERVAL"@, "30"@),
        ("CHANNEL_RELOAD_INTERVAL"@, "2"@),
        ("RECORD_RETRY_INTERVAL"@, "5"@),
        ("RECORD_STALL_TIMEOUT"@, "90"@),
        ("RECORD_MONITOR_INTERVAL"@, "5"@),
        ("WORKER_MAX_RETRY"@, "3"@),
        ("CONSOLE_REFRESH_INTERVAL"@, "5"@),
        ("CONSOLE_AUTO_FORMAT"@, "Y"@),
        ("CHANNEL_NAME_WIDTH"@, "AUTO"@),
        ("CONSOLE_COLOR"@, "Y"@),
        ("CONSOLE_SHOW_PATH"@, "N"@),
        ("GUI_NOTIFY_RECORD_START"@, "N"@),
        ("GUI_NOTIFY_RECORD_FINISH"@, "Y"@),
        ("GUI_NOTIFY_WARNING"@, "Y"@),
        ("MIN_FREE_SPACE_GB"@, "20"@),
        ("OUTPUT_DIR"@, ""@),
        ("QUALITY"@, "best"@),
        ("FILE_NAME_PATTERN"@, "LEGACY"@),
        ("STREAMLINK_PATH"@, "AUTO"@),
        ("STREAMLINK_FALLBACK"@, "AUTO"@),
        ("SOOP_USERNAME"@, ""@),
        ("CLOUDFLARE_WORKER_URL"@, ""@),
        ("MASTER_QUALITY"@, "auto"@),
        ("LOG_ENABLED"@, "Y"@),
        ("LOG_DIR"@, ".\\logs"@),
        ("LOG_RETENTION_DAYS"@, "30"@),
        ("BACKUP_ENABLED"@, "Y"@),
        ("BACKUP_INTERVAL_HOURS"@, "24"@),
        ("BACKUP_KEEP_COUNT"@, "10"@),
        ("BACKUP_RETENTION_DAYS"@, "3"@),
        ("BACKUP_DIR"@, ""@),
        ("YT_DLP_PATH"@, ""@),
        ("FFMPEG_PATH"@, ""@),
    ]
}

fn runtime_default_table() -> (t: Vec<(&'static str, &'static str)>)
    ensures
        t@.map_values(|p: (&str, &str)| (p.0@, p.1@)) == runtime_defaults(),
{
    let t = vec![
        ("CHECK_INTERVAL", "30"),
        ("CHANNEL_RELOAD_INTERVAL", "2"),
        ("RECORD_RETRY_INTERVAL", "5"),
        ("RECORD_STALL_TIMEOUT", "90"),
        ("RECORD_MONITOR_INTERVAL", "5"),
        ("WORKER_MAX_RETRY", "3"),
        ("CONSOLE_REFRESH_INTERVAL", "5"),
        ("CONSOLE_AUTO_FORMAT", "Y"),
        ("CHANNEL_NAME_WIDTH", "AUTO"),
        ("CONSOLE_COLOR", "Y"),
        ("CONSOLE_SHOW_PATH", "N"),
        ("GUI_NOTIFY_RECORD_START", "N"),
        ("GUI_NOTIFY_RECORD_FINISH", "Y"),
        ("GUI_NOTIFY_WARNING", "Y"),
        ("MIN_FREE_SPACE_GB", "20"),
        ("OUTPUT_DIR", ""),
        ("QUALITY", "best"),
        ("FILE_NAME_PATTERN", "LEGACY"),
        ("STREAMLINK_PATH", "AUTO"),
        ("STREAMLINK_FALLBACK", "AUTO"),
        ("SOOP_USERNAME", ""),
        ("CLOUDFLARE_WORKER_URL", ""),
        ("MASTER_QUALITY", "auto"),
        ("LOG_ENABLED", "Y"),
        ("LOG_DIR", ".\\logs"),
        ("LOG_RETENTION_DAYS", "30"),
        ("BACKUP_ENABLED", "Y"),
        ("BACKUP_INTERVAL_HOURS", "24"),
        ("BACKUP_KEEP_COUNT", "10"),
        ("BACKUP_RETENTION_DAYS", "3"),
        ("BACKUP_DIR", ""),
        ("YT_DLP_PATH", ""),
        ("FFMPEG_PATH", ""),
    ];
    assert(t@.map_values(|p: (&str, &str)| (p.0@, p.1@)) =~= runtime_defaults());
    t
}

/// The defaults among `d` whose key has no stored value, in order.
pub open spec fn missing_from(d: Seq<(Seq<char>, Seq<char>)>, values: Seq<(Seq<char>, Seq<char>)>) -> Seq<(Seq<char>, Seq<char>)>
    decreases d.len(),
{
    if d.len() == 0 {
        Seq::empty()
    } else if lookup(values, d.last().0) is Some {
        missing_from(d.drop_last(), values)
    } else {
        missing_from(d.drop_last(), values).push(d.last())
    }
}

/// The runtime defaults to write: those of the settings not stored yet.
pub fn missing_runtime_defaults(values: &[(String, String)]) -> (r: Vec<(String, String)>)
    ensures
        pairs_view(r@) == missing_from(runtime_defaults(), pairs_view(values@)),
{
    let t = runtime_default_table();
    let ghost d = runtime_defaults();
    let mut out: Vec<(String, String)> = Vec::new();
    let mut i: usize = 0;
    while i < t.len()
        invariant
            i <= t.len(),
            t@.map_values(|p: (&str, &str)| (p.0@, p.1@)) == d,
            d == runtime_defaults(),
            pairs_view(out@) == missing_from(d.take(i as int), pairs_view(values@)),
        decreases t.len() - i,
    {
        let (k, v) = t[i];
        assert(d[i as int] == (k@, v@));
        assert(d.take(i + 1).drop_last() =~= d.take(i as int));
        if lookup_value(values, k).is_none() {
            let ghost before = out@;
            out.push((owned(k), owned(v)));
            assert(pairs_view(out@) =~= pairs_view(before).push((k@, v@)));
        }
        i += 1;
    }
    assert(d.take(t.len() as int) =~= d);
    out
}

/// The stored values of the keys that have one, in the keys' order.
pub open spec fn values_for(keys: Seq<Seq<char>>, values: Seq<(Seq<char>, Seq<char>)>) -> Seq<(Seq<char>, Seq<char>)>
    decreases keys.len(),
{
    if keys.len() == 0 {
        Seq::empty()
    } else {
        match lookup(values, keys.last()) {
            Some(v) => values_for(keys.drop_last(), values).push((keys.last(), v)),
            None => values_for(keys.drop_last(), values),
        }
    }
}

pub fn settings_for_keys(values: &[(String, String)], keys: &[&str]) -> (r: Vec<(String, String)>)
    ensures
        pairs_view(r@) == values_for(views(keys@), pairs_view(values@)),
{
    let ghost ks = views(keys@);
    let mut out: Vec<(String, String)> = Vec::new();
    let mut i: usize = 0;
    while i < keys.len()
        invariant
            i <= keys.len(),
            ks == views(keys@),
            pairs_view(out@) == values_for(ks.take(i as int), pairs_view(values@)),
        decreases keys.len() - i,
    {
        assert(ks.take(i + 1).drop_last() =~= ks.take(i as int));
        assert(ks.take(i + 1).last() == keys@[i as int]@);
        match lookup_value(values, keys[i]) {
            Some(v) => {
                let ghost before = out@;
                out.push((owned(keys[i]), v));
                assert(pairs_view(out@) =~= pairs_view(before).push((keys@[i as int]@, out@.last().1@)));
            },
            None => {},
        }
        i += 1;
    }
    assert(ks.take(keys.len() as int) =~= ks);
    out
}

/// Whether each secret has a value that is not blank, in the secrets'
/// order.
pub fn configured_secrets(values: &[(String, String)]) -> (r: Vec<(String, bool)>)
    ensures
        r@.len() == hidden_keys().len(),
        forall|i: int| 0 <= i < r@.len() ==> (#[trigger] r@[i]).0@ == hidden_keys()[i] && r@[i].1 == (match lookup(
            pairs_view(values@),
            hidden_keys()[i],
        ) {
            Some(v) => trim(v).len() > 0,
            None => false,
        }),
{
    let keys = hidden_setting_keys();
    let mut out: Vec<(String, bool)> = Vec::new();
    let mut i: usize = 0;
    while i < keys.len()
        invariant
            i <= keys.len(),
            views(keys@) == hidden_keys(),
            out@.len() == i,
            forall|j: int| 0 <= j < i ==> (#[trigger] out@[j]).0@ == hidden_keys()[j] && out@[j].1 == (match lookup(
                pairs_view(values@),
                hidden_keys()[j],
            ) {
                Some(v) => trim(v).len() > 0,
                None => false,
            }),
        decreases keys.len() - i,
    {
        assert(views(keys@)[i as int] == keys@[i as int]@);
        let set = match lookup_value(values, keys[i]) {
            Some(v) => trim_chars(chars_of(v.as_str()).as_slice()).len() > 0,
            None => false,
        };
        out.push((owned(keys[i]), set));
        i += 1;
    }
    out
}

/// An accepted channel list never holds one account twice on a platform
/// (accounts compared trimmed and ignoring ASCII case).
pub proof fn law_accepted_channels_are_distinct(cs: Seq<ChannelView>, n: nat)
    requires
        n <= cs.len(),
        channels_check_upto(cs, n) is Ok,
    ensures
        forall|i: int, j: int| 0 <= i < j < n ==> channel_identity(#[trigger] cs[i]) != channel_identity(#[trigger] cs[j]),
    decreases n,
{
    if n > 0 {
        law_accepted_channels_are_distinct(cs, (n - 1) as nat);
        assert forall|i: int, j: int| 0 <= i < j < n implies channel_identity(#[trigger] cs[i]) != channel_identity(
            #[trigger] cs[j],
        ) by {
            if j == n - 1 {
                if channel_identity(cs[i]) == channel_identity(cs[j]) {
                    assert(channel_identity(cs[i]) == channel_identity(cs[n - 1]));
                }
            }
        }
    }
}


// ---------------------------------------------------------------------------
// Provider configuration
// ---------------------------------------------------------------------------

/// The settings a provider configuration may change.
pub open spec fn provider_setting_keys() -> Seq<Seq<char>> {
    seq!["SOOP_USERNAME"@, "CLOUDFLARE_WORKER_URL"@]
}

/// The secrets a provider configuration may change.
pub open spec fn provider_secret_keys() -> Seq<Seq<char>> {
    seq!["SOOP_PASSWORD"@, "CLOUDFLARE_API_KEY"@, "CHZZK_NID_AUT"@, "CHZZK_NID_SES"@]
}

/// The first key of the pairs that is not among `keys`.
pub open spec fn first_key_outside(u: Seq<(Seq<char>, Seq<char>)>, keys: Seq<Seq<char>>) -> Option<Seq<char>>
    decreases u.len(),
{
    if u.len() == 0 {
        None
    } else if !keys.contains(u[0].0) {
        Some(u[0].0)
    } else {
        first_key_outside(u.drop_first(), keys)
    }
}

/// The check of a provider configuration: every key among its own, then
/// the settings as any setting update, then the secrets as any secret
/// update.
pub open spec fn provider_configuration_check(
    settings: Seq<(Seq<char>, Seq<char>)>,
    secrets: Seq<(Seq<char>, Seq<char>)>,
) -> Result<(), Refusal> {
    match first_key_outside(settings, provider_setting_keys()) {
        Some(k) => Err(Refusal::NotProviderSetting(k)),
        None => match first_key_outside(secrets, provider_secret_keys()) {
            Some(k) => Err(Refusal::NotProviderSecret(k)),
            None => match first_refusal(settings, |k: Seq<char>, v: Seq<char>| setting_check(k, v)) {
                Err(e) => Err(e),
                Ok(_) => first_refusal(secrets, |k: Seq<char>, v: Seq<char>| secret_check(k, v)),
            },
        },
    }
}

fn first_key_not_in(updates: &[(String, String)], keys: &[&str]) -> (r: Option<String>)
    ensures
        opt_seq(r) == first_key_outside(pairs_view(updates@), views(keys@)),
{
    let ghost u = pairs_view(updates@);
    assert(u.skip(0) =~= u);
    let mut i: usize = 0;
    while i < updates.len()
        invariant
            i <= updates.len(),
            u == pairs_view(updates@),
            first_key_outside(u, views(keys@)) == first_key_outside(u.skip(i as int), views(keys@)),
        decreases updates.len() - i,
    {
        assert(u.skip(i as int).drop_first() =~= u.skip(i + 1));
        assert(u.skip(i as int)[0].0 == updates@[i as int].0@);
        if !key_in(keys, updates[i].0.as_str()) {
            return Some(owned(updates[i].0.as_str()));
        }
        i += 1;
    }
    assert(u.skip(i as int) =~= Seq::<(Seq<char>, Seq<char>)>::empty());
    None
}

/// Checks a provider configuration (see `provider_configuration_check`).
pub fn check_provider_configuration(settings: &[(String, String)], secrets: &[(String, String)]) -> (r: Result<
    (),
    SettingError,
>)
    requires
        keys_ascending(pairs_view(settings@)),
        keys_ascending(pairs_view(secrets@)),
    ensures
        result_view(r) == provider_configuration_check(pairs_view(settings@), pairs_view(secrets@)),
{
    let setting_keys = vec!["SOOP_USERNAME", "CLOUDFLARE_WORKER_URL"];
    let secret_keys = vec!["SOOP_PASSWORD", "CLOUDFLARE_API_KEY", "CHZZK_NID_AUT", "CHZZK_NID_SES"];
    assert(views(setting_keys@) =~= provider_setting_keys());
    assert(views(secret_keys@) =~= provider_secret_keys());
    if let Some(k) = first_key_not_in(settings, setting_keys.as_slice()) {
        return Err(SettingError::NotProviderSetting(k));
    }
    if let Some(k) = first_key_not_in(secrets, secret_keys.as_slice()) {
        return Err(SettingError::NotProviderSecret(k));
    }
    validate_setting_updates(settings)?;
    validate_secret_updates(secrets)
}

/// The pairs whose value is not empty, in order: the secrets a save
/// stores (an empty secret keeps the stored one).
pub open spec fn nonempty_values(u: Seq<(Seq<char>, Seq<char>)>) -> Seq<(Seq<char>, Seq<char>)>
    decreases u.len(),
{
    if u.len() == 0 {
        Seq::empty()
    } else if u.last().1.len() > 0 {
        nonempty_values(u.drop_last()).push(u.last())
    } else {
        nonempty_values(u.drop_last())
    }
}

pub fn secrets_to_store(secrets: &[(String, String)]) -> (r: Vec<(String, String)>)
    ensures
        pairs_view(r@) == nonempty_values(pairs_view(secrets@)),
{
    let ghost u = pairs_view(secrets@);
    let mut out: Vec<(String, String)> = Vec::new();
    let mut i: usize = 0;
    while i < secrets.len()
        invariant
            i <= secrets.len(),
            u == pairs_view(secrets@),
            pairs_view(out@) == nonempty_values(u.take(i as int)),
        decreases secrets.len() - i,
    {
        let (k, v) = &secrets[i];
        assert(u.take(i + 1).drop_last() =~= u.take(i as int));
        assert(u.take(i + 1).last() == (k@, v@));
        if !v.as_str().is_empty() {
            let ghost before = pairs_view(out@);
            out.push((owned(k.as_str()), owned(v.as_str())));
            assert(pairs_view(out@) =~= before.push((k@, v@)));
        }
        i += 1;
    }
    assert(u.take(secrets.len() as int) =~= u);
    out
}


// ---------------------------------------------------------------------------
// The backup directory
// ---------------------------------------------------------------------------

/// What checking a `BACKUP_DIR` value takes next.
#[derive(Debug)]
pub enum BackupDirStep {
    /// A blank value: nothing to check.
    Nothing,
    /// The value is refused.
    Refuse(SettingError),
    /// Create the (trimmed) directory with its parents, then write a probe
    /// file in it and remove it again.
    Prepare(String),
}

/// The step for a `BACKUP_DIR` value, given whether its trimmed path
/// exists and whether it is a directory: blank values need nothing, a path
/// that exists and is not a directory is refused, any other is prepared.
pub fn backup_dir_step(value: &str, exists: bool, is_dir: bool) -> (r: BackupDirStep)
    ensures
        trim(value@).len() == 0 ==> r is Nothing,
        trim(value@).len() > 0 && exists && !is_dir ==> (r matches BackupDirStep::Refuse(e) && e@
            == Refusal::BackupDirNotDirectory(trim(value@))),
        trim(value@).len() > 0 && !(exists && !is_dir) ==> (r matches BackupDirStep::Prepare(p) && p@ == trim(
            value@,
        )),
{
    let v = chars_of(value);
    let t = trim_chars(v.as_slice());
    if t.len() == 0 {
        return BackupDirStep::Nothing;
    }
    let path = string_of(t.as_slice());
    if exists && !is_dir {
        BackupDirStep::Refuse(SettingError::BackupDirNotDirectory(path))
    } else {
        BackupDirStep::Prepare(path)
    }
}

/// What preparing the backup directory came to.
#[derive(Debug, Clone, Copy, PartialEq, Eq)]
pub enum PrepareOutcome {
    /// Created (or already there), written to and cleaned up.
    Ready,
    NotCreatable,
    NotWritable,
    CleanupFailed,
}

/// The verdict on a prepared backup directory `path`: accepted only when
/// it was created, written to and cleaned up.
pub fn backup_dir_verdict(path: &str, outcome: PrepareOutcome) -> (r: Result<(), SettingError>)
    ensures
        result_view(r) == match outcome {
            PrepareOutcome::Ready => Ok(()),
            PrepareOutcome::NotCreatable => Err(Refusal::BackupDirNotCreatable(path@)),
            PrepareOutcome::NotWritable => Err(Refusal::BackupDirNotWritable(path@)),
            PrepareOutcome::CleanupFailed => Err(Refusal::BackupDirCleanupFailed(path@)),
        },
{
    match outcome {
        PrepareOutcome::Ready => Ok(()),
        PrepareOutcome::NotCreatable => Err(SettingError::BackupDirNotCreatable(owned(path))),
        PrepareOutcome::NotWritable => Err(SettingError::BackupDirNotWritable(owned(path))),
        PrepareOutcome::CleanupFailed => Err(SettingError::BackupDirCleanupFailed(owned(path))),
    }
}

/// A path as its leading part (a Windows prefix and the root, possibly
/// empty) and the components after it, each as text.
#[derive(Debug, Clone)]
pub struct PathParts {
    pub base: String,
    pub parts: Vec<String>,
}

pub struct PathPartsView {
    pub base: Seq<char>,
    pub parts: Seq<Seq<char>>,
}

impl View for PathParts {
    type V = PathPartsView;

    open spec fn view(&self) -> PathPartsView {
        PathPartsView { base: self.base@, parts: crate::tools::texts_view(self.parts@) }
    }
}

/// `Path::parent`, or the path itself where it has none (no component
/// after its leading part).
pub open spec fn parent_or_self(p: PathPartsView) -> PathPartsView {
    if p.parts.len() > 0 {
        PathPartsView { base: p.base, parts: p.parts.drop_last() }
    } else {
        p
    }
}

/// Backups go into `stream-archive-backups` beside the application folder,
/// the parent of the backend folder; where a folder has no parent, it
/// stands in for its parent.
pub open spec fn default_backup_dir_spec(backend: PathPartsView) -> PathPartsView {
    let parent = parent_or_self(parent_or_self(backend));
    PathPartsView { base: parent.base, parts: parent.parts.push("stream-archive-backups"@) }
}

/// The backup directory: the value of `STREAM_ARCHIVE_BACKUP_DIR` when it
/// is set and not blank, else `default_backup_dir_spec` of the backend
/// folder.
pub fn default_backup_dir(environment: Option<String>, backend: &PathParts) -> (r: Result<String, PathParts>)
    ensures
        match environment {
            Some(v) if trim(v@).len() > 0 => r matches Ok(s) && s@ == v@,
            _ => r matches Err(p) && p@ == default_backup_dir_spec(backend@),
        },
{
    if let Some(v) = environment {
        let c = chars_of(v.as_str());
        let t = trim_chars(c.as_slice());
        if t.len() > 0 {
            return Ok(v);
        }
    }
    let mut parts: Vec<String> = Vec::new();
    let mut i: usize = 0;
    let n = backend.parts.len();
    let keep: usize = if n >= 2 { n - 2 } else { 0 };
    while i < keep
        invariant
            i <= keep,
            keep <= backend.parts.len(),
            parts@.len() == i,
            crate::tools::texts_view(parts@) == crate::tools::texts_view(backend.parts@).take(i as int),
        decreases keep - i,
    {
        let ghost before = parts@;
        let item = owned(backend.parts[i].as_str());
        parts.push(item);
        proof {
            let tv = crate::tools::texts_view(parts@);
            let want = crate::tools::texts_view(backend.parts@).take(i + 1);
            assert(tv.len() == want.len());
            assert forall|k: int| 0 <= k < tv.len() implies tv[k] == want[k] by {
                if k < i {
                    assert(parts@[k] == before[k]);
                    assert(crate::tools::texts_view(before)[k] == before[k]@);
                } else {
                    assert(parts@[k] == item);
                }
            }
            assert(tv =~= want);
        }
        i += 1;
    }
    let ghost kept = crate::tools::texts_view(parts@);
    parts.push(owned("stream-archive-backups"));
    proof {
        let b = backend@;
        assert(crate::tools::texts_view(parts@) =~= kept.push("stream-archive-backups"@));
        if n >= 2 {
            assert(b.parts.drop_last().drop_last() =~= b.parts.take(keep as int));
        } else if n == 1 {
            assert(b.parts.drop_last() =~= b.parts.take(0));
        } else {
            assert(b.parts =~= b.parts.take(0));
        }
    }
    Err(PathParts { base: owned(backend.base.as_str()), parts })
}


/// The editable settings that have a stored value, in the order of
/// `safe_keys`.
pub fn read_safe_settings(values: &[(String, String)]) -> (r: Vec<(String, String)>)
    ensures
        pairs_view(r@) == values_for(safe_keys(), pairs_view(values@)),
{
    let keys = safe_setting_keys();
    settings_for_keys(values, keys.as_slice())
}

/// The answer to a settings request for the stored values.
pub fn settings_response(values: &[(String, String)]) -> (r: crate::model::SettingsResponse)
    ensures
        pairs_view(r.values@) == values_for(safe_keys(), pairs_view(values@)),
        views(r.hidden_keys@) == hidden_keys(),
{
    crate::model::SettingsResponse { values: read_safe_settings(values), hidden_keys: hidden_setting_keys() }
}

} // verus!
