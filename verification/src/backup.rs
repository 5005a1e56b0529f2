//! Backups of the settings database: the policy read from the settings,
//! the checks of a policy update, backup file names, integrity verdicts,
//! and which old backups a cleanup removes.
use crate::text::{
    contains, decimal, ends_with, eq_ignore_case, format_i64, format_u64, owned, parse_i64,
    parse_i64_spec, parse_u64, parse_u64_spec, push_str, signed_decimal, starts_with, str_contains,
    str_ends_with, str_eq_ignore_case, str_starts_with, string_of, trim, trim_str, chars_of, has_char,
};
use vstd::prelude::*;

verus! {

/// How backups are made and kept.
#[derive(Debug, Clone, PartialEq, Eq)]
pub struct BackupPolicy {
    pub enabled: bool,
    pub interval_hours: u64,
    pub keep_count: usize,
    pub retention_days: i64,
}

/// A backup file as it is listed.
#[derive(Debug, Clone)]
pub struct BackupInfo {
    pub file_name: String,
    pub created_at: String,
    pub kind: String,
    pub size_bytes: u64,
    pub sha256: String,
    pub integrity: String,
}

/// The backup view: where backups go, whether that can be changed, the
/// policy and the backups, newest first.
#[derive(Debug, Clone)]
pub struct BackupSnapshot {
    pub directory: String,
    pub directory_editable: bool,
    pub policy: BackupPolicy,
    pub backups: Vec<BackupInfo>,
}

/// A restore: the backup restored, and the backup taken just before.
#[derive(Debug, Clone)]
pub struct RestoreOutcome {
    pub restored: BackupInfo,
    pub safety_backup: BackupInfo,
}

pub open spec fn opt_view(o: Option<&str>) -> Option<Seq<char>> {
    match o {
        Some(s) => Some(s@),
        None => None,
    }
}

/// The policy from the stored settings: enabled unless the flag is other
/// than `Y` (case ignored; `Y` when absent); an interval of at least one
/// hour (24 when absent or not a number); 10 backups kept and 3 days of
/// retention by default; retention never negative.
pub open spec fn policy_spec(
    enabled: Option<Seq<char>>,
    interval: Option<Seq<char>>,
    keep: Option<Seq<char>>,
    retention: Option<Seq<char>>,
) -> (bool, u64, u64, i64) {
    let e = match enabled {
        Some(v) => eq_ignore_case(v, "Y"@),
        None => true,
    };
    let i = match interval {
        Some(v) => match parse_u64_spec(v) {
            Some(n) => n,
            None => 24,
        },
        None => 24,
    };
    let k = match keep {
        Some(v) => match parse_u64_spec(v) {
            Some(n) => n,
            None => 10,
        },
        None => 10,
    };
    let r = match retention {
        Some(v) => match parse_i64_spec(v) {
            Some(n) => n,
            None => 3,
        },
        None => 3,
    };
    (e, if i < 1 { 1 } else { i }, k, if r < 0 { 0 } else { r })
}

pub fn policy_from_settings(
    enabled: Option<&str>,
    interval_hours: Option<&str>,
    keep_count: Option<&str>,
    retention_days: Option<&str>,
) -> (r: BackupPolicy)
    ensures
        ({
            let p = policy_spec(opt_view(enabled), opt_view(interval_hours), opt_view(keep_count), opt_view(retention_days));
            r.enabled == p.0 && r.interval_hours == p.1 && r.keep_count == p.2 as usize && r.retention_days == p.3
        }),
{
    let e = match enabled {
        Some(v) => str_eq_ignore_case(v, "Y"),
        None => true,
    };
    let i = match interval_hours {
        Some(v) => match parse_u64(v) {
            Some(n) => n,
            None => 24,
        },
        None => 24,
    };
    let k = match keep_count {
        Some(v) => match parse_u64(v) {
            Some(n) => n,
            None => 10,
        },
        None => 10,
    };
    let r = match retention_days {
        Some(v) => match parse_i64(v) {
            Some(n) => n,
            None => 3,
        },
        None => 3,
    };
    BackupPolicy {
        enabled: e,
        interval_hours: if i < 1 {
            1
        } else {
            i
        },
        keep_count: k as usize,
        retention_days: if r < 0 {
            0
        } else {
            r
        },
    }
}

/// Why a policy update was refused.
#[derive(Debug, Clone, Copy, PartialEq, Eq, Structural)]
pub enum BackupError {
    /// The interval is below one hour.
    IntervalTooShort,
    /// The retention is negative.
    NegativeRetention,
    /// The backup directory is fixed by the environment.
    DirectoryNotEditable,
    /// The file name is not one of this archive's backups.
    InvalidFileName,
}

/// The settings a policy update writes, in key order: the flag, interval,
/// kept count and retention, and the trimmed directory when one is given
/// and may be changed.
pub fn policy_updates(policy: &BackupPolicy, directory: Option<&str>, directory_editable: bool) -> (r: Result<
    Vec<(String, String)>,
    BackupError,
>)
    ensures
        policy.interval_hours < 1 ==> r == Err::<Vec<(String, String)>, BackupError>(BackupError::IntervalTooShort),
        policy.interval_hours >= 1 && policy.retention_days < 0 ==> r == Err::<Vec<(String, String)>, BackupError>(
            BackupError::NegativeRetention,
        ),
        policy.interval_hours >= 1 && policy.retention_days >= 0 && directory.is_some() && !directory_editable
            ==> r == Err::<Vec<(String, String)>, BackupError>(BackupError::DirectoryNotEditable),
        policy.interval_hours >= 1 && policy.retention_days >= 0 && (directory.is_none() || directory_editable)
            ==> r is Ok && crate::settings::pairs_view(r->Ok_0@) == seq![
            ("BACKUP_ENABLED"@, if policy.enabled { "Y"@ } else { "N"@ }),
            ("BACKUP_INTERVAL_HOURS"@, decimal(policy.interval_hours as nat)),
            ("BACKUP_KEEP_COUNT"@, decimal(policy.keep_count as nat)),
            ("BACKUP_RETENTION_DAYS"@, signed_decimal(policy.retention_days as int)),
        ] + match directory {
            Some(d) => seq![("BACKUP_DIR"@, trim(d@))],
            None => Seq::empty(),
        },
{
    if policy.interval_hours < 1 {
        return Err(BackupError::IntervalTooShort);
    }
    if policy.retention_days < 0 {
        return Err(BackupError::NegativeRetention);
    }
    let mut v: Vec<(String, String)> = Vec::new();
    v.push((owned("BACKUP_ENABLED"), owned(if policy.enabled { "Y" } else { "N" })));
    v.push((owned("BACKUP_INTERVAL_HOURS"), format_u64(policy.interval_hours)));
    v.push((owned("BACKUP_KEEP_COUNT"), format_u64(policy.keep_count as u64)));
    v.push((owned("BACKUP_RETENTION_DAYS"), format_i64(policy.retention_days)));
    match directory {
        Some(d) => {
            if !directory_editable {
                return Err(BackupError::DirectoryNotEditable);
            }
            v.push((owned("BACKUP_DIR"), trim_str(d)));
        },
        None => {},
    }
    assert(crate::settings::pairs_view(v@) =~= seq![
        ("BACKUP_ENABLED"@, if policy.enabled { "Y"@ } else { "N"@ }),
        ("BACKUP_INTERVAL_HOURS"@, decimal(policy.interval_hours as nat)),
        ("BACKUP_KEEP_COUNT"@, decimal(policy.keep_count as nat)),
        ("BACKUP_RETENTION_DAYS"@, signed_decimal(policy.retention_days as int)),
    ] + match directory {
        Some(d) => seq![("BACKUP_DIR"@, trim(d@))],
        None => Seq::empty(),
    });
    Ok(v)
}

/// The prefix of every backup file of this archive.
pub open spec fn backup_prefix() -> Seq<char> {
    "stream_archive_"@
}

/// A backup database name: the prefix, and `.db` at the end.
pub open spec fn backup_name_spec(name: Seq<char>) -> bool {
    starts_with(name, backup_prefix()) && ends_with(name, ".db"@)
}

pub fn is_backup_database_name(name: &str) -> (r: bool)
    ensures
        r == backup_name_spec(name@),
{
    str_starts_with(name, "stream_archive_") && str_ends_with(name, ".db")
}

/// The file name of a new backup of the kind, made at the time stamp.
pub fn backup_file_name(kind: &str, stamp: &str) -> (r: String)
    ensures
        r@ == backup_prefix() + kind@ + seq!['_'] + stamp@ + ".db"@,
{
    let mut v: Vec<char> = Vec::new();
    push_str(&mut v, "stream_archive_");
    push_str(&mut v, kind);
    v.push('_');
    push_str(&mut v, stamp);
    push_str(&mut v, ".db");
    assert(v@ =~= backup_prefix() + kind@ + seq!['_'] + stamp@ + ".db"@);
    string_of(v.as_slice())
}

/// Characters that separate path components (`\\` only on Windows).
pub open spec fn separator(c: char, windows: bool) -> bool {
    c == '/' || (windows && c == '\\')
}

/// A backup to restore is named by its bare file name: trimmed, a backup
/// database name, with no path separator.
pub open spec fn restore_name_spec(name: Seq<char>, windows: bool) -> Option<Seq<char>> {
    let t = trim(name);
    if t.len() > 0 && backup_name_spec(t) && !(exists|i: int| 0 <= i < t.len() && separator(#[trigger] t[i], windows)) {
        Some(t)
    } else {
        None
    }
}

pub fn restore_file_name(name: &str, windows: bool) -> (r: Result<String, BackupError>)
    ensures
        match restore_name_spec(name@, windows) {
            Some(t) => r matches Ok(x) && x@ == t,
            None => r == Err::<String, BackupError>(BackupError::InvalidFileName),
        },
{
    let t = trim_str(name);
    if t.as_str().is_empty() || !is_backup_database_name(t.as_str()) {
        return Err(BackupError::InvalidFileName);
    }
    let v = chars_of(t.as_str());
    let mut i: usize = 0;
    while i < v.len()
        invariant
            i <= v.len(),
            v@ == t@,
            t@ == trim(name@),
            t@.len() > 0,
            backup_name_spec(t@),
            forall|j: int| 0 <= j < i ==> !separator(#[trigger] v@[j], windows),
        decreases v.len() - i,
    {
        if v[i] == '/' || (windows && v[i] == '\\') {
            assert(separator(t@[i as int], windows));
            return Err(BackupError::InvalidFileName);
        }
        i += 1;
    }
    Ok(t)
}

/// The kind of a backup without metadata, from its file name.
pub open spec fn infer_kind_spec(name: Seq<char>) -> Seq<char> {
    if contains(name, "_manual_"@) {
        "manual"@
    } else if contains(name, "_auto_"@) {
        "auto"@
    } else if contains(name, "_pre_restore_"@) {
        "pre_restore"@
    } else {
        "unknown"@
    }
}

pub fn infer_kind(file_name: &str) -> (r: String)
    ensures
        r@ == infer_kind_spec(file_name@),
{
    if str_contains(file_name, "_manual_") {
        owned("manual")
    } else if str_contains(file_name, "_auto_") {
        owned("auto")
    } else if str_contains(file_name, "_pre_restore_") {
        owned("pre_restore")
    } else {
        owned("unknown")
    }
}

/// The integrity verdict of a backup: with metadata, `INVALID_SQLITE`
/// when the database check failed, `OK` when the hash (case ignored) and
/// size match, else `HASH_MISMATCH`; without metadata, `NO_METADATA` or
/// `INVALID_SQLITE`.
pub open spec fn integrity_spec(metadata: Option<(Seq<char>, u64)>, actual_sha: Seq<char>, size: u64, db_ok: bool) -> Seq<char> {
    match metadata {
        Some((sha, meta_size)) => if !db_ok {
            "INVALID_SQLITE"@
        } else if eq_ignore_case(sha, actual_sha) && meta_size == size {
            "OK"@
        } else {
            "HASH_MISMATCH"@
        },
        None => if db_ok {
            "NO_METADATA"@
        } else {
            "INVALID_SQLITE"@
        },
    }
}

pub fn integrity(metadata: Option<(&str, u64)>, actual_sha: &str, size: u64, db_ok: bool) -> (r: &'static str)
    ensures
        r@ == integrity_spec(
            match metadata {
                Some((s, n)) => Some((s@, n)),
                None => None,
            },
            actual_sha@,
            size,
            db_ok,
        ),
{
    match metadata {
        Some((sha, meta_size)) => {
            if !db_ok {
                "INVALID_SQLITE"
            } else if str_eq_ignore_case(sha, actual_sha) && meta_size == size {
                "OK"
            } else {
                "HASH_MISMATCH"
            }
        },
        None => {
            if db_ok {
                "NO_METADATA"
            } else {
                "INVALID_SQLITE"
            }
        },
    }
}

/// Whether a cleanup removes the owned backup at `index` (newest first)
/// whose age in seconds is known or not: beyond the kept count, or older
/// than the retention.
pub open spec fn removes_spec(policy: BackupPolicy, index: nat, age_secs: Option<u64>) -> bool {
    let too_many = policy.keep_count > 0 && index >= policy.keep_count;
    let too_old = policy.retention_days > 0 && match age_secs {
        Some(a) => a > policy.retention_days * 86400,
        None => false,
    };
    too_many || too_old
}

/// A cleanup keeps the newest `keep_count` backups that are within the
/// retention (or all of them within it when the count is 0), and removes
/// every backup past the count.
pub proof fn law_cleanup_keeps_newest(policy: BackupPolicy, index: nat, age_secs: Option<u64>)
    ensures
        (policy.keep_count == 0 || index < policy.keep_count) && (policy.retention_days <= 0 || match age_secs {
            Some(a) => a <= policy.retention_days * 86400,
            None => true,
        }) ==> !removes_spec(policy, index, age_secs),
        policy.keep_count > 0 && index >= policy.keep_count ==> removes_spec(policy, index, age_secs),
{
}

/// Which owned backups (newest first, with their ages) a cleanup removes.
pub fn cleanup_selection(policy: &BackupPolicy, ages: &[Option<u64>]) -> (r: Vec<bool>)
    ensures
        r@.len() == ages@.len(),
        forall|i: int| 0 <= i < ages@.len() ==> r@[i] == removes_spec(*policy, i as nat, #[trigger] ages@[i]),
{
    let mut r: Vec<bool> = Vec::new();
    let mut i: usize = 0;
    while i < ages.len()
        invariant
            i <= ages.len(),
            r@.len() == i,
            forall|j: int| 0 <= j < i ==> r@[j] == removes_spec(*policy, j as nat, #[trigger] ages@[j]),
        decreases ages.len() - i,
    {
        let too_many = policy.keep_count > 0 && i >= policy.keep_count;
        let too_old = if policy.retention_days > 0 {
            match ages[i] {
                Some(a) => (a as i128) > (policy.retention_days as i128) * 86400,
                None => false,
            }
        } else {
            false
        };
        r.push(too_many || too_old);
        i += 1;
    }
    r
}

/// Whether an automatic backup is due: there is none yet, or the newest
/// one is at least the interval old (ages in seconds).
pub open spec fn auto_due_spec(newest_auto_age_secs: Option<i64>, interval_hours: u64) -> bool {
    match newest_auto_age_secs {
        Some(age) => age >= interval_hours * 3600,
        None => true,
    }
}

pub fn auto_backup_due(newest_auto_age_secs: Option<i64>, interval_hours: u64) -> (r: bool)
    ensures
        r == auto_due_spec(newest_auto_age_secs, interval_hours),
{
    match newest_auto_age_secs {
        Some(age) => (age as i128) >= (interval_hours as i128) * 3600,
        None => true,
    }
}

// ---------------------------------------------------------------------------
// Defaults, directory and digests
// ---------------------------------------------------------------------------

/// The policy settings and their defaults, in the order they are written.
pub open spec fn policy_defaults() -> Seq<(Seq<char>, Seq<char>)> {
    seq![
        ("BACKUP_ENABLED"@, "Y"@),
        ("BACKUP_INTERVAL_HOURS"@, "24"@),
        ("BACKUP_KEEP_COUNT"@, "10"@),
        ("BACKUP_RETENTION_DAYS"@, "3"@),
        ("BACKUP_DIR"@, ""@),
    ]
}

/// The defaults of the policy settings that are not stored yet, in order;
/// `stored[i]` says whether the `i`-th policy setting is stored.
pub open spec fn missing_defaults(stored: Seq<bool>, upto: int) -> Seq<(Seq<char>, Seq<char>)>
    decreases upto,
{
    if upto <= 0 {
        Seq::empty()
    } else if stored[upto - 1] {
        missing_defaults(stored, upto - 1)
    } else {
        missing_defaults(stored, upto - 1).push(policy_defaults()[upto - 1])
    }
}

/// The names of the policy settings, in order.
pub fn policy_setting_keys() -> (r: Vec<&'static str>)
    ensures
        r@.len() == 5,
        forall|i: int| 0 <= i < 5 ==> (#[trigger] r@[i])@ == policy_defaults()[i].0,
{
    vec!["BACKUP_ENABLED", "BACKUP_INTERVAL_HOURS", "BACKUP_KEEP_COUNT", "BACKUP_RETENTION_DAYS", "BACKUP_DIR"]
}

/// The settings to write so that every policy setting has a value: the
/// default of each one not stored, in order.
pub fn policy_default_updates(stored: &[bool]) -> (r: Vec<(String, String)>)
    requires
        stored@.len() == 5,
    ensures
        crate::settings::pairs_view(r@) == missing_defaults(stored@, 5),
{
    let keys = policy_setting_keys();
    let values: Vec<&'static str> = vec!["Y", "24", "10", "3", ""];
    let mut out: Vec<(String, String)> = Vec::new();
    let mut i: usize = 0;
    while i < 5
        invariant
            i <= 5,
            stored@.len() == 5,
            keys@.len() == 5,
            values@.len() == 5,
            forall|j: int| 0 <= j < 5 ==> (#[trigger] keys@[j])@ == policy_defaults()[j].0,
            forall|j: int| 0 <= j < 5 ==> (#[trigger] values@[j])@ == policy_defaults()[j].1,
            crate::settings::pairs_view(out@) == missing_defaults(stored@, i as int),
        decreases 5 - i,
    {
        if !stored[i] {
            let ghost before = out@;
            out.push((owned(keys[i]), owned(values[i])));
            assert(crate::settings::pairs_view(out@) =~= crate::settings::pairs_view(before).push(
                policy_defaults()[i as int],
            ));
        }
        i += 1;
    }
    out
}

/// Where backups go: the stored directory, trimmed, unless the directory
/// is fixed by the environment or none is stored; else the default.
pub open spec fn backup_dir_spec(env_override: bool, stored: Option<Seq<char>>, default: Seq<char>) -> Seq<char> {
    match stored {
        Some(v) => if !env_override && trim(v).len() > 0 {
            trim(v)
        } else {
            default
        },
        None => default,
    }
}

pub fn backup_dir(env_override: bool, stored: Option<&str>, default: &str) -> (r: String)
    ensures
        r@ == backup_dir_spec(env_override, opt_view(stored), default@),
{
    if !env_override {
        match stored {
            Some(v) => {
                let t = trim_str(v);
                if !t.as_str().is_empty() {
                    return t;
                }
            },
            None => {},
        }
    }
    owned(default)
}

/// What `sha2::Sha256` digests bytes to.
pub uninterp spec fn sha256_of(data: Seq<u8>) -> Seq<u8>;

/// Calls `sha2::Digest::digest` for `Sha256`; the digest is named for the
/// bytes and is 32 bytes long (the output size of SHA-256).
#[verifier::external_body]
fn sha256_digest(data: &[u8]) -> (r: Vec<u8>)
    ensures
        r@ == sha256_of(data@),
        r@.len() == 32,
{
    <sha2::Sha256 as sha2::Digest>::digest(data).to_vec()
}

/// The SHA-256 of a file's bytes as lower-case hex, as backups record it.
pub fn file_digest_hex(data: &[u8]) -> (r: String)
    ensures
        r@ == crate::auth::hex_spec(sha256_of(data@)),
        r@.len() == 64,
{
    let d = sha256_digest(data);
    let h = crate::auth::hex_encode(d.as_slice());
    proof {
        crate::auth::lemma_hex_len(d@);
    }
    h
}


// ---------------------------------------------------------------------------
// Listing order
// ---------------------------------------------------------------------------

/// The key a backup is listed by: when it was made, then its name.
pub open spec fn listing_key(b: BackupInfo) -> (Seq<char>, Seq<char>) {
    (b.created_at@, b.file_name@)
}

/// `a` comes before `b` in `str` order of the pair of texts.
pub open spec fn pair_lt(a: (Seq<char>, Seq<char>), b: (Seq<char>, Seq<char>)) -> bool {
    crate::text::text_lt(a.0, b.0) || (a.0 == b.0 && crate::text::text_lt(a.1, b.1))
}

/// The `i`-th item is listed before the `j`-th: newer (by key) first, and
/// items with the same key in the order given.
pub open spec fn listed_before(items: Seq<BackupInfo>, i: int, j: int) -> bool {
    pair_lt(listing_key(items[j]), listing_key(items[i])) || (listing_key(items[i]) == listing_key(items[j])
        && i < j)
}

proof fn lemma_pair_lt_transitive(a: (Seq<char>, Seq<char>), b: (Seq<char>, Seq<char>), c: (Seq<char>, Seq<char>))
    requires
        pair_lt(a, b),
        pair_lt(b, c),
    ensures
        pair_lt(a, c),
{
    if crate::text::text_lt(a.0, b.0) && crate::text::text_lt(b.0, c.0) {
        crate::text::lemma_text_lt_transitive(a.0, b.0, c.0);
    } else if crate::text::text_lt(a.0, b.0) {
    } else if crate::text::text_lt(b.0, c.0) {
    } else {
        crate::text::lemma_text_lt_transitive(a.1, b.1, c.1);
    }
}

proof fn lemma_pair_lt_total(a: (Seq<char>, Seq<char>), b: (Seq<char>, Seq<char>))
    ensures
        a != b ==> pair_lt(a, b) || pair_lt(b, a),
        !(pair_lt(a, b) && pair_lt(b, a)),
        !pair_lt(a, a),
{
    crate::text::lemma_text_lt_asymmetric(a.0, b.0);
    crate::text::lemma_text_lt_asymmetric(a.1, b.1);
    crate::text::lemma_text_lt_asymmetric(a.0, a.0);
    crate::text::lemma_text_lt_asymmetric(a.1, a.1);
    if a != b {
        if a.0 != b.0 {
            crate::text::lemma_text_lt_total(a.0, b.0);
        } else {
            assert(a.1 != b.1);
            crate::text::lemma_text_lt_total(a.1, b.1);
        }
    }
}

fn pair_less(a: &BackupInfo, b: &BackupInfo) -> (r: bool)
    ensures
        r == pair_lt(listing_key(*a), listing_key(*b)),
{
    if crate::text::str_lt(a.created_at.as_str(), b.created_at.as_str()) {
        true
    } else if crate::text::str_eq(a.created_at.as_str(), b.created_at.as_str()) {
        crate::text::str_lt(a.file_name.as_str(), b.file_name.as_str())
    } else {
        false
    }
}

/// The positions of the backups in the order they are listed: newest
/// first by the time they were made, then by name (last first), backups
/// with the same time and name in the order given.
#[verifier::spinoff_prover]
pub fn listing_order(items: &[BackupInfo]) -> (r: Vec<usize>)
    ensures
        r@.len() == items@.len(),
        forall|p: int| 0 <= p < r@.len() ==> (#[trigger] r@[p]) < items@.len(),
        forall|p: int, q: int| 0 <= p < q < r@.len() ==> listed_before(items@, #[trigger] r@[p] as int, #[trigger] r@[q] as int),
        forall|p: int, q: int| 0 <= p < q < r@.len() ==> #[trigger] r@[p] != #[trigger] r@[q],
{
    let ghost it = items@;
    let mut r: Vec<usize> = Vec::new();
    let mut k: usize = 0;
    while k < items.len()
        invariant
            k <= items.len(),
            it == items@,
            r@.len() == k,
            forall|p: int| 0 <= p < r@.len() ==> (#[trigger] r@[p]) < k,
            forall|p: int, q: int| 0 <= p < q < r@.len() ==> listed_before(it, #[trigger] r@[p] as int, #[trigger] r@[q] as int),
        decreases items.len() - k,
    {
        let mut pos: usize = 0;
        while pos < r.len() && !pair_less(&items[r[pos]], &items[k])
            invariant
                pos <= r@.len(),
                k < items.len(),
                it == items@,
                r@.len() == k,
                forall|p: int| 0 <= p < r@.len() ==> (#[trigger] r@[p]) < k,
                forall|p: int| 0 <= p < pos ==> !pair_lt(listing_key(it[#[trigger] r@[p] as int]), listing_key(it[k as int])),
            decreases r@.len() - pos,
        {
            pos += 1;
        }
        let ghost old_r = r@;
        proof {
            assert forall|p: int| 0 <= p < pos implies listed_before(it, #[trigger] old_r[p] as int, k as int) by {
                lemma_pair_lt_total(listing_key(it[old_r[p] as int]), listing_key(it[k as int]));
            }
            if pos < old_r.len() {
                assert forall|q: int| pos <= q < old_r.len() implies listed_before(it, k as int, #[trigger] old_r[q] as int) by {
                    let a = listing_key(it[old_r[q] as int]);
                    let b = listing_key(it[old_r[pos as int] as int]);
                    let c = listing_key(it[k as int]);
                    assert(pair_lt(b, c));
                    if q > pos {
                        assert(listed_before(it, old_r[pos as int] as int, old_r[q] as int));
                        if a == b {
                        } else {
                            lemma_pair_lt_transitive(a, b, c);
                        }
                    }
                }
            }
        }
        r.insert(pos, k);
        proof {
            assert(r@ =~= old_r.take(pos as int).push(k) + old_r.skip(pos as int));
            assert forall|p: int| 0 <= p < r@.len() implies (#[trigger] r@[p]) < k + 1 by {
                if p < pos {
                    assert(r@[p] == old_r[p]);
                } else if p > pos {
                    assert(r@[p] == old_r[p - 1]);
                }
            }
            assert forall|p: int, q: int| 0 <= p < q < r@.len() implies listed_before(it, #[trigger] r@[p] as int, #[trigger] r@[q] as int) by {
                if p < pos && q < pos {
                    assert(r@[p] == old_r[p] && r@[q] == old_r[q]);
                } else if p < pos && q == pos {
                    assert(r@[p] == old_r[p]);
                } else if p < pos && q > pos {
                    assert(r@[p] == old_r[p] && r@[q] == old_r[q - 1]);
                } else if p == pos {
                    assert(r@[q] == old_r[q - 1]);
                } else {
                    assert(r@[p] == old_r[p - 1] && r@[q] == old_r[q - 1]);
                }
            }
        }
        k += 1;
    }
    assert forall|p: int, q: int| 0 <= p < q < r@.len() implies #[trigger] r@[p] != #[trigger] r@[q] by {
        assert(listed_before(it, r@[p] as int, r@[q] as int));
        lemma_pair_lt_total(listing_key(it[r@[p] as int]), listing_key(it[r@[q] as int]));
    }
    r
}


/// An automatic backup is due when there is none yet, or when the newest
/// one is at least the configured number of hours old (in seconds); so a
/// due backup stays due as it ages, a shorter interval is due no later
/// than a longer one, and two intervals disagree on some age.
pub proof fn law_auto_backup_due(age: i64, older: i64, hours: u64, fewer_hours: u64)
    ensures
        auto_due_spec(None, hours),
        auto_due_spec(Some(age), hours) <==> age >= hours * 3600,
        age <= older && auto_due_spec(Some(age), hours) ==> auto_due_spec(Some(older), hours),
        fewer_hours <= hours && auto_due_spec(Some(age), hours) ==> auto_due_spec(Some(age), fewer_hours),
        fewer_hours < hours && fewer_hours * 3600 <= i64::MAX ==> (auto_due_spec(
            Some((fewer_hours * 3600) as i64),
            fewer_hours,
        ) && !auto_due_spec(Some((fewer_hours * 3600) as i64), hours)),
{
}


/// Without stored settings, backups run every 24 hours, keep 10 and
/// retain 3 days; the interval is never below an hour, the retention never
/// negative, and a stored number of hours of at least one is used as is.
pub proof fn law_policy_defaults(
    enabled: Option<Seq<char>>,
    interval: Option<Seq<char>>,
    keep: Option<Seq<char>>,
    retention: Option<Seq<char>>,
)
    ensures
        policy_spec(None, None, None, None) == (true, 24u64, 10u64, 3i64),
        policy_spec(enabled, interval, keep, retention).1 >= 1,
        policy_spec(enabled, interval, keep, retention).3 >= 0,
        (interval matches Some(v) && parse_u64_spec(v) matches Some(n) && n >= 1) ==> policy_spec(
            enabled,
            interval,
            keep,
            retention,
        ).1 == parse_u64_spec(interval->Some_0)->Some_0,
        (keep matches Some(v) && parse_u64_spec(v) is Some) ==> policy_spec(enabled, interval, keep, retention).2
            == parse_u64_spec(keep->Some_0)->Some_0,
{
}

/// A cleanup removes every backup older than the retention (when one is
/// set), whatever its place.
pub proof fn law_cleanup_removes_expired(policy: BackupPolicy, index: nat, age: u64)
    requires
        policy.retention_days > 0,
        age > policy.retention_days * 86400,
    ensures
        removes_spec(policy, index, Some(age)),
{
}

} // verus!
