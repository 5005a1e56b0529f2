//! The read-only environment report: what the runtime found on disk is
//! turned into rows with a status, and the rows into an overall verdict.
use crate::settings::{lookup, lookup_value, pairs_view, stored_or_empty};
use crate::text::{chars_of, decimal, format_u64, owned, push_str, string_of, trim, trim_chars, signed_decimal, format_i64};
use crate::tools::{ToolFacts, ToolKind, ToolResolution, all_tools, resolve_tool, opt_text, texts_view, tool_choice, tool_warnings};
use vstd::prelude::*;

verus! {

/// How a diagnostic row fares; `Ok < Warning < Error`.
#[derive(Debug, Clone, Copy, PartialEq, Eq, Structural)]
pub enum DiagnosticStatus {
    Okay,
    Warning,
    Error,
}

impl DiagnosticStatus {
    pub open spec fn rank(self) -> nat {
        match self {
            DiagnosticStatus::Okay => 0,
            DiagnosticStatus::Warning => 1,
            DiagnosticStatus::Error => 2,
        }
    }

    pub open spec fn label_spec(self) -> Seq<char> {
        match self {
            DiagnosticStatus::Okay => "OK"@,
            DiagnosticStatus::Warning => "Warning"@,
            DiagnosticStatus::Error => "Error"@,
        }
    }

    pub fn label(self) -> (r: &'static str)
        ensures
            r@ == self.label_spec(),
    {
        match self {
            DiagnosticStatus::Okay => "OK",
            DiagnosticStatus::Warning => "Warning",
            DiagnosticStatus::Error => "Error",
        }
    }
}

/// The worse of two statuses.
pub open spec fn worse(a: DiagnosticStatus, b: DiagnosticStatus) -> DiagnosticStatus {
    if a.rank() >= b.rank() {
        a
    } else {
        b
    }
}

pub fn worse_of(a: DiagnosticStatus, b: DiagnosticStatus) -> (r: DiagnosticStatus)
    ensures
        r == worse(a, b),
{
    let ra: u8 = match a {
        DiagnosticStatus::Okay => 0,
        DiagnosticStatus::Warning => 1,
        DiagnosticStatus::Error => 2,
    };
    let rb: u8 = match b {
        DiagnosticStatus::Okay => 0,
        DiagnosticStatus::Warning => 1,
        DiagnosticStatus::Error => 2,
    };
    if ra >= rb {
        a
    } else {
        b
    }
}

/// One row of the report.
#[derive(Debug, Clone)]
pub struct DiagnosticItem {
    pub name: String,
    pub status: DiagnosticStatus,
    pub detail: String,
}

/// A row as its texts.
pub open spec fn row(i: DiagnosticItem) -> (Seq<char>, DiagnosticStatus, Seq<char>) {
    (i.name@, i.status, i.detail@)
}

pub open spec fn rows(v: Seq<DiagnosticItem>) -> Seq<(Seq<char>, DiagnosticStatus, Seq<char>)> {
    v.map_values(|i: DiagnosticItem| row(i))
}

/// The report: an overall status, whether the environment is ready, and
/// the rows (the first one stating the verdict).
#[derive(Debug, Clone)]
pub struct DiagnosticsSnapshot {
    pub status: DiagnosticStatus,
    pub runtime_ready: bool,
    pub items: Vec<DiagnosticItem>,
}

/// What the runtime found for a path.
#[derive(Debug, Clone)]
pub struct PathFact {
    /// The path as it is shown.
    pub display: String,
    pub exists: bool,
    pub is_dir: bool,
    pub is_file: bool,
}

/// Whether the secret store client could be looked for, and what was found.
#[derive(Debug, Clone)]
pub enum SecretStoreCheck {
    /// The platform's own secret store is used; nothing to look for.
    Native,
    /// The Secret Service client was found at this path.
    ClientFound(String),
    /// The Secret Service client is missing.
    ClientMissing,
}

pub fn item(name: &str, status: DiagnosticStatus, detail: &str) -> (r: DiagnosticItem)
    ensures
        row(r) == (name@, status, detail@),
{
    DiagnosticItem { name: owned(name), status, detail: owned(detail) }
}

/// ` — `, between a path and what was found there.
pub open spec fn dash() -> Seq<char> {
    " — "@
}

pub open spec fn directory_row(name: Seq<char>, f: PathFact, required: bool) -> (Seq<char>, DiagnosticStatus, Seq<char>) {
    directory_row_at(name, f.display@, f, required)
}

/// A directory row for the path shown as `display`.
pub open spec fn directory_row_at(name: Seq<char>, display: Seq<char>, f: PathFact, required: bool) -> (
    Seq<char>,
    DiagnosticStatus,
    Seq<char>,
) {
    (
        name,
        if f.is_dir {
            DiagnosticStatus::Okay
        } else if required || f.exists {
            DiagnosticStatus::Error
        } else {
            DiagnosticStatus::Warning
        },
        display + dash() + if f.is_dir {
            "exists"@
        } else {
            "missing or not a directory"@
        },
    )
}

/// A directory row: `Ok` when it is a directory; else `Error` when it is
/// required or something else is there, `Warning` otherwise.
pub fn directory(name: &str, f: &PathFact, required: bool) -> (r: DiagnosticItem)
    ensures
        row(r) == directory_row(name@, *f, required),
{
    directory_at(name, f.display.as_str(), f, required)
}

fn directory_at(name: &str, display: &str, f: &PathFact, required: bool) -> (r: DiagnosticItem)
    ensures
        row(r) == directory_row_at(name@, display@, *f, required),
{
    let status = if f.is_dir {
        DiagnosticStatus::Okay
    } else if required || f.exists {
        DiagnosticStatus::Error
    } else {
        DiagnosticStatus::Warning
    };
    let mut d: Vec<char> = Vec::new();
    push_str(&mut d, display);
    push_str(&mut d, " — ");
    push_str(&mut d, if f.is_dir { "exists" } else { "missing or not a directory" });
    assert(d@ =~= directory_row_at(name@, display@, *f, required).2);
    DiagnosticItem { name: owned(name), status, detail: string_of(d.as_slice()) }
}

pub open spec fn optional_directory_row(name: Seq<char>, f: PathFact, missing: Seq<char>) -> (Seq<char>, DiagnosticStatus, Seq<char>) {
    (name, DiagnosticStatus::Okay, f.display@ + dash() + if f.is_dir {
        "exists"@
    } else {
        missing
    })
}

/// A directory that may be missing: always `Ok`, the detail saying what
/// was found.
pub fn optional_directory(name: &str, f: &PathFact, missing_detail: &str) -> (r: DiagnosticItem)
    ensures
        row(r) == optional_directory_row(name@, *f, missing_detail@),
{
    let mut d: Vec<char> = Vec::new();
    push_str(&mut d, f.display.as_str());
    push_str(&mut d, " — ");
    push_str(&mut d, if f.is_dir { "exists" } else { missing_detail });
    assert(d@ =~= optional_directory_row(name@, *f, missing_detail@).2);
    DiagnosticItem { name: owned(name), status: DiagnosticStatus::Okay, detail: string_of(d.as_slice()) }
}

pub open spec fn database_row(f: PathFact) -> (Seq<char>, DiagnosticStatus, Seq<char>) {
    (
        "Database path / existence"@,
        if f.is_file {
            DiagnosticStatus::Okay
        } else {
            DiagnosticStatus::Error
        },
        f.display@ + dash() + if f.is_file {
            "exists"@
        } else {
            "missing or not a file"@
        },
    )
}

/// The database row: `Ok` when the database file exists, else `Error`.
pub fn database_item(f: &PathFact) -> (r: DiagnosticItem)
    ensures
        row(r) == database_row(*f),
{
    let mut d: Vec<char> = Vec::new();
    push_str(&mut d, f.display.as_str());
    push_str(&mut d, " — ");
    push_str(&mut d, if f.is_file { "exists" } else { "missing or not a file" });
    assert(d@ =~= database_row(*f).2);
    DiagnosticItem {
        name: owned("Database path / existence"),
        status: if f.is_file {
            DiagnosticStatus::Okay
        } else {
            DiagnosticStatus::Error
        },
        detail: string_of(d.as_slice()),
    }
}

/// Texts joined by a separator.
pub open spec fn join(parts: Seq<Seq<char>>, sep: Seq<char>) -> Seq<char>
    decreases parts.len(),
{
    if parts.len() == 0 {
        Seq::empty()
    } else if parts.len() == 1 {
        parts[0]
    } else {
        join(parts.drop_last(), sep) + sep + parts.last()
    }
}

fn join_texts(parts: &Vec<String>, sep: &str) -> (r: String)
    ensures
        r@ == join(texts_view(parts@), sep@),
{
    let ghost ps = texts_view(parts@);
    let mut out: Vec<char> = Vec::new();
    let mut i: usize = 0;
    while i < parts.len()
        invariant
            i <= parts.len(),
            ps == texts_view(parts@),
            out@ == join(ps.take(i as int), sep@),
        decreases parts.len() - i,
    {
        let ghost before = out@;
        if i > 0 {
            push_str(&mut out, sep);
        }
        push_str(&mut out, parts[i].as_str());
        assert(ps.take(i + 1).drop_last() =~= ps.take(i as int));
        assert(ps.take(i + 1).last() == parts@[i as int]@);
        if i == 0 {
            assert(before =~= Seq::<char>::empty());
            assert(out@ =~= ps.take(1)[0]);
        }
        i += 1;
    }
    assert(ps.take(parts.len() as int) =~= ps);
    string_of(out.as_slice())
}

pub open spec fn tool_row(kind: ToolKind, path: Option<Seq<char>>, source: Seq<char>, warnings: Seq<Seq<char>>) -> (
    Seq<char>,
    DiagnosticStatus,
    Seq<char>,
) {
    (
        kind.label_spec() + " executable availability"@,
        if path.is_some() && warnings.len() == 0 {
            DiagnosticStatus::Okay
        } else {
            DiagnosticStatus::Warning
        },
        (match path {
            Some(p) => p,
            None => "not found"@,
        }) + " ["@ + source + "]; filesystem discovery only, not an execution test. "@ + join(warnings, "; "@),
    )
}

/// The row of a resolved tool: `Ok` only when it was found without
/// warnings.
pub fn tool_item(resolved: &ToolResolution) -> (r: DiagnosticItem)
    ensures
        row(r) == tool_row(resolved.kind, opt_text(resolved.path), resolved.source@, texts_view(resolved.warnings@)),
{
    let status = if resolved.found() && resolved.warnings.len() == 0 {
        DiagnosticStatus::Okay
    } else {
        DiagnosticStatus::Warning
    };
    let mut name: Vec<char> = Vec::new();
    push_str(&mut name, resolved.kind.label());
    push_str(&mut name, " executable availability");
    let mut d: Vec<char> = Vec::new();
    match &resolved.path {
        Some(p) => push_str(&mut d, p.as_str()),
        None => push_str(&mut d, "not found"),
    }
    push_str(&mut d, " [");
    push_str(&mut d, resolved.source.as_str());
    push_str(&mut d, "]; filesystem discovery only, not an execution test. ");
    let w = join_texts(&resolved.warnings, "; ");
    push_str(&mut d, w.as_str());
    let ghost t = tool_row(resolved.kind, opt_text(resolved.path), resolved.source@, texts_view(resolved.warnings@));
    assert(name@ =~= t.0);
    assert(d@ =~= t.2);
    DiagnosticItem { name: string_of(name.as_slice()), status, detail: string_of(d.as_slice()) }
}

/// The worst status among the rows; `Error` when there are none.
pub open spec fn worst(rs: Seq<(Seq<char>, DiagnosticStatus, Seq<char>)>) -> DiagnosticStatus
    decreases rs.len(),
{
    if rs.len() == 0 {
        DiagnosticStatus::Error
    } else if rs.len() == 1 {
        rs[0].1
    } else {
        worse(worst(rs.drop_last()), rs.last().1)
    }
}

pub open spec fn readiness_detail() -> Seq<char> {
    "Environment checks only; authentication, network and media execution are not probed"@
}

/// The report of the rows: the worst status, ready only when it is `Ok`,
/// and a first row stating it.
pub open spec fn report_of(s: DiagnosticsSnapshot, rs: Seq<(Seq<char>, DiagnosticStatus, Seq<char>)>) -> bool {
    &&& s.status == worst(rs)
    &&& s.runtime_ready == (s.status == DiagnosticStatus::Okay)
    &&& rows(s.items@) == seq![("Runtime readiness"@, s.status, readiness_detail())] + rs
}

impl DiagnosticsSnapshot {
    /// The report of the rows (see `report_of`).
    pub fn from_items(items: Vec<DiagnosticItem>) -> (r: Self)
        ensures
            report_of(r, rows(items@)),
    {
        let ghost rs = rows(items@);
        let mut status = DiagnosticStatus::Error;
        let mut i: usize = 0;
        while i < items.len()
            invariant
                i <= items.len(),
                rs == rows(items@),
                i > 0 ==> status == worst(rs.take(i as int)),
                i == 0 ==> status == DiagnosticStatus::Error,
            decreases items.len() - i,
        {
            assert(rs.take(i + 1).drop_last() =~= rs.take(i as int));
            assert(rs.take(i + 1).last() == row(items@[i as int]));
            if i == 0 {
                status = items[i].status;
                assert(rs.take(1).len() == 1);
            } else {
                status = worse_of(status, items[i].status);
            }
            i += 1;
        }
        assert(rs.take(items.len() as int) =~= rs);
        let ready = match status {
            DiagnosticStatus::Okay => true,
            _ => false,
        };
        let mut all = items;
        let first = item(
            "Runtime readiness",
            status,
            "Environment checks only; authentication, network and media execution are not probed",
        );
        all.insert(0, first);
        assert(rows(all@) =~= seq![("Runtime readiness"@, status, readiness_detail())] + rs);
        assert(status == worst(rs));
        assert(ready == (status == DiagnosticStatus::Okay));
        DiagnosticsSnapshot { status, runtime_ready: ready, items: all }
    }

    /// The report when the settings could not be loaded: an `Error` row
    /// with the error, then the backend and database rows when known.
    pub fn unavailable(backend: Option<&PathFact>, database: Option<&PathFact>, error: &str) -> (r: Self)
        ensures
            report_of(
                r,
                seq![("Settings load"@, DiagnosticStatus::Error, error@)] + (match backend {
                    Some(b) => seq![directory_row("Canonical backend"@, *b, true)],
                    None => Seq::empty(),
                }) + (match database {
                    Some(d) => seq![database_row(*d)],
                    None => Seq::empty(),
                }),
            ),
    {
        let mut items: Vec<DiagnosticItem> = Vec::new();
        items.push(item("Settings load", DiagnosticStatus::Error, error));
        match backend {
            Some(b) => items.push(directory("Canonical backend", b, true)),
            None => {},
        }
        match database {
            Some(d) => items.push(database_item(d)),
            None => {},
        }
        assert(rows(items@) =~= seq![("Settings load"@, DiagnosticStatus::Error, error@)] + (match backend {
            Some(b) => seq![directory_row("Canonical backend"@, *b, true)],
            None => Seq::empty(),
        }) + (match database {
            Some(d) => seq![database_row(*d)],
            None => Seq::empty(),
        }));
        DiagnosticsSnapshot::from_items(items)
    }

    /// The report when the runtime failed to start: as `unavailable`, with
    /// the backend's default database.
    pub fn startup_failure(backend: Option<&PathFact>, default_database: Option<&PathFact>, error: &str) -> (r: Self)
        ensures
            report_of(
                r,
                seq![("Settings load"@, DiagnosticStatus::Error, error@)] + (match backend {
                    Some(b) => seq![directory_row("Canonical backend"@, *b, true)],
                    None => Seq::empty(),
                }) + (match default_database {
                    Some(d) => seq![database_row(*d)],
                    None => Seq::empty(),
                }),
            ),
    {
        DiagnosticsSnapshot::unavailable(backend, default_database, error)
    }
}

// ---------------------------------------------------------------------------
// The full report
// ---------------------------------------------------------------------------

/// The settings a tool is configured by, with their stored values.
pub open spec fn configured_of(values: Seq<(Seq<char>, Seq<char>)>, kind: ToolKind) -> Seq<(Seq<char>, Seq<char>)> {
    kind.setting_keys_spec().map_values(|k: Seq<char>| (k, stored_or_empty(values, k)))
}

/// The row of a tool setting: its value, or that it is unset.
pub open spec fn setting_row(p: (Seq<char>, Seq<char>)) -> (Seq<char>, DiagnosticStatus, Seq<char>) {
    (p.0, DiagnosticStatus::Okay, if p.1.len() == 0 {
        "(automatic / unset)"@
    } else {
        p.1
    })
}

/// The rows of one tool: each setting with its value, then where the tool
/// was found.
pub open spec fn tool_rows(values: Seq<(Seq<char>, Seq<char>)>, kind: ToolKind, facts: ToolFacts) -> Seq<
    (Seq<char>, DiagnosticStatus, Seq<char>),
> {
    let configured = configured_of(values, kind);
    configured.map_values(|p: (Seq<char>, Seq<char>)| setting_row(p)) + seq![
        tool_row(
            kind,
            tool_choice(configured, facts).0,
            tool_choice(configured, facts).1,
            tool_warnings(configured, facts),
        ),
    ]
}

pub open spec fn secret_store_row(c: SecretStoreCheck) -> (Seq<char>, DiagnosticStatus, Seq<char>) {
    match c {
        SecretStoreCheck::Native => (
            "Secret-store resource"@,
            DiagnosticStatus::Okay,
            "Native OS secret-store integration; credentials are not probed"@,
        ),
        SecretStoreCheck::ClientFound(p) => (
            "Secret-store resource"@,
            DiagnosticStatus::Okay,
            "Secret Service client: "@ + p@ + " (session not probed)"@,
        ),
        SecretStoreCheck::ClientMissing => (
            "Secret-store resource"@,
            DiagnosticStatus::Warning,
            "secret-tool is missing; persisted secrets require Secret Service"@,
        ),
    }
}

/// The rows of the environment report, in order.
pub open spec fn collect_rows(
    backend: PathFact,
    database: PathFact,
    data_dir: Option<PathFact>,
    bundled_vod: PathFact,
    output_dir: PathFact,
    values: Seq<(Seq<char>, Seq<char>)>,
    tools: Seq<ToolFacts>,
    secret_store: SecretStoreCheck,
) -> Seq<(Seq<char>, DiagnosticStatus, Seq<char>)> {
    let out = lookup(values, "OUTPUT_DIR"@);
    seq![
        directory_row("Canonical backend"@, backend, true),
        database_row(database),
        (
            "Settings load"@,
            DiagnosticStatus::Okay,
            "Loaded from canonical SQLite settings/cache; no separate INI/TXT configuration file"@,
        ),
    ] + (match data_dir {
        Some(d) => seq![directory_row("Data directory"@, d, true)],
        None => Seq::empty(),
    }) + seq![
        optional_directory_row(
            "Bundled VOD tools directory (optional)"@,
            bundled_vod,
            "Not present; configured paths, PATH, and common install locations are still searched"@,
        ),
        if out is Some && trim(out.unwrap()).len() > 0 {
            directory_row_at("Configured LIVE output directory"@, out.unwrap(), output_dir, false)
        } else {
            (
                "LIVE output directory"@,
                DiagnosticStatus::Okay,
                "Runtime default; created by the existing recorder when needed"@,
            )
        },
    ] + tool_rows(values, ToolKind::Streamlink, tools[0]) + tool_rows(values, ToolKind::YtDlp, tools[1])
        + tool_rows(values, ToolKind::Ffmpeg, tools[2]) + seq![
        secret_store_row(secret_store),
        (
            "Runtime resources"@,
            DiagnosticStatus::Okay,
            "Native Rust providers are compiled in; no legacy recorder scripts are required"@,
        ),
    ]
}

fn push_tool_rows(items: &mut Vec<DiagnosticItem>, values: &[(String, String)], kind: ToolKind, facts: &ToolFacts)
    requires
        facts.configured_executable@.len() == kind.setting_keys_spec().len(),
    ensures
        rows(final(items)@) == rows(old(items)@) + tool_rows(pairs_view(values@), kind, *facts),
{
    let keys = kind.setting_keys();
    let ghost u = pairs_view(values@);
    let ghost configured_spec = configured_of(u, kind);
    let mut configured: Vec<(String, String)> = Vec::new();
    let ghost start = rows(items@);
    let mut i: usize = 0;
    while i < keys.len()
        invariant
            i <= keys.len(),
            u == pairs_view(values@),
            crate::settings::views(keys@) == kind.setting_keys_spec(),
            configured_spec == configured_of(u, kind),
            configured_spec.len() == keys.len(),
            pairs_view(configured@) == configured_spec.take(i as int),
            rows(items@) == start + configured_spec.take(i as int).map_values(
                |p: (Seq<char>, Seq<char>)| setting_row(p),
            ),
        decreases keys.len() - i,
    {
        let key = keys[i];
        let value = match lookup_value(values, key) {
            Some(v) => v,
            None => String::new(),
        };
        assert(crate::settings::views(keys@)[i as int] == key@);
        assert(configured_spec[i as int] == (key@, value@));
        let shown = if value.as_str().is_empty() {
            item(key, DiagnosticStatus::Okay, "(automatic / unset)")
        } else {
            item(key, DiagnosticStatus::Okay, value.as_str())
        };
        assert(row(shown) == setting_row(configured_spec[i as int]));
        let ghost rows_before = rows(items@);
        items.push(shown);
        assert(rows(items@) =~= rows_before.push(row(shown)));
        configured.push((owned(key), value));
        assert(configured_spec.take(i + 1) =~= configured_spec.take(i as int).push(configured_spec[i as int]));
        assert(pairs_view(configured@) =~= configured_spec.take(i + 1));
        assert(configured_spec.take(i + 1).map_values(|p: (Seq<char>, Seq<char>)| setting_row(p))
            =~= configured_spec.take(i as int).map_values(|p: (Seq<char>, Seq<char>)| setting_row(p)).push(
            setting_row(configured_spec[i as int]),
        ));
        assert(rows(items@) =~= start + configured_spec.take(i + 1).map_values(
            |p: (Seq<char>, Seq<char>)| setting_row(p),
        ));
        i += 1;
    }
    assert(configured_spec.take(keys.len() as int) =~= configured_spec);
    let resolved = resolve_tool(kind, configured.as_slice(), facts);
    let ghost before = rows(items@);
    items.push(tool_item(&resolved));
    assert(rows(items@) =~= before.push(row(items@.last())));
}

/// The environment report from what the runtime found: the backend, the
/// database and its folder, the bundled tools folder, the configured
/// output folder (shown as its stored value), each tool and the secret
/// store; ready only when every row is `OK`.
#[verifier::spinoff_prover]
#[verifier::rlimit(60)]
pub fn collect(
    backend: &PathFact,
    database: &PathFact,
    data_dir: Option<&PathFact>,
    bundled_vod: &PathFact,
    output_dir: &PathFact,
    values: &[(String, String)],
    tools: &[ToolFacts],
    secret_store: &SecretStoreCheck,
) -> (r: DiagnosticsSnapshot)
    requires
        tools.len() == 3,
        tools@[0].configured_executable@.len() == 2,
        tools@[1].configured_executable@.len() == 1,
        tools@[2].configured_executable@.len() == 1,
    ensures
        report_of(
            r,
            collect_rows(
                *backend,
                *database,
                match data_dir {
                    Some(d) => Some(*d),
                    None => None,
                },
                *bundled_vod,
                *output_dir,
                pairs_view(values@),
                tools@,
                *secret_store,
            ),
        ),
{
    let mut items: Vec<DiagnosticItem> = Vec::new();
    items.push(directory("Canonical backend", backend, true));
    items.push(database_item(database));
    items.push(
        item(
            "Settings load",
            DiagnosticStatus::Okay,
            "Loaded from canonical SQLite settings/cache; no separate INI/TXT configuration file",
        ),
    );
    match data_dir {
        Some(d) => items.push(directory("Data directory", d, true)),
        None => {},
    }
    items.push(
        optional_directory(
            "Bundled VOD tools directory (optional)",
            bundled_vod,
            "Not present; configured paths, PATH, and common install locations are still searched",
        ),
    );
    let configured_out = match lookup_value(values, "OUTPUT_DIR") {
        Some(v) => {
            let cv = chars_of(v.as_str());
            if trim_chars(cv.as_slice()).len() > 0 {
                Some(v)
            } else {
                None
            }
        },
        None => None,
    };
    match configured_out {
        Some(v) => items.push(directory_at("Configured LIVE output directory", v.as_str(), output_dir, false)),
        None => items.push(
            item(
                "LIVE output directory",
                DiagnosticStatus::Okay,
                "Runtime default; created by the existing recorder when needed",
            ),
        ),
    }
    let ghost head = rows(items@);
    let ghost out = lookup(pairs_view(values@), "OUTPUT_DIR"@);
    assert(head =~= seq![
        directory_row("Canonical backend"@, *backend, true),
        database_row(*database),
        (
            "Settings load"@,
            DiagnosticStatus::Okay,
            "Loaded from canonical SQLite settings/cache; no separate INI/TXT configuration file"@,
        ),
    ] + (match data_dir {
        Some(d) => seq![directory_row("Data directory"@, *d, true)],
        None => Seq::empty(),
    }) + seq![
        optional_directory_row(
            "Bundled VOD tools directory (optional)"@,
            *bundled_vod,
            "Not present; configured paths, PATH, and common install locations are still searched"@,
        ),
        if out is Some && trim(out.unwrap()).len() > 0 {
            directory_row_at("Configured LIVE output directory"@, out.unwrap(), *output_dir, false)
        } else {
            (
                "LIVE output directory"@,
                DiagnosticStatus::Okay,
                "Runtime default; created by the existing recorder when needed"@,
            )
        },
    ]);
    push_tool_rows(&mut items, values, ToolKind::Streamlink, &tools[0]);
    push_tool_rows(&mut items, values, ToolKind::YtDlp, &tools[1]);
    push_tool_rows(&mut items, values, ToolKind::Ffmpeg, &tools[2]);
    let ghost with_tools = rows(items@);
    let secret = match secret_store {
        SecretStoreCheck::Native => item(
            "Secret-store resource",
            DiagnosticStatus::Okay,
            "Native OS secret-store integration; credentials are not probed",
        ),
        SecretStoreCheck::ClientFound(p) => {
            let mut d: Vec<char> = Vec::new();
            push_str(&mut d, "Secret Service client: ");
            push_str(&mut d, p.as_str());
            push_str(&mut d, " (session not probed)");
            let text = string_of(d.as_slice());
            assert(text@ =~= "Secret Service client: "@ + p@ + " (session not probed)"@);
            item("Secret-store resource", DiagnosticStatus::Okay, text.as_str())
        },
        SecretStoreCheck::ClientMissing => item(
            "Secret-store resource",
            DiagnosticStatus::Warning,
            "secret-tool is missing; persisted secrets require Secret Service",
        ),
    };
    let last = item(
        "Runtime resources",
        DiagnosticStatus::Okay,
        "Native Rust providers are compiled in; no legacy recorder scripts are required",
    );
    assert(row(secret) == secret_store_row(*secret_store));
    items.push(secret);
    items.push(last);
    assert(rows(items@) =~= with_tools + seq![row(secret), row(last)]);
    assert(rows(items@) =~= collect_rows(
        *backend,
        *database,
        match data_dir {
            Some(d) => Some(*d),
            None => None,
        },
        *bundled_vod,
        *output_dir,
        pairs_view(values@),
        tools@,
        *secret_store,
    ));
    DiagnosticsSnapshot::from_items(items)
}

/// `enabled=… interval=…h keep=… retention=…d`.
pub open spec fn policy_text(p: crate::backup::BackupPolicy) -> Seq<char> {
    "enabled="@ + (if p.enabled {
        "true"@
    } else {
        "false"@
    }) + " interval="@ + decimal(p.interval_hours as nat) + "h keep="@ + decimal(p.keep_count as nat)
        + " retention="@ + signed_decimal(p.retention_days as int) + "d"@
}

/// The environment report with the backup rows added: the backup folder
/// (a `Warning` when missing) and the policy; the verdict takes the folder
/// into account.
#[verifier::spinoff_prover]
#[verifier::rlimit(60)]
pub fn collect_with_backup(
    backend: &PathFact,
    database: &PathFact,
    data_dir: Option<&PathFact>,
    bundled_vod: &PathFact,
    output_dir: &PathFact,
    values: &[(String, String)],
    tools: &[ToolFacts],
    secret_store: &SecretStoreCheck,
    backup_dir: &PathFact,
    policy: &crate::backup::BackupPolicy,
) -> (r: DiagnosticsSnapshot)
    requires
        tools.len() == 3,
        tools@[0].configured_executable@.len() == 2,
        tools@[1].configured_executable@.len() == 1,
        tools@[2].configured_executable@.len() == 1,
    ensures
        ({
            let base = collect_rows(
                *backend,
                *database,
                match data_dir {
                    Some(d) => Some(*d),
                    None => None,
                },
                *bundled_vod,
                *output_dir,
                pairs_view(values@),
                tools@,
                *secret_store,
            );
            let backup_row = directory_row("Backup directory"@, *backup_dir, false);
            &&& r.status == worse(worst(base), backup_row.1)
            &&& r.runtime_ready == (r.status == DiagnosticStatus::Okay)
            &&& rows(r.items@) == seq![("Runtime readiness"@, r.status, readiness_detail())] + base + seq![
                backup_row,
                ("Backup policy"@, DiagnosticStatus::Okay, policy_text(*policy)),
            ]
        }),
{
    let snapshot = collect(backend, database, data_dir, bundled_vod, output_dir, values, tools, secret_store);
    let backup_item = directory("Backup directory", backup_dir, false);
    let backup_status = backup_item.status;
    let mut text: Vec<char> = Vec::new();
    push_str(&mut text, "enabled=");
    push_str(&mut text, if policy.enabled { "true" } else { "false" });
    push_str(&mut text, " interval=");
    push_str(&mut text, format_u64(policy.interval_hours).as_str());
    push_str(&mut text, "h keep=");
    push_str(&mut text, format_u64(policy.keep_count as u64).as_str());
    push_str(&mut text, " retention=");
    push_str(&mut text, format_i64(policy.retention_days).as_str());
    push_str(&mut text, "d");
    assert(text@ =~= policy_text(*policy));
    let policy_text_s = string_of(text.as_slice());
    let DiagnosticsSnapshot { status, runtime_ready: _, items } = snapshot;
    let mut items = items;
    let ghost before = rows(items@);
    let pitem = item("Backup policy", DiagnosticStatus::Okay, policy_text_s.as_str());
    items.push(backup_item);
    items.push(pitem);
    let status = worse_of(status, backup_status);
    let ready = match status {
        DiagnosticStatus::Okay => true,
        _ => false,
    };
    let first = item(
        "Runtime readiness",
        status,
        "Environment checks only; authentication, network and media execution are not probed",
    );
    let _old_first = items.remove(0);
    items.insert(0, first);
    assert(rows(items@) =~= seq![("Runtime readiness"@, status, readiness_detail())] + before.drop_first() + seq![
        directory_row("Backup directory"@, *backup_dir, false),
        ("Backup policy"@, DiagnosticStatus::Okay, policy_text(*policy)),
    ]);
    DiagnosticsSnapshot { status, runtime_ready: ready, items }
}

/// A report is ready exactly when it has rows and every row is `OK`.
pub proof fn law_ready_iff_all_rows_ok(rs: Seq<(Seq<char>, DiagnosticStatus, Seq<char>)>)
    ensures
        (worst(rs) == DiagnosticStatus::Okay) <==> (rs.len() > 0 && forall|i: int|
            0 <= i < rs.len() ==> (#[trigger] rs[i]).1 == DiagnosticStatus::Okay),
    decreases rs.len(),
{
    if rs.len() > 1 {
        law_ready_iff_all_rows_ok(rs.drop_last());
        if worst(rs) == DiagnosticStatus::Okay {
            assert forall|i: int| 0 <= i < rs.len() implies (#[trigger] rs[i]).1 == DiagnosticStatus::Okay by {
                if i < rs.len() - 1 {
                    assert(rs.drop_last()[i] == rs[i]);
                }
            }
        } else if forall|i: int| 0 <= i < rs.len() ==> (#[trigger] rs[i]).1 == DiagnosticStatus::Okay {
            assert forall|i: int| 0 <= i < rs.drop_last().len() implies (#[trigger] rs.drop_last()[i]).1
                == DiagnosticStatus::Okay by {
                assert(rs.drop_last()[i] == rs[i]);
            }
            assert(rs[rs.len() - 1].1 == DiagnosticStatus::Okay);
        }
    }
}


proof fn lemma_worst_bounds(rs: Seq<(Seq<char>, DiagnosticStatus, Seq<char>)>)
    ensures
        forall|i: int| 0 <= i < rs.len() ==> (#[trigger] rs[i]).1.rank() <= worst(rs).rank(),
        rs.len() > 0 ==> exists|i: int| 0 <= i < rs.len() && (#[trigger] rs[i]).1 == worst(rs),
    decreases rs.len(),
{
    if rs.len() > 1 {
        let init = rs.drop_last();
        lemma_worst_bounds(init);
        assert forall|i: int| 0 <= i < rs.len() implies (#[trigger] rs[i]).1.rank() <= worst(rs).rank() by {
            if i < rs.len() - 1 {
                assert(rs[i] == init[i]);
            }
        }
        if worst(rs) == rs.last().1 {
            assert(rs[rs.len() - 1].1 == worst(rs));
        } else {
            let j = choose|j: int| 0 <= j < init.len() && (#[trigger] init[j]).1 == worst(init);
            assert(rs[j] == init[j]);
        }
    } else if rs.len() == 1 {
        assert(rs[0].1 == worst(rs));
    }
}

/// A report's status is its worst row: no row is worse, some row has it
/// (when there are rows), the first row repeats it, and the environment
/// is ready exactly when it is `OK`.
pub proof fn law_report_status_is_worst_row(s: DiagnosticsSnapshot, rs: Seq<(Seq<char>, DiagnosticStatus, Seq<char>)>)
    requires
        report_of(s, rs),
    ensures
        s.items@.len() == rs.len() + 1,
        rows(s.items@)[0].1 == s.status,
        forall|i: int| 0 <= i < rs.len() ==> (#[trigger] rs[i]).1.rank() <= s.status.rank(),
        rs.len() > 0 ==> exists|i: int| 0 <= i < rs.len() && (#[trigger] rs[i]).1 == s.status,
        s.runtime_ready <==> s.status == DiagnosticStatus::Okay,
{
    lemma_worst_bounds(rs);
    assert(rows(s.items@).len() == s.items@.len());
}

/// With the backup rows added, the report's status is still its worst row,
/// and a backup directory that is not there makes it at least a `Warning`.
pub proof fn law_backup_status_is_worst_row(
    base: Seq<(Seq<char>, DiagnosticStatus, Seq<char>)>,
    backup_dir: PathFact,
    policy: Seq<char>,
)
    requires
        base.len() > 0,
    ensures
        ({
            let backup_row = directory_row("Backup directory"@, backup_dir, false);
            let all = base + seq![backup_row, ("Backup policy"@, DiagnosticStatus::Okay, policy)];
            &&& worse(worst(base), backup_row.1) == worst(all)
            &&& !backup_dir.is_dir ==> worst(all).rank() >= 1
        }),
{
    let backup_row = directory_row("Backup directory"@, backup_dir, false);
    let with_dir = base + seq![backup_row];
    let all = base + seq![backup_row, ("Backup policy"@, DiagnosticStatus::Okay, policy)];
    assert(all.drop_last() =~= with_dir);
    assert(with_dir.drop_last() =~= base);
    assert(worst(with_dir) == worse(worst(base), backup_row.1));
    assert(worst(all) == worse(worst(with_dir), DiagnosticStatus::Okay));
}

/// A missing backend folder or database file makes the environment
/// report an `Error`, whatever else it finds.
pub proof fn law_missing_backend_or_database_is_error(
    backend: PathFact,
    database: PathFact,
    data_dir: Option<PathFact>,
    bundled_vod: PathFact,
    output_dir: PathFact,
    values: Seq<(Seq<char>, Seq<char>)>,
    tools: Seq<ToolFacts>,
    secret_store: SecretStoreCheck,
)
    requires
        !backend.is_dir || !database.is_file,
    ensures
        worst(collect_rows(backend, database, data_dir, bundled_vod, output_dir, values, tools, secret_store))
            == DiagnosticStatus::Error,
{
    let rs = collect_rows(backend, database, data_dir, bundled_vod, output_dir, values, tools, secret_store);
    lemma_worst_bounds(rs);
    if !backend.is_dir {
        assert(rs[0].1 == DiagnosticStatus::Error);
    } else {
        assert(rs[1].1 == DiagnosticStatus::Error);
    }
}

} // verus!
