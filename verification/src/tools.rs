//! Where the external tools (Streamlink, yt-dlp, FFmpeg) are taken from:
//! a configured path, the bundled folder, `PATH`, or a common install
//! directory, in that order.  The runtime looks at the file system and
//! hands over what it found; the choice and its report are made here.
use crate::settings::views;
use crate::text::{chars_of, owned, push_str, str_eq_ignore_case, string_of, trim, trim_str, eq_ignore_case};
use vstd::prelude::*;

verus! {

/// An external tool.
#[derive(Debug, Clone, Copy, PartialEq, Eq, Structural)]
pub enum ToolKind {
    Streamlink,
    YtDlp,
    Ffmpeg,
}

impl ToolKind {
    pub open spec fn label_spec(self) -> Seq<char> {
        match self {
            ToolKind::Streamlink => "streamlink"@,
            ToolKind::YtDlp => "yt-dlp"@,
            ToolKind::Ffmpeg => "ffmpeg"@,
        }
    }

    pub fn label(self) -> (r: &'static str)
        ensures
            r@ == self.label_spec(),
    {
        match self {
            ToolKind::Streamlink => "streamlink",
            ToolKind::YtDlp => "yt-dlp",
            ToolKind::Ffmpeg => "ffmpeg",
        }
    }

    pub open spec fn primary_key_spec(self) -> Seq<char> {
        match self {
            ToolKind::Streamlink => "STREAMLINK_PATH"@,
            ToolKind::YtDlp => "YT_DLP_PATH"@,
            ToolKind::Ffmpeg => "FFMPEG_PATH"@,
        }
    }

    /// The setting that holds the tool's path.
    pub fn primary_setting_key(self) -> (r: &'static str)
        ensures
            r@ == self.primary_key_spec(),
    {
        match self {
            ToolKind::Streamlink => "STREAMLINK_PATH",
            ToolKind::YtDlp => "YT_DLP_PATH",
            ToolKind::Ffmpeg => "FFMPEG_PATH",
        }
    }

    pub open spec fn setting_keys_spec(self) -> Seq<Seq<char>> {
        match self {
            ToolKind::Streamlink => seq!["STREAMLINK_PATH"@, "STREAMLINK_FALLBACK"@],
            ToolKind::YtDlp => seq!["YT_DLP_PATH"@],
            ToolKind::Ffmpeg => seq!["FFMPEG_PATH"@],
        }
    }

    /// The settings that may name the tool's path, in the order tried.
    pub fn setting_keys(self) -> (r: Vec<&'static str>)
        ensures
            views(r@) == self.setting_keys_spec(),
    {
        let r = match self {
            ToolKind::Streamlink => vec!["STREAMLINK_PATH", "STREAMLINK_FALLBACK"],
            ToolKind::YtDlp => vec!["YT_DLP_PATH"],
            ToolKind::Ffmpeg => vec!["FFMPEG_PATH"],
        };
        assert(views(r@) =~= self.setting_keys_spec());
        r
    }

    pub open spec fn binary_names_spec(self, windows: bool) -> Seq<Seq<char>> {
        let (plain, exe) = match self {
            ToolKind::Streamlink => ("streamlink"@, "streamlink.exe"@),
            ToolKind::YtDlp => ("yt-dlp"@, "yt-dlp.exe"@),
            ToolKind::Ffmpeg => ("ffmpeg"@, "ffmpeg.exe"@),
        };
        if windows {
            seq![exe, plain]
        } else {
            seq![plain, exe]
        }
    }

    /// The file names the tool may have, the platform's own first.
    pub fn binary_names(self, windows: bool) -> (r: Vec<&'static str>)
        ensures
            views(r@) == self.binary_names_spec(windows),
    {
        let (plain, exe) = match self {
            ToolKind::Streamlink => ("streamlink", "streamlink.exe"),
            ToolKind::YtDlp => ("yt-dlp", "yt-dlp.exe"),
            ToolKind::Ffmpeg => ("ffmpeg", "ffmpeg.exe"),
        };
        let r = if windows {
            vec![exe, plain]
        } else {
            vec![plain, exe]
        };
        assert(views(r@) =~= self.binary_names_spec(windows));
        r
    }
}

/// The three tools, in the order they are reported.
pub fn all_tools() -> (r: Vec<ToolKind>)
    ensures
        r@ == seq![ToolKind::Streamlink, ToolKind::YtDlp, ToolKind::Ffmpeg],
{
    vec![ToolKind::Streamlink, ToolKind::YtDlp, ToolKind::Ffmpeg]
}

/// Where a tool was found, and what was wrong on the way.
#[derive(Debug, Clone)]
pub struct ToolResolution {
    pub kind: ToolKind,
    pub path: Option<String>,
    pub source: String,
    pub warnings: Vec<String>,
}

impl ToolResolution {
    pub fn found(&self) -> (r: bool)
        ensures
            r == self.path.is_some(),
    {
        self.path.is_some()
    }
}

/// What the runtime found on disk for one tool.
#[derive(Debug, Clone)]
pub struct ToolFacts {
    /// For each configured setting, in order: whether its trimmed value
    /// names an executable file.
    pub configured_executable: Vec<bool>,
    /// For each binary name, in order: its path in the bundled folder and
    /// whether that is an executable file.
    pub bundled: Vec<(String, bool)>,
    /// For each binary name, in order: where `PATH` has it, if anywhere.
    pub on_path: Vec<Option<String>>,
    /// For each common install directory and binary name, in order: the
    /// path and whether it is an executable file.
    pub common: Vec<(String, bool)>,
}

/// A configured value that asks for automatic discovery.
pub open spec fn automatic(value: Seq<char>) -> bool {
    trim(value).len() == 0 || eq_ignore_case(trim(value), "AUTO"@)
}

/// The warning for a configured path that is no executable file.
pub open spec fn bad_path_warning(key: Seq<char>, value: Seq<char>) -> Seq<char> {
    key + " points to a missing/non-executable file: "@ + trim(value)
}

/// The index of the first configured setting that names an executable
/// file, before which every other non-automatic one draws a warning.
pub open spec fn first_configured(configured: Seq<(Seq<char>, Seq<char>)>, executable: Seq<bool>, from: int) -> Option<int>
    decreases configured.len() - from,
{
    if from >= configured.len() || from < 0 {
        None
    } else if !automatic(configured[from].1) && executable[from] {
        Some(from)
    } else {
        first_configured(configured, executable, from + 1)
    }
}

/// The warnings of the configured settings before index `upto`.
pub open spec fn configured_warnings(configured: Seq<(Seq<char>, Seq<char>)>, executable: Seq<bool>, upto: int) -> Seq<Seq<char>>
    decreases upto,
{
    if upto <= 0 {
        Seq::empty()
    } else {
        let prev = configured_warnings(configured, executable, upto - 1);
        let (k, v) = configured[upto - 1];
        if !automatic(v) && !executable[upto - 1] {
            prev.push(bad_path_warning(k, v))
        } else {
            prev
        }
    }
}

/// The choice: the first configured path that is an executable file
/// (`config:KEY`), else the first bundled one (`bundled`), else the first
/// one on `PATH` (`PATH`), else the first in a common directory
/// (`common-path`), else none (`missing`).  The path and source chosen.
pub open spec fn tool_choice(configured: Seq<(Seq<char>, Seq<char>)>, facts: ToolFacts) -> (Option<Seq<char>>, Seq<char>) {
    match first_configured(configured, facts.configured_executable@, 0) {
        Some(i) => (Some(trim(configured[i].1)), "config:"@ + configured[i].0),
        None => if exists|i: int| 0 <= i < facts.bundled@.len() && (#[trigger] facts.bundled@[i]).1 {
            let i = choose|i: int|
                0 <= i < facts.bundled@.len() && (#[trigger] facts.bundled@[i]).1 && forall|j: int|
                    0 <= j < i ==> !facts.bundled@[j].1;
            (Some(facts.bundled@[i].0@), "bundled"@)
        } else if exists|i: int| 0 <= i < facts.on_path@.len() && (#[trigger] facts.on_path@[i]).is_some() {
            let i = choose|i: int|
                0 <= i < facts.on_path@.len() && (#[trigger] facts.on_path@[i]).is_some() && forall|j: int|
                    0 <= j < i ==> facts.on_path@[j].is_none();
            (Some(facts.on_path@[i].unwrap()@), "PATH"@)
        } else if exists|i: int| 0 <= i < facts.common@.len() && (#[trigger] facts.common@[i]).1 {
            let i = choose|i: int|
                0 <= i < facts.common@.len() && (#[trigger] facts.common@[i]).1 && forall|j: int|
                    0 <= j < i ==> !facts.common@[j].1;
            (Some(facts.common@[i].0@), "common-path"@)
        } else {
            (None, "missing"@)
        },
    }
}

/// The warnings the choice leaves: those of the configured settings tried
/// before it.
pub open spec fn tool_warnings(configured: Seq<(Seq<char>, Seq<char>)>, facts: ToolFacts) -> Seq<Seq<char>> {
    match first_configured(configured, facts.configured_executable@, 0) {
        Some(i) => configured_warnings(configured, facts.configured_executable@, i),
        None => configured_warnings(configured, facts.configured_executable@, configured.len() as int),
    }
}

pub open spec fn texts_view(v: Seq<String>) -> Seq<Seq<char>> {
    v.map_values(|s: String| s@)
}

proof fn lemma_first_index<T>(c: Seq<T>, p: spec_fn(T) -> bool, i: int)
    requires
        0 <= i < c.len(),
        p(c[i]),
        forall|j: int| 0 <= j < i ==> !p(c[j]),
    ensures
        forall|k: int| 0 <= k < c.len() && p(c[k]) && (forall|j: int| 0 <= j < k ==> !p(c[j])) ==> k == i,
{
}

/// Resolves a tool from the configured settings (key and raw value, in
/// order) and what the runtime found on disk (see `tool_choice`).
#[verifier::spinoff_prover]
pub fn resolve_tool(kind: ToolKind, configured: &[(String, String)], facts: &ToolFacts) -> (r: ToolResolution)
    requires
        facts.configured_executable.len() == configured.len(),
    ensures
        r.kind == kind,
        opt_text(r.path) == tool_choice(crate::settings::pairs_view(configured@), *facts).0,
        r.source@ == tool_choice(crate::settings::pairs_view(configured@), *facts).1,
        texts_view(r.warnings@) == tool_warnings(crate::settings::pairs_view(configured@), *facts),
{
    let ghost u = crate::settings::pairs_view(configured@);
    let ghost ex = facts.configured_executable@;
    let mut warnings: Vec<String> = Vec::new();
    let mut i: usize = 0;
    assert(texts_view(warnings@) =~= configured_warnings(u, ex, 0));
    while i < configured.len()
        invariant
            i <= configured.len(),
            u == crate::settings::pairs_view(configured@),
            ex == facts.configured_executable@,
            ex.len() == configured.len(),
            first_configured(u, ex, 0) == first_configured(u, ex, i as int),
            texts_view(warnings@) == configured_warnings(u, ex, i as int),
        decreases configured.len() - i,
    {
        let (key, raw) = &configured[i];
        assert(u[i as int] == (key@, raw@));
        let value = trim_str(raw.as_str());
        let auto = value.as_str().is_empty() || str_eq_ignore_case(value.as_str(), "AUTO");
        if !auto {
            if facts.configured_executable[i] {
                let mut src: Vec<char> = Vec::new();
                push_str(&mut src, "config:");
                push_str(&mut src, key.as_str());
                assert(src@ =~= "config:"@ + key@);
                return ToolResolution { kind, path: Some(value), source: string_of(src.as_slice()), warnings };
            }
            let mut w: Vec<char> = Vec::new();
            push_str(&mut w, key.as_str());
            push_str(&mut w, " points to a missing/non-executable file: ");
            push_str(&mut w, value.as_str());
            assert(w@ =~= bad_path_warning(key@, raw@));
            let ghost before = texts_view(warnings@);
            warnings.push(string_of(w.as_slice()));
            assert(texts_view(warnings@) =~= before.push(bad_path_warning(key@, raw@)));
        }
        i += 1;
    }
    assert(first_configured(u, ex, i as int) is None);
    let mut b: usize = 0;
    while b < facts.bundled.len()
        invariant
            first_configured(crate::settings::pairs_view(configured@), facts.configured_executable@, 0) is None,
            texts_view(warnings@) == configured_warnings(
                crate::settings::pairs_view(configured@),
                facts.configured_executable@,
                configured@.len() as int,
            ),
            b <= facts.bundled.len(),
            forall|j: int| 0 <= j < b ==> !(#[trigger] facts.bundled@[j]).1,
        decreases facts.bundled.len() - b,
    {
        if facts.bundled[b].1 {
            proof {
                lemma_first_index(facts.bundled@, |e: (String, bool)| e.1, b as int);
            }
            return ToolResolution {
                kind,
                path: Some(owned(facts.bundled[b].0.as_str())),
                source: owned("bundled"),
                warnings,
            };
        }
        b += 1;
    }
    let mut p: usize = 0;
    while p < facts.on_path.len()
        invariant
            first_configured(crate::settings::pairs_view(configured@), facts.configured_executable@, 0) is None,
            texts_view(warnings@) == configured_warnings(
                crate::settings::pairs_view(configured@),
                facts.configured_executable@,
                configured@.len() as int,
            ),
            forall|j: int| 0 <= j < facts.bundled@.len() ==> !(#[trigger] facts.bundled@[j]).1,
            p <= facts.on_path.len(),
            forall|j: int| 0 <= j < p ==> (#[trigger] facts.on_path@[j]).is_none(),
        decreases facts.on_path.len() - p,
    {
        match &facts.on_path[p] {
            Some(found) => {
                proof {
                    lemma_first_index(facts.on_path@, |e: Option<String>| e.is_some(), p as int);
                }
                return ToolResolution { kind, path: Some(owned(found.as_str())), source: owned("PATH"), warnings };
            },
            None => {},
        }
        p += 1;
    }
    let mut c: usize = 0;
    while c < facts.common.len()
        invariant
            first_configured(crate::settings::pairs_view(configured@), facts.configured_executable@, 0) is None,
            texts_view(warnings@) == configured_warnings(
                crate::settings::pairs_view(configured@),
                facts.configured_executable@,
                configured@.len() as int,
            ),
            forall|j: int| 0 <= j < facts.bundled@.len() ==> !(#[trigger] facts.bundled@[j]).1,
            forall|j: int| 0 <= j < facts.on_path@.len() ==> (#[trigger] facts.on_path@[j]).is_none(),
            c <= facts.common.len(),
            forall|j: int| 0 <= j < c ==> !(#[trigger] facts.common@[j]).1,
        decreases facts.common.len() - c,
    {
        if facts.common[c].1 {
            proof {
                lemma_first_index(facts.common@, |e: (String, bool)| e.1, c as int);
            }
            return ToolResolution {
                kind,
                path: Some(owned(facts.common[c].0.as_str())),
                source: owned("common-path"),
                warnings,
            };
        }
        c += 1;
    }
    ToolResolution { kind, path: None, source: owned("missing"), warnings }
}

pub open spec fn opt_text(o: Option<String>) -> Option<Seq<char>> {
    match o {
        Some(s) => Some(s@),
        None => None,
    }
}

} // verus!
