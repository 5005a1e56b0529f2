//! The environment settings a user may edit (tool paths, output folder,
//! polling, disk space, quality): what is shown, and the checks of an
//! update.  The runtime looks at the file system for path settings and
//! hands over what it found.
use crate::settings::{
    SettingError, Refusal, first_refusal, pairs_view, result_view, setting_check, validate_setting_updates,
    validate_vod_tool_updates, vod_tool_check, vod_tool_keys, lookup, lookup_value,
};
use crate::text::{
    byte_len, chars_of, eq_ignore_case, has_line_break_or_nul, lemma_byte_len_bounds, line_break_or_nul,
    owned, starts_with, str_eq, str_eq_ignore_case, str_starts_with, trim, trim_chars,
};
use vstd::prelude::*;

verus! {

/// How an environment setting is edited.
#[derive(Debug, Clone, Copy, PartialEq, Eq, Structural)]
pub enum SettingKind {
    Text,
    Executable,
    Directory,
}

/// An environment setting as it is shown.
#[derive(Debug, Clone)]
pub struct EnvironmentSetting {
    pub key: String,
    pub value: String,
    pub description: String,
    pub kind: SettingKind,
}

/// The editable environment settings: key, kind and description.
pub open spec fn fields() -> Seq<(Seq<char>, SettingKind, Seq<char>)> {
    seq![
        ("STREAMLINK_PATH"@, SettingKind::Executable, "Streamlink executable; blank or AUTO uses discovery"@),
        ("STREAMLINK_FALLBACK"@, SettingKind::Executable, "Fallback Streamlink executable; blank or AUTO uses discovery"@),
        ("YT_DLP_PATH"@, SettingKind::Executable, "yt-dlp executable; blank uses runtime discovery"@),
        ("FFMPEG_PATH"@, SettingKind::Executable, "FFmpeg executable; blank uses runtime discovery"@),
        ("OUTPUT_DIR"@, SettingKind::Directory, "Default LIVE output folder; blank keeps the runtime default"@),
        ("CHECK_INTERVAL"@, SettingKind::Text, "LIVE polling interval in seconds (1–86400)"@),
        ("MIN_FREE_SPACE_GB"@, SettingKind::Text, "Minimum free disk space in GB (0–1000000)"@),
        ("QUALITY"@, SettingKind::Text, "LIVE quality, for example best"@),
    ]
}

fn field_table() -> (t: Vec<(&'static str, SettingKind, &'static str)>)
    ensures
        t@.map_values(|f: (&str, SettingKind, &str)| (f.0@, f.1, f.2@)) == fields(),
{
    let t = vec![
        ("STREAMLINK_PATH", SettingKind::Executable, "Streamlink executable; blank or AUTO uses discovery"),
        ("STREAMLINK_FALLBACK", SettingKind::Executable, "Fallback Streamlink executable; blank or AUTO uses discovery"),
        ("YT_DLP_PATH", SettingKind::Executable, "yt-dlp executable; blank uses runtime discovery"),
        ("FFMPEG_PATH", SettingKind::Executable, "FFmpeg executable; blank uses runtime discovery"),
        ("OUTPUT_DIR", SettingKind::Directory, "Default LIVE output folder; blank keeps the runtime default"),
        ("CHECK_INTERVAL", SettingKind::Text, "LIVE polling interval in seconds (1–86400)"),
        ("MIN_FREE_SPACE_GB", SettingKind::Text, "Minimum free disk space in GB (0–1000000)"),
        ("QUALITY", SettingKind::Text, "LIVE quality, for example best"),
    ];
    assert(t@.map_values(|f: (&str, SettingKind, &str)| (f.0@, f.1, f.2@)) =~= fields());
    t
}

/// Whether an environment setting shows `key`, `value`, `description`
/// and `kind`.
pub open spec fn shows_field(s: EnvironmentSetting, f: (Seq<char>, SettingKind, Seq<char>), value: Seq<char>) -> bool {
    s.key@ == f.0 && s.value@ == value && s.description@ == f.2 && s.kind == f.1
}

/// The editable environment settings with their stored values (empty when
/// not stored); secrets are never among them.
pub fn snapshot(values: &[(String, String)]) -> (r: Vec<EnvironmentSetting>)
    ensures
        r@.len() == fields().len(),
        forall|i: int|
            0 <= i < r@.len() ==> shows_field(
                #[trigger] r@[i],
                fields()[i],
                crate::settings::stored_or_empty(pairs_view(values@), fields()[i].0),
            ),
{
    let t = field_table();
    let ghost tv = t@.map_values(|f: (&str, SettingKind, &str)| (f.0@, f.1, f.2@));
    let mut r: Vec<EnvironmentSetting> = Vec::new();
    let mut i: usize = 0;
    while i < t.len()
        invariant
            i <= t.len(),
            tv == t@.map_values(|f: (&str, SettingKind, &str)| (f.0@, f.1, f.2@)),
            tv == fields(),
            r@.len() == i,
            forall|j: int|
                0 <= j < i ==> shows_field(
                    #[trigger] r@[j],
                    fields()[j],
                    crate::settings::stored_or_empty(pairs_view(values@), fields()[j].0),
                ),
        decreases t.len() - i,
    {
        let (key, kind, description) = t[i];
        assert(tv[i as int] == (key@, kind, description@));
        let value = match lookup_value(values, key) {
            Some(v) => v,
            None => String::new(),
        };
        r.push(EnvironmentSetting { key: owned(key), value, description: owned(description), kind });
        i += 1;
    }
    r
}

/// The environment view never shows a secret: none of its keys is one of
/// the secret settings.
pub proof fn law_snapshot_shows_no_secret()
    ensures
        forall|i: int, j: int|
            0 <= i < fields().len() && 0 <= j < crate::settings::hidden_keys().len() ==> (#[trigger] fields()[i]).0
                != #[trigger] crate::settings::hidden_keys()[j],
{
    reveal_strlit("STREAMLINK_PATH");
    reveal_strlit("STREAMLINK_FALLBACK");
    reveal_strlit("YT_DLP_PATH");
    reveal_strlit("FFMPEG_PATH");
    reveal_strlit("OUTPUT_DIR");
    reveal_strlit("CHECK_INTERVAL");
    reveal_strlit("MIN_FREE_SPACE_GB");
    reveal_strlit("QUALITY");
    reveal_strlit("SOOP_PASSWORD");
    reveal_strlit("CLOUDFLARE_API_KEY");
    reveal_strlit("CHZZK_NID_AUT");
    reveal_strlit("CHZZK_NID_SES");
    let f = fields();
    let h = crate::settings::hidden_keys();
    assert forall|i: int, j: int| 0 <= i < f.len() && 0 <= j < h.len() implies (#[trigger] f[i]).0 != #[trigger] h[j] by {
        if f[i].0 == h[j] {
            assert(f[i].0[0] == h[j][0]);
            assert(f[i].0.len() == h[j].len());
        }
    }
}

/// What the runtime found for a path value (each flag only looked at when
/// the check needs it).
#[derive(Debug, Clone, Copy)]
pub struct PathFacts {
    pub absolute: bool,
    pub executable_file: bool,
    pub directory: bool,
    /// On Windows, whether the extension is `exe` or `com`; `None` on other
    /// systems.
    pub windows_executable: Option<bool>,
}

/// The kind of an environment setting, if `key` is one.
pub open spec fn field_kind(key: Seq<char>) -> Option<SettingKind> {
    kind_in(fields(), key)
}

/// The kind of the first field named `key`.
pub open spec fn kind_in(fs: Seq<(Seq<char>, SettingKind, Seq<char>)>, key: Seq<char>) -> Option<SettingKind>
    decreases fs.len(),
{
    if fs.len() == 0 {
        None
    } else if fs[0].0 == key {
        Some(fs[0].1)
    } else {
        kind_in(fs.drop_first(), key)
    }
}

/// A value that keeps automatic discovery: blank, or `AUTO` for a
/// Streamlink setting.
pub open spec fn env_automatic(key: Seq<char>, value: Seq<char>) -> bool {
    trim(value).len() == 0 || (starts_with(key, "STREAMLINK_"@) && eq_ignore_case(value, "AUTO"@))
}

/// The checks of one environment update by itself.
pub open spec fn env_check(key: Seq<char>, value: Seq<char>, facts: PathFacts) -> Result<(), Refusal> {
    match field_kind(key) {
        None => Err(Refusal::NotEnvironmentSetting(key)),
        Some(kind) => if has_line_break_or_nul(value) || byte_len(value) > 2048 {
            Err(Refusal::EnvironmentNotSingleLine(key))
        } else if !env_automatic(key, value) && kind != SettingKind::Text {
            if !facts.absolute {
                Err(Refusal::NotAbsolute(key))
            } else if kind == SettingKind::Executable && !facts.executable_file {
                Err(Refusal::NotExecutable(key, value))
            } else if kind == SettingKind::Directory && !facts.directory {
                Err(Refusal::NotDirectory(key, value))
            } else if kind == SettingKind::Executable && facts.windows_executable == Some(false) {
                Err(Refusal::NotWindowsExecutable(key))
            } else {
                Ok(())
            }
        } else {
            Ok(())
        },
    }
}

/// The first refusal among the updates with their facts, in order.
pub open spec fn env_first_refusal(u: Seq<(Seq<char>, Seq<char>)>, facts: Seq<PathFacts>) -> Result<(), Refusal>
    decreases u.len(),
{
    if u.len() == 0 {
        Ok(())
    } else {
        match env_check(u[0].0, u[0].1, facts[0]) {
            Err(e) => Err(e),
            Ok(_) => env_first_refusal(u.drop_first(), facts.drop_first()),
        }
    }
}

/// The updates that are VOD tool paths, or those that are not, in order.
pub open spec fn split_updates(u: Seq<(Seq<char>, Seq<char>)>, vod: bool) -> Seq<(Seq<char>, Seq<char>)>
    decreases u.len(),
{
    if u.len() == 0 {
        u
    } else {
        let r = split_updates(u.drop_last(), vod);
        if vod_tool_keys().contains(u.last().0) == vod {
            r.push(u.last())
        } else {
            r
        }
    }
}

/// The check of an environment update: each pair by itself (in order),
/// then the general settings rules and the VOD tool rules.
pub open spec fn env_update_check(u: Seq<(Seq<char>, Seq<char>)>, facts: Seq<PathFacts>) -> Result<(), Refusal> {
    match env_first_refusal(u, facts) {
        Err(e) => Err(e),
        Ok(_) => match first_refusal(split_updates(u, false), |k: Seq<char>, v: Seq<char>| setting_check(k, v)) {
            Err(e) => Err(e),
            Ok(_) => first_refusal(split_updates(u, true), |k: Seq<char>, v: Seq<char>| vod_tool_check(k, v)),
        },
    }
}

fn kind_of(key: &str) -> (r: Option<SettingKind>)
    ensures
        r == field_kind(key@),
{
    let t = field_table();
    let ghost tv = t@.map_values(|f: (&str, SettingKind, &str)| (f.0@, f.1, f.2@));
    let mut i: usize = 0;
    assert(tv.skip(0) =~= tv);
    while i < t.len()
        invariant
            i <= t.len(),
            tv == t@.map_values(|f: (&str, SettingKind, &str)| (f.0@, f.1, f.2@)),
            tv == fields(),
            kind_in(tv, key@) == kind_in(tv.skip(i as int), key@),
        decreases t.len() - i,
    {
        assert(tv[i as int] == (t@[i as int].0@, t@[i as int].1, t@[i as int].2@));
        assert(tv.skip(i as int)[0] == tv[i as int]);
        assert(tv.skip(i as int).drop_first() =~= tv.skip(i + 1));
        if str_eq(t[i].0, key) {
            return Some(t[i].1);
        }
        i += 1;
    }
    None
}

fn check_env(key: &str, value: &str, facts: PathFacts) -> (r: Result<(), SettingError>)
    ensures
        result_view(r) == env_check(key@, value@, facts),
{
    let kind = match kind_of(key) {
        None => {
            return Err(SettingError::NotEnvironmentSetting(owned(key)));
        },
        Some(k) => k,
    };
    let v = chars_of(value);
    proof {
        lemma_byte_len_bounds(value@);
    }
    if line_break_or_nul(v.as_slice()) || v.len() > 2048 || value.len() > 2048 {
        return Err(SettingError::EnvironmentNotSingleLine(owned(key)));
    }
    let automatic = trim_chars(v.as_slice()).len() == 0 || (str_starts_with(key, "STREAMLINK_")
        && str_eq_ignore_case(value, "AUTO"));
    if !automatic && kind != SettingKind::Text {
        if !facts.absolute {
            return Err(SettingError::NotAbsolute(owned(key)));
        }
        if kind == SettingKind::Executable && !facts.executable_file {
            return Err(SettingError::NotExecutable(owned(key), owned(value)));
        }
        if kind == SettingKind::Directory && !facts.directory {
            return Err(SettingError::NotDirectory(owned(key), owned(value)));
        }
        if kind == SettingKind::Executable {
            match facts.windows_executable {
                Some(false) => {
                    return Err(SettingError::NotWindowsExecutable(owned(key)));
                },
                _ => {},
            }
        }
    }
    Ok(())
}

/// Checks an environment update, given in key order with what the runtime
/// found for each value: each pair must be an environment setting and a
/// single line of at most 2048 bytes; a path that is not automatic must be
/// absolute and name an executable file or an existing directory (and on
/// Windows an `.exe` or `.com`); then the general and VOD tool rules apply.
pub fn validate_updates(updates: &[(String, String)], facts: &[PathFacts]) -> (r: Result<(), SettingError>)
    requires
        facts.len() == updates.len(),
        crate::settings::keys_ascending(pairs_view(updates@)),
    ensures
        result_view(r) == env_update_check(pairs_view(updates@), facts@),
{
    let ghost u = pairs_view(updates@);
    let mut general: Vec<(String, String)> = Vec::new();
    let mut vod: Vec<(String, String)> = Vec::new();
    let vod_keys = crate::settings::vod_tool_setting_keys();
    let mut i: usize = 0;
    assert(u.skip(0) =~= u);
    assert(facts@.skip(0) =~= facts@);
    assert(pairs_view(general@) =~= split_updates(u.take(0), false));
    assert(pairs_view(vod@) =~= split_updates(u.take(0), true));
    while i < updates.len()
        invariant
            i <= updates.len(),
            facts.len() == updates.len(),
            u == pairs_view(updates@),
            crate::settings::views(vod_keys@) == vod_tool_keys(),
            env_first_refusal(u, facts@) == env_first_refusal(u.skip(i as int), facts@.skip(i as int)),
            pairs_view(general@) == split_updates(u.take(i as int), false),
            pairs_view(vod@) == split_updates(u.take(i as int), true),
        decreases updates.len() - i,
    {
        let (key, value) = &updates[i];
        assert(u[i as int] == (key@, value@));
        assert(u.skip(i as int).drop_first() =~= u.skip(i + 1));
        assert(facts@.skip(i as int).drop_first() =~= facts@.skip(i + 1));
        assert(u.skip(i as int)[0] == u[i as int]);
        assert(facts@.skip(i as int)[0] == facts@[i as int]);
        let is_vod = crate::settings::key_in(vod_keys.as_slice(), key.as_str());
        assert(u.take(i + 1).drop_last() =~= u.take(i as int));
        assert(u.take(i + 1).last() == u[i as int]);
        if is_vod {
            vod.push((owned(key.as_str()), owned(value.as_str())));
            assert(pairs_view(vod@) =~= pairs_view(vod@).drop_last().push((key@, value@)));
        } else {
            general.push((owned(key.as_str()), owned(value.as_str())));
            assert(pairs_view(general@) =~= pairs_view(general@).drop_last().push((key@, value@)));
        }
        check_env(key.as_str(), value.as_str(), facts[i])?;
        i += 1;
    }
    assert(u.take(i as int) =~= u);
    assert(u.skip(i as int) =~= Seq::<(Seq<char>, Seq<char>)>::empty());
    proof {
        lemma_split_ascending(u, false);
        lemma_split_ascending(u, true);
    }
    validate_setting_updates(general.as_slice())?;
    validate_vod_tool_updates(vod.as_slice())
}


proof fn lemma_split_members(u: Seq<(Seq<char>, Seq<char>)>, vod: bool)
    ensures
        forall|k: int| 0 <= k < split_updates(u, vod).len() ==> exists|i: int| 0 <= i < u.len() && u[i] == #[trigger] split_updates(u, vod)[k],
    decreases u.len(),
{
    if u.len() > 0 {
        let init = u.drop_last();
        lemma_split_members(init, vod);
        let r = split_updates(u, vod);
        assert forall|k: int| 0 <= k < r.len() implies exists|i: int| 0 <= i < u.len() && u[i] == #[trigger] r[k] by {
            if k < split_updates(init, vod).len() {
                let i = choose|i: int| 0 <= i < init.len() && init[i] == split_updates(init, vod)[k];
                assert(u[i] == init[i]);
            } else {
                assert(u[u.len() - 1] == r[k]);
            }
        }
    }
}

/// Keeping some of the updates keeps their keys ascending.
proof fn lemma_split_ascending(u: Seq<(Seq<char>, Seq<char>)>, vod: bool)
    requires
        crate::settings::keys_ascending(u),
    ensures
        crate::settings::keys_ascending(split_updates(u, vod)),
    decreases u.len(),
{
    if u.len() > 0 {
        let init = u.drop_last();
        assert(crate::settings::keys_ascending(init)) by {
            assert forall|i: int, j: int| 0 <= i < j < init.len() implies crate::text::text_lt(#[trigger] init[i].0, #[trigger] init[j].0) by {
                assert(init[i] == u[i] && init[j] == u[j]);
            }
        }
        lemma_split_ascending(init, vod);
        lemma_split_members(init, vod);
        let si = split_updates(init, vod);
        let r = split_updates(u, vod);
        if vod_tool_keys().contains(u.last().0) == vod {
            assert forall|a: int, b: int| 0 <= a < b < r.len() implies crate::text::text_lt(#[trigger] r[a].0, #[trigger] r[b].0) by {
                assert(r[a] == si[a]);
                if b < si.len() {
                    assert(r[b] == si[b]);
                } else {
                    let i = choose|i: int| 0 <= i < init.len() && init[i] == si[a];
                    assert(u[i] == init[i]);
                    assert(r[b] == u[u.len() - 1]);
                }
            }
        }
    }
}

} // verus!
