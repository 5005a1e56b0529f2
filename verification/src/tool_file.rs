//! The VOD tool settings file (`SOOP_VOD_SETTING.ini`): how its text is
//! read, which updates it takes, and the text an update writes, keeping
//! every other line as it was.
use crate::settings::{lookup, lookup_value, pairs_view, views, vod_tool_keys, vod_tool_setting_keys};
use crate::text::{
    chars_of, first_index, is_ws, owned, push_chars, push_str, split_on, split_once_spec, split_text,
    string_of, trim, trim_end, trim_start, trim_chars, slice_vec, lemma_first_index_concat,
};
use vstd::prelude::*;

verus! {

// ---------------------------------------------------------------------------
// Lines
// ---------------------------------------------------------------------------

/// A line without the `\r` of a `\r\n` ending.
pub open spec fn strip_cr(p: Seq<char>) -> Seq<char> {
    if p.len() > 0 && p.last() == '\r' {
        p.drop_last()
    } else {
        p
    }
}

/// `str::lines`: the text split at `\n` (a `\r` before it dropped), with
/// no empty line after a final line ending.
pub open spec fn lines_of(t: Seq<char>) -> Seq<Seq<char>> {
    let parts = split_on(t, '\n');
    let ended = parts.drop_last().map_values(|p: Seq<char>| strip_cr(p));
    if parts.last().len() == 0 {
        ended
    } else {
        ended.push(parts.last())
    }
}

/// The lines of a text as owned strings.
pub fn text_lines(t: &str) -> (r: Vec<String>)
    ensures
        r@.map_values(|s: String| s@) == lines_of(t@),
{
    let parts = split_text(t, '\n');
    let ghost ps = parts@.map_values(|s: String| s@);
    proof {
        lemma_split_nonempty(t@, '\n');
    }
    let mut out: Vec<String> = Vec::new();
    let mut i: usize = 0;
    let n = parts.len();
    while i + 1 < n
        invariant
            n == parts.len(),
            n >= 1,
            i + 1 <= n,
            ps == parts@.map_values(|s: String| s@),
            ps == split_on(t@, '\n'),
            out@.map_values(|s: String| s@) == ps.drop_last().take(i as int).map_values(|p: Seq<char>| strip_cr(p)),
        decreases n - i,
    {
        let v = chars_of(parts[i].as_str());
        let line = if v.len() > 0 && v[v.len() - 1] == '\r' {
            string_of(slice_vec(v.as_slice(), 0, v.len() - 1).as_slice())
        } else {
            string_of(v.as_slice())
        };
        assert(ps[i as int] == parts@[i as int]@);
        assert(line@ == strip_cr(ps[i as int])) by {
            if v.len() > 0 && v@.last() == '\r' {
                assert(v@.subrange(0, v.len() - 1) =~= v@.drop_last());
            }
        }
        let ghost before = out@.map_values(|s: String| s@);
        out.push(line);
        assert(out@.map_values(|s: String| s@) =~= before.push(line@));
        assert(ps.drop_last().take(i + 1) =~= ps.drop_last().take(i as int).push(ps[i as int]));
        assert(ps.drop_last().take(i + 1).map_values(|p: Seq<char>| strip_cr(p)) =~= ps.drop_last().take(
            i as int,
        ).map_values(|p: Seq<char>| strip_cr(p)).push(strip_cr(ps[i as int])));
        i += 1;
    }
    assert(ps.drop_last().take(i as int) =~= ps.drop_last());
    let last = &parts[n - 1];
    assert(ps.last() == last@);
    if !last.as_str().is_empty() {
        let ghost before = out@.map_values(|s: String| s@);
        out.push(owned(last.as_str()));
        assert(out@.map_values(|s: String| s@) =~= before.push(last@));
    }
    out
}

proof fn lemma_split_nonempty(s: Seq<char>, c: char)
    ensures
        split_on(s, c).len() >= 1,
    decreases s.len(),
{
    let i = first_index(s, c);
    if i < s.len() {
        lemma_first_index_le(s, c);
        lemma_split_nonempty(s.skip(i + 1int), c);
    }
}

proof fn lemma_first_index_le(s: Seq<char>, c: char)
    ensures
        first_index(s, c) <= s.len(),
        first_index(s, c) < s.len() ==> s[first_index(s, c) as int] == c,
        forall|j: int| 0 <= j < first_index(s, c) ==> s[j] != c,
    decreases s.len(),
{
    if s.len() > 0 && s[0] != c {
        lemma_first_index_le(s.drop_first(), c);
        assert forall|j: int| 0 <= j < first_index(s, c) implies s[j] != c by {
            if j > 0 {
                assert(s.drop_first()[j - 1] == s[j]);
            }
        }
    }
}

// ---------------------------------------------------------------------------
// Reading
// ---------------------------------------------------------------------------

/// The setting a line holds: blank lines and `#` or `;` comments hold none;
/// otherwise the trimmed text before the first `=` and the trimmed text
/// after it.
pub open spec fn line_entry(line: Seq<char>) -> Option<(Seq<char>, Seq<char>)> {
    let t = trim(line);
    if t.len() == 0 || t[0] == '#' || t[0] == ';' {
        None
    } else {
        match split_once_spec(t, '=') {
            Some((k, v)) => Some((trim(k), trim(v))),
            None => None,
        }
    }
}

/// The value of the last line that sets `key`.
pub open spec fn value_in(lines: Seq<Seq<char>>, key: Seq<char>) -> Option<Seq<char>>
    decreases lines.len(),
{
    if lines.len() == 0 {
        None
    } else {
        match line_entry(lines.last()) {
            Some((k, v)) => if k == key {
                Some(v)
            } else {
                value_in(lines.drop_last(), key)
            },
            None => value_in(lines.drop_last(), key),
        }
    }
}

/// What the file says of a tool path: empty when no line sets it.
pub open spec fn read_value(text: Seq<char>, key: Seq<char>) -> Seq<char> {
    match value_in(lines_of(text), key) {
        Some(v) => v,
        None => Seq::empty(),
    }
}

fn entry_of(line: &str) -> (r: Option<(String, String)>)
    ensures
        match line_entry(line@) {
            Some((k, v)) => r matches Some((a, b)) && a@ == k && b@ == v,
            None => r is None,
        },
{
    let t = trim_chars(chars_of(line).as_slice());
    if t.len() == 0 || t[0] == '#' || t[0] == ';' {
        return None;
    }
    let ts = string_of(t.as_slice());
    match crate::text::split_once(ts.as_str(), '=') {
        Some((k, v)) => Some((crate::text::trim_str(k.as_str()), crate::text::trim_str(v.as_str()))),
        None => None,
    }
}

/// The two tool paths the file sets (`YT_DLP_PATH`, `FFMPEG_PATH`).
pub fn read_tool_settings(text: &str) -> (r: (String, String))
    ensures
        r.0@ == read_value(text@, "YT_DLP_PATH"@),
        r.1@ == read_value(text@, "FFMPEG_PATH"@),
{
    let lines = text_lines(text);
    let ghost ls = lines@.map_values(|s: String| s@);
    let mut yt = String::new();
    let mut ff = String::new();
    let mut i: usize = 0;
    proof {
        reveal_strlit("YT_DLP_PATH");
        reveal_strlit("FFMPEG_PATH");
        assert("YT_DLP_PATH"@[0] != "FFMPEG_PATH"@[0]);
    }
    while i < lines.len()
        invariant
            "YT_DLP_PATH"@ != "FFMPEG_PATH"@,
            i <= lines.len(),
            ls == lines@.map_values(|s: String| s@),
            ls == lines_of(text@),
            yt@ == match value_in(ls.take(i as int), "YT_DLP_PATH"@) {
                Some(v) => v,
                None => Seq::empty(),
            },
            ff@ == match value_in(ls.take(i as int), "FFMPEG_PATH"@) {
                Some(v) => v,
                None => Seq::empty(),
            },
        decreases lines.len() - i,
    {
        assert(ls.take(i + 1).drop_last() =~= ls.take(i as int));
        assert(ls.take(i + 1).last() == lines@[i as int]@);
        match entry_of(lines[i].as_str()) {
            Some((k, v)) => {
                if crate::text::str_eq(k.as_str(), "YT_DLP_PATH") {
                    yt = v;
                } else if crate::text::str_eq(k.as_str(), "FFMPEG_PATH") {
                    ff = v;
                }
            },
            None => {},
        }
        i += 1;
    }
    assert(ls.take(lines.len() as int) =~= ls);
    (yt, ff)
}

// ---------------------------------------------------------------------------
// Updating
// ---------------------------------------------------------------------------

/// Why an update of the file was refused.
#[derive(Debug, Clone, PartialEq, Eq)]
pub enum ToolFileError {
    /// The key is not a VOD tool path.
    UnsupportedKey(String),
    /// The path holds a line break or NUL, or is over 2048 bytes.
    InvalidPath(String),
}

/// The refusal of one update, if any: `(true, key)` for a key that is no
/// tool path, `(false, key)` for a path that is not a single line of at
/// most 2048 bytes.
pub open spec fn pair_refusal(k: Seq<char>, v: Seq<char>) -> Option<(bool, Seq<char>)> {
    if !vod_tool_keys().contains(k) {
        Some((true, k))
    } else if crate::text::has_line_break_or_nul(v) || crate::text::byte_len(v) > 2048 {
        Some((false, k))
    } else {
        None
    }
}

/// The first refusal among the updates, in order.
pub open spec fn first_pair_refusal(u: Seq<(Seq<char>, Seq<char>)>) -> Option<(bool, Seq<char>)>
    decreases u.len(),
{
    if u.len() == 0 {
        None
    } else {
        match pair_refusal(u[0].0, u[0].1) {
            Some(e) => Some(e),
            None => first_pair_refusal(u.drop_first()),
        }
    }
}

pub open spec fn tool_error_view(e: ToolFileError) -> (bool, Seq<char>) {
    match e {
        ToolFileError::UnsupportedKey(k) => (true, k@),
        ToolFileError::InvalidPath(k) => (false, k@),
    }
}

/// Checks the updates of the file (see `first_pair_refusal`).
pub fn check_tool_updates(updates: &[(String, String)]) -> (r: Result<(), ToolFileError>)
    requires
        crate::settings::keys_ascending(pairs_view(updates@)),
    ensures
        match first_pair_refusal(pairs_view(updates@)) {
            None => r is Ok,
            Some(e) => r matches Err(x) && tool_error_view(x) == e,
        },
{
    let keys = vod_tool_setting_keys();
    let ghost u = pairs_view(updates@);
    let mut i: usize = 0;
    assert(u.skip(0) =~= u);
    while i < updates.len()
        invariant
            i <= updates.len(),
            u == pairs_view(updates@),
            views(keys@) == vod_tool_keys(),
            first_pair_refusal(u) == first_pair_refusal(u.skip(i as int)),
        decreases updates.len() - i,
    {
        assert(u.skip(i as int).drop_first() =~= u.skip(i + 1));
        assert(u.skip(i as int)[0] == (updates@[i as int].0@, updates@[i as int].1@));
        let (k, v) = &updates[i];
        if !crate::settings::key_in(keys.as_slice(), k.as_str()) {
            return Err(ToolFileError::UnsupportedKey(owned(k.as_str())));
        }
        let vv = chars_of(v.as_str());
        if crate::text::line_break_or_nul(vv.as_slice()) || crate::text::byte_len_above(vv.as_slice(), 2048) {
            return Err(ToolFileError::InvalidPath(owned(k.as_str())));
        }
        i += 1;
    }
    assert(u.skip(i as int) =~= Seq::<(Seq<char>, Seq<char>)>::empty());
    Ok(())
}

/// `\r\n` and lone `\r` turned into `\n`.
pub open spec fn normalize_newlines(s: Seq<char>) -> Seq<char>
    decreases s.len(),
{
    if s.len() == 0 {
        s
    } else if s[0] == '\r' && s.len() >= 2 && s[1] == '\n' {
        seq!['\n'] + normalize_newlines(s.skip(2))
    } else if s[0] == '\r' {
        seq!['\n'] + normalize_newlines(s.skip(1))
    } else {
        seq![s[0]] + normalize_newlines(s.skip(1))
    }
}

fn normalized(v: &[char]) -> (r: Vec<char>)
    ensures
        r@ == normalize_newlines(v@),
{
    let mut out: Vec<char> = Vec::new();
    let mut i: usize = 0;
    assert(v@.skip(0) =~= v@);
    while i < v.len()
        invariant
            i <= v.len(),
            out@ + normalize_newlines(v@.skip(i as int)) == normalize_newlines(v@),
        decreases v.len() - i,
    {
        let ghost rest = v@.skip(i as int);
        let ghost before = out@;
        if v[i] == '\r' && i + 1 < v.len() && v[i + 1] == '\n' {
            out.push('\n');
            assert(rest.skip(2) =~= v@.skip(i + 2));
            assert(before + normalize_newlines(rest) =~= out@ + normalize_newlines(v@.skip(i + 2)));
            i += 2;
        } else {
            if v[i] == '\r' {
                out.push('\n');
            } else {
                out.push(v[i]);
            }
            assert(rest.skip(1) =~= v@.skip(i + 1));
            assert(before + normalize_newlines(rest) =~= out@ + normalize_newlines(v@.skip(i + 1)));
            i += 1;
        }
    }
    assert(v@.skip(i as int) =~= Seq::<char>::empty());
    assert(out@ + Seq::<char>::empty() =~= out@);
    out
}

/// Whether a line sets `key`.
pub open spec fn sets(line: Seq<char>, key: Seq<char>) -> bool {
    match line_entry(line) {
        Some((k, _)) => k == key,
        None => false,
    }
}

/// A line of the file after the update: a line setting an updated key is
/// rewritten as `KEY=value`; every other line stays as it was.
pub open spec fn rewrite_line(raw: Seq<char>, u: Seq<(Seq<char>, Seq<char>)>) -> Seq<char> {
    match line_entry(raw) {
        Some((k, _)) => match lookup(u, k) {
            Some(v) => k + seq!['='] + v,
            None => raw,
        },
        None => raw,
    }
}

pub open spec fn any_sets(lines: Seq<Seq<char>>, key: Seq<char>) -> bool {
    exists|i: int| 0 <= i < lines.len() && #[trigger] sets(lines[i], key)
}

/// `KEY=value` for each updated tool path, in order, that no line set.
pub open spec fn appended_lines(keys: Seq<Seq<char>>, lines: Seq<Seq<char>>, u: Seq<(Seq<char>, Seq<char>)>) -> Seq<
    Seq<char>,
>
    decreases keys.len(),
{
    if keys.len() == 0 {
        Seq::empty()
    } else {
        appended_lines(keys.drop_last(), lines, u) + appended_for(keys.last(), lines, u)
    }
}

/// `KEY=value` when `key` is updated and no line set it; nothing otherwise.
pub open spec fn appended_for(k: Seq<char>, lines: Seq<Seq<char>>, u: Seq<(Seq<char>, Seq<char>)>) -> Seq<Seq<char>> {
    match lookup(u, k) {
        Some(v) => if !any_sets(lines, k) {
            seq![k + seq!['='] + v]
        } else {
            Seq::empty()
        },
        None => Seq::empty(),
    }
}

pub open spec fn header_line() -> Seq<char> {
    "# SOOP VOD tool settings"@
}

/// The lines the update writes: the old lines rewritten, a heading when
/// the file was empty, then the updated paths no line set.
pub open spec fn output_lines(orig: Seq<char>, u: Seq<(Seq<char>, Seq<char>)>) -> Seq<Seq<char>> {
    let raw = lines_of(normalize_newlines(orig));
    raw.map_values(|l: Seq<char>| rewrite_line(l, u)) + (if orig.len() == 0 {
        seq![header_line()]
    } else {
        Seq::empty()
    }) + appended_lines(vod_tool_keys(), raw, u)
}

/// The lines, each followed by the line ending.
pub open spec fn terminated(lines: Seq<Seq<char>>, nl: Seq<char>) -> Seq<char>
    decreases lines.len(),
{
    if lines.len() == 0 {
        Seq::empty()
    } else {
        lines[0] + nl + terminated(lines.drop_first(), nl)
    }
}

/// The file keeps `\r\n` line endings when it has any.
pub open spec fn newline_of(orig: Seq<char>) -> Seq<char> {
    if crate::text::contains(orig, "\r\n"@) {
        "\r\n"@
    } else {
        "\n"@
    }
}

/// The text an update writes.
pub open spec fn updated_text(orig: Seq<char>, u: Seq<(Seq<char>, Seq<char>)>) -> Seq<char> {
    terminated(output_lines(orig, u), newline_of(orig))
}

fn joined_line(k: &str, v: &str) -> (r: String)
    ensures
        r@ == k@ + seq!['='] + v@,
{
    let mut out: Vec<char> = Vec::new();
    push_str(&mut out, k);
    out.push('=');
    push_str(&mut out, v);
    string_of(out.as_slice())
}

/// The text of the file after the updates (see `updated_text`).
#[verifier::spinoff_prover]
pub fn updated_tool_file(original: &str, updates: &[(String, String)]) -> (r: String)
    requires
        crate::settings::keys_ascending(pairs_view(updates@)),
    ensures
        r@ == updated_text(original@, pairs_view(updates@)),
{
    let ghost u = pairs_view(updates@);
    let ov = chars_of(original);
    let crlf = crate::text::contains_chars(ov.as_slice(), chars_of("\r\n").as_slice());
    let nl: &str = if crlf { "\r\n" } else { "\n" };
    assert(nl@ == newline_of(original@));
    let norm = string_of(normalized(ov.as_slice()).as_slice());
    let raw = text_lines(norm.as_str());
    let ghost rl = raw@.map_values(|s: String| s@);
    let mut out: Vec<String> = Vec::new();
    let mut seen_yt = false;
    let mut seen_ff = false;
    proof {
        reveal_strlit("YT_DLP_PATH");
        reveal_strlit("FFMPEG_PATH");
        assert("YT_DLP_PATH"@[0] != "FFMPEG_PATH"@[0]);
    }
    let mut i: usize = 0;
    while i < raw.len()
        invariant
            i <= raw.len(),
            u == pairs_view(updates@),
            rl == raw@.map_values(|s: String| s@),
            rl == lines_of(normalize_newlines(original@)),
            "YT_DLP_PATH"@ != "FFMPEG_PATH"@,
            out@.map_values(|s: String| s@) == rl.take(i as int).map_values(|l: Seq<char>| rewrite_line(l, u)),
            seen_yt == any_sets(rl.take(i as int), "YT_DLP_PATH"@),
            seen_ff == any_sets(rl.take(i as int), "FFMPEG_PATH"@),
        decreases raw.len() - i,
    {
        let line = raw[i].as_str();
        assert(rl[i as int] == line@);
        let new_line = match entry_of(line) {
            Some((k, _)) => {
                if crate::text::str_eq(k.as_str(), "YT_DLP_PATH") {
                    seen_yt = true;
                } else if crate::text::str_eq(k.as_str(), "FFMPEG_PATH") {
                    seen_ff = true;
                }
                match lookup_value(updates, k.as_str()) {
                    Some(v) => joined_line(k.as_str(), v.as_str()),
                    None => owned(line),
                }
            },
            None => owned(line),
        };
        assert(new_line@ == rewrite_line(line@, u));
        proof {
            let t = rl.take(i + 1);
            assert(t.drop_last() =~= rl.take(i as int));
            assert(t.last() == line@);
            assert forall|key: Seq<char>| #[trigger] any_sets(t, key) == (any_sets(rl.take(i as int), key) || sets(line@, key)) by {
                if any_sets(t, key) {
                    let j = choose|j: int| 0 <= j < t.len() && #[trigger] sets(t[j], key);
                    if j < i {
                        assert(rl.take(i as int)[j] == t[j]);
                    }
                }
                if any_sets(rl.take(i as int), key) {
                    let j = choose|j: int| 0 <= j < i && #[trigger] sets(rl.take(i as int)[j], key);
                    assert(t[j] == rl.take(i as int)[j]);
                }
                if sets(line@, key) {
                    assert(t[i as int] == line@);
                }
            }
        }
        let ghost before = out@.map_values(|s: String| s@);
        out.push(new_line);
        assert(out@.map_values(|s: String| s@) =~= before.push(rewrite_line(line@, u)));
        assert(rl.take(i + 1).map_values(|l: Seq<char>| rewrite_line(l, u)) =~= rl.take(i as int).map_values(
            |l: Seq<char>| rewrite_line(l, u),
        ).push(rewrite_line(line@, u)));
        i += 1;
    }
    assert(rl.take(raw.len() as int) =~= rl);
    let ghost body = rl.map_values(|l: Seq<char>| rewrite_line(l, u));
    if ov.len() == 0 {
        out.push(owned("# SOOP VOD tool settings"));
    }
    let ghost head = body + (if original@.len() == 0 {
        seq![header_line()]
    } else {
        Seq::<Seq<char>>::empty()
    });
    assert(out@.map_values(|s: String| s@) =~= head);
    let ghost keys = vod_tool_keys();
    proof {
        assert(keys.take(0) =~= Seq::<Seq<char>>::empty());
        assert(keys.take(1) =~= seq!["YT_DLP_PATH"@]);
        assert(keys.take(1).drop_last() =~= keys.take(0));
        assert(keys.drop_last() =~= keys.take(1));
        assert(keys.take(1).last() == "YT_DLP_PATH"@);
        assert(keys.last() == "FFMPEG_PATH"@);
        assert(appended_lines(keys.take(0), rl, u) =~= Seq::<Seq<char>>::empty());
        assert(seen_yt == any_sets(rl, "YT_DLP_PATH"@));
        assert(seen_ff == any_sets(rl, "FFMPEG_PATH"@));
    }
    let ghost before_yt = out@.map_values(|s: String| s@);
    match lookup_value(updates, "YT_DLP_PATH") {
        Some(v) => {
            if !seen_yt {
                out.push(joined_line("YT_DLP_PATH", v.as_str()));
                assert(out@.map_values(|s: String| s@) =~= before_yt.push("YT_DLP_PATH"@ + seq!['='] + v@));
            }
        },
        None => {},
    }
    assert(out@.map_values(|s: String| s@) =~= head + appended_lines(keys.take(1), rl, u));
    let ghost before_ff = out@.map_values(|s: String| s@);
    match lookup_value(updates, "FFMPEG_PATH") {
        Some(v) => {
            if !seen_ff {
                out.push(joined_line("FFMPEG_PATH", v.as_str()));
                assert(out@.map_values(|s: String| s@) =~= before_ff.push("FFMPEG_PATH"@ + seq!['='] + v@));
            }
        },
        None => {},
    }
    assert(out@.map_values(|s: String| s@) =~= head + appended_lines(keys, rl, u));
    let ghost lines = out@.map_values(|s: String| s@);
    assert(lines == output_lines(original@, u));
    let mut text: Vec<char> = Vec::new();
    let mut j: usize = 0;
    assert(lines.skip(0) =~= lines);
    while j < out.len()
        invariant
            j <= out.len(),
            lines == out@.map_values(|s: String| s@),
            text@ + terminated(lines.skip(j as int), nl@) == terminated(lines, nl@),
        decreases out.len() - j,
    {
        let ghost before = text@;
        assert(lines.skip(j as int)[0] == out@[j as int]@);
        assert(lines.skip(j as int).drop_first() =~= lines.skip(j + 1));
        push_str(&mut text, out[j].as_str());
        push_str(&mut text, nl);
        assert(before + terminated(lines.skip(j as int), nl@) =~= text@ + terminated(lines.skip(j + 1), nl@));
        j += 1;
    }
    assert(lines.skip(j as int) =~= Seq::<Seq<char>>::empty());
    assert(text@ + Seq::<char>::empty() =~= text@);
    string_of(text.as_slice())
}

// ---------------------------------------------------------------------------
// Reading back what an update wrote
// ---------------------------------------------------------------------------

/// The parts of a split hold no separator, and only characters of the
/// text.
proof fn lemma_split_parts(s: Seq<char>, c: char, x: char)
    requires
        !s.contains(x) || x == c,
    ensures
        forall|i: int| 0 <= i < split_on(s, c).len() ==> !(#[trigger] split_on(s, c)[i]).contains(c)
            && !split_on(s, c)[i].contains(x),
    decreases s.len(),
{
    lemma_first_index_le(s, c);
    let f = first_index(s, c);
    if f >= s.len() {
        assert forall|i: int| 0 <= i < split_on(s, c).len() implies !(#[trigger] split_on(s, c)[i]).contains(c)
            && !split_on(s, c)[i].contains(x) by {
            assert(split_on(s, c)[i] == s);
            if s.contains(c) {
                let j = choose|j: int| 0 <= j < s.len() && s[j] == c;
                assert(s[j] != c);
            }
        }
    } else {
        let rest = s.skip(f + 1int);
        assert(!rest.contains(x) || x == c) by {
            if rest.contains(x) {
                let j = choose|j: int| 0 <= j < rest.len() && rest[j] == x;
                assert(s[f + 1 + j] == x);
            }
        }
        lemma_split_parts(rest, c, x);
        let head = s.take(f as int);
        assert forall|i: int| 0 <= i < split_on(s, c).len() implies !(#[trigger] split_on(s, c)[i]).contains(c)
            && !split_on(s, c)[i].contains(x) by {
            if i == 0 {
                assert(split_on(s, c)[0] == head);
                if head.contains(c) {
                    let j = choose|j: int| 0 <= j < head.len() && head[j] == c;
                    assert(s[j] == c);
                }
                if head.contains(x) {
                    let j = choose|j: int| 0 <= j < head.len() && head[j] == x;
                    assert(s[j] == x);
                }
            } else {
                assert(split_on(s, c)[i] == split_on(rest, c)[i - 1]);
            }
        }
    }
}

proof fn lemma_normalized_no_cr(s: Seq<char>)
    ensures
        !normalize_newlines(s).contains('\r'),
    decreases s.len(),
{
    if s.len() > 0 {
        let n = normalize_newlines(s);
        if s[0] == '\r' && s.len() >= 2 && s[1] == '\n' {
            lemma_normalized_no_cr(s.skip(2));
            assert(n == seq!['\n'] + normalize_newlines(s.skip(2)));
        } else {
            lemma_normalized_no_cr(s.skip(1));
            assert(n == seq![if s[0] == '\r' { '\n' } else { s[0] }] + normalize_newlines(s.skip(1)));
        }
        if n.contains('\r') {
            let j = choose|j: int| 0 <= j < n.len() && n[j] == '\r';
            if j > 0 {
                if s[0] == '\r' && s.len() >= 2 && s[1] == '\n' {
                    assert(normalize_newlines(s.skip(2))[j - 1] == '\r');
                } else {
                    assert(normalize_newlines(s.skip(1))[j - 1] == '\r');
                }
            }
        }
    }
}

/// Lines hold no line break, nor a `\r` when the text has none.
proof fn lemma_lines_clean(t: Seq<char>)
    requires
        !t.contains('\r'),
    ensures
        forall|i: int| 0 <= i < lines_of(t).len() ==> !(#[trigger] lines_of(t)[i]).contains('\n') && !lines_of(
            t,
        )[i].contains('\r'),
{
    lemma_split_parts(t, '\n', '\r');
    lemma_split_nonempty(t, '\n');
    let parts = split_on(t, '\n');
    assert forall|i: int| 0 <= i < lines_of(t).len() implies !(#[trigger] lines_of(t)[i]).contains('\n')
        && !lines_of(t)[i].contains('\r') by {
        let l = lines_of(t)[i];
        let p = parts[i];
        assert(!p.contains('\n') && !p.contains('\r'));
        if i < parts.len() - 1 {
            assert(l == strip_cr(p));
        } else {
            assert(l == p);
        }
        if l.contains('\n') {
            let j = choose|j: int| 0 <= j < l.len() && l[j] == '\n';
            assert(p[j] == '\n');
        }
        if l.contains('\r') {
            let j = choose|j: int| 0 <= j < l.len() && l[j] == '\r';
            assert(p[j] == '\r');
        }
    }
}

/// Reading the lines of terminated lines gives them back.
proof fn lemma_lines_of_terminated(ls: Seq<Seq<char>>, nl: Seq<char>)
    requires
        nl == "\n"@ || nl == "\r\n"@,
        forall|i: int| 0 <= i < ls.len() ==> !(#[trigger] ls[i]).contains('\n') && !ls[i].contains('\r'),
    ensures
        lines_of(terminated(ls, nl)) == ls,
    decreases ls.len(),
{
    reveal_strlit("\n");
    reveal_strlit("\r\n");
    if ls.len() == 0 {
        assert(split_on(Seq::<char>::empty(), '\n') =~= seq![Seq::<char>::empty()]);
        assert(lines_of(Seq::<char>::empty()) =~= Seq::<Seq<char>>::empty());
    } else {
        let rest_lines = ls.drop_first();
        assert forall|i: int| 0 <= i < rest_lines.len() implies !(#[trigger] rest_lines[i]).contains('\n')
            && !rest_lines[i].contains('\r') by {
            assert(rest_lines[i] == ls[i + 1]);
        }
        lemma_lines_of_terminated(rest_lines, nl);
        let rest = terminated(rest_lines, nl);
        let a = ls[0];
        let p = if nl == "\n"@ { a } else { a.push('\r') };
        let x = terminated(ls, nl);
        assert(x == a + nl + rest);
        assert(x =~= p + (seq!['\n'] + rest));
        assert(!p.contains('\n')) by {
            if p.contains('\n') {
                let j = choose|j: int| 0 <= j < p.len() && p[j] == '\n';
                if j < a.len() {
                    assert(a[j] == '\n');
                }
            }
        }
        lemma_first_index_concat(p, seq!['\n'] + rest, '\n');
        assert(first_index(x, '\n') == p.len());
        assert(x.take(p.len() as int) =~= p);
        assert(x.skip(p.len() + 1int) =~= rest);
        let s = split_on(rest, '\n');
        lemma_split_nonempty(rest, '\n');
        let parts = split_on(x, '\n');
        assert(parts == seq![p] + s);
        assert(parts.last() == s.last());
        assert(parts.drop_last() =~= seq![p] + s.drop_last());
        assert(strip_cr(p) == a) by {
            if nl == "\n"@ {
                if a.len() > 0 {
                    assert(a.contains(a.last()));
                }
            } else {
                assert(p.drop_last() =~= a);
            }
        }
        assert(parts.drop_last().map_values(|q: Seq<char>| strip_cr(q)) =~= seq![a] + s.drop_last().map_values(
            |q: Seq<char>| strip_cr(q),
        ));
        assert(lines_of(x) =~= seq![a] + lines_of(rest));
        assert(seq![a] + rest_lines =~= ls);
    }
}


proof fn lemma_trim_end_idem(s: Seq<char>)
    ensures
        trim_end(trim_end(s)) == trim_end(s),
    decreases s.len(),
{
    if s.len() > 0 && is_ws(s.last()) {
        lemma_trim_end_idem(s.drop_last());
    }
}

proof fn lemma_trim_end_cons(c: char, y: Seq<char>)
    ensures
        trim_end(seq![c] + y) == (if trim_end(y).len() == 0 && is_ws(c) {
            Seq::<char>::empty()
        } else {
            seq![c] + trim_end(y)
        }),
    decreases y.len(),
{
    let s = seq![c] + y;
    if y.len() == 0 {
        assert(s =~= seq![c]);
        assert(s.last() == c);
        assert(s.drop_last() =~= Seq::<char>::empty());
        assert(trim_end(Seq::<char>::empty()) == Seq::<char>::empty());
        assert(trim_end(y) == y);
        assert(seq![c] + trim_end(y) =~= s);
    } else {
        assert(s.last() == y.last());
        assert(s.drop_last() =~= seq![c] + y.drop_last());
        if is_ws(y.last()) {
            lemma_trim_end_cons(c, y.drop_last());
            assert(trim_end(s) == trim_end(seq![c] + y.drop_last()));
            assert(trim_end(y) == trim_end(y.drop_last()));
        } else {
            assert(trim_end(s) == s);
            assert(trim_end(y) == y);
        }
    }
}

proof fn lemma_trim_commute(v: Seq<char>)
    ensures
        trim_start(trim_end(v)) == trim_end(trim_start(v)),
    decreases v.len(),
{
    if v.len() > 0 {
        let w = v.drop_first();
        assert(v =~= seq![v[0]] + w);
        lemma_trim_end_cons(v[0], w);
        if is_ws(v[0]) {
            lemma_trim_commute(w);
            if trim_end(w).len() != 0 {
                assert((seq![v[0]] + trim_end(w)).drop_first() =~= trim_end(w));
            }
        } else {
            assert((seq![v[0]] + trim_end(w))[0] == v[0]);
        }
    }
}

/// Trimming a text whose end is already trimmed trims it as a whole.
proof fn lemma_trim_of_trim_end(v: Seq<char>)
    ensures
        trim(trim_end(v)) == trim(v),
{
    lemma_trim_commute(v);
    lemma_trim_end_idem(trim_start(v));
}

/// Every update that passes the check names a tool path and holds a
/// single line.
proof fn lemma_pairs_valid(u: Seq<(Seq<char>, Seq<char>)>)
    requires
        first_pair_refusal(u) is None,
    ensures
        forall|i: int|
            0 <= i < u.len() ==> vod_tool_keys().contains(#[trigger] u[i].0) && !crate::text::has_line_break_or_nul(
                u[i].1,
            ),
    decreases u.len(),
{
    if u.len() > 0 {
        lemma_pairs_valid(u.drop_first());
        assert forall|i: int| 0 <= i < u.len() implies vod_tool_keys().contains(#[trigger] u[i].0)
            && !crate::text::has_line_break_or_nul(u[i].1) by {
            if i > 0 {
                assert(u[i] == u.drop_first()[i - 1]);
            }
        }
    }
}

/// Where the value that `lookup` finds stands among the updates.
proof fn lemma_lookup_found(u: Seq<(Seq<char>, Seq<char>)>, k: Seq<char>) -> (i: int)
    requires
        lookup(u, k) is Some,
    ensures
        0 <= i < u.len(),
        u[i].0 == k,
        Some(u[i].1) == lookup(u, k),
    decreases u.len(),
{
    if u[0].0 == k {
        0
    } else {
        let j = lemma_lookup_found(u.drop_first(), k);
        j + 1
    }
}

proof fn lemma_no_char(s: Seq<char>, c: char)
    requires
        forall|j: int| 0 <= j < s.len() ==> s[j] != c,
    ensures
        !s.contains(c),
{
}

/// What a setting line needs of the two tool keys.
proof fn lemma_tool_key_facts(k: Seq<char>)
    requires
        vod_tool_keys().contains(k),
    ensures
        k.len() > 0,
        !is_ws(k[0]),
        !is_ws(k.last()),
        k[0] != '#',
        k[0] != ';',
        !k.contains('='),
        !k.contains('\n'),
        !k.contains('\r'),
{
    reveal_strlit("YT_DLP_PATH");
    reveal_strlit("FFMPEG_PATH");
    let ks = vod_tool_keys();
    let i = choose|i: int| 0 <= i < ks.len() && ks[i] == k;
    if i == 0 {
        assert(k =~= seq!['Y', 'T', '_', 'D', 'L', 'P', '_', 'P', 'A', 'T', 'H']);
    } else {
        assert(k =~= seq!['F', 'F', 'M', 'P', 'E', 'G', '_', 'P', 'A', 'T', 'H']);
    }
    lemma_no_char(k, '=');
    lemma_no_char(k, '\n');
    lemma_no_char(k, '\r');
}

/// `KEY=value` for a tool key sets the key to the trimmed value.
proof fn lemma_setting_line(k: Seq<char>, v: Seq<char>)
    requires
        vod_tool_keys().contains(k),
    ensures
        line_entry(k + seq!['='] + v) == Some((k, trim(v))),
{
    lemma_tool_key_facts(k);
    let p = k + seq!['='];
    let line = p + v;
    assert(p.last() == '=');
    assert(line[0] == k[0]);
    assert(trim_start(line) == line);
    crate::text::lemma_trim_end_after(p, v);
    let t = p + trim_end(v);
    assert(trim(line) == t);
    assert(t[0] == k[0]);
    assert(t =~= k + (seq!['='] + trim_end(v)));
    lemma_first_index_concat(k, seq!['='] + trim_end(v), '=');
    assert((seq!['='] + trim_end(v))[0] == '=');
    assert(first_index(t, '=') == k.len());
    assert(t.take(k.len() as int) =~= k);
    assert(t.skip(k.len() + 1int) =~= trim_end(v));
    assert(trim_start(k) == k);
    assert(trim_end(k) == k);
    lemma_trim_of_trim_end(v);
}

/// `KEY=value` holds no line break when the value holds none.
proof fn lemma_setting_line_clean(k: Seq<char>, v: Seq<char>)
    requires
        vod_tool_keys().contains(k),
        !crate::text::has_line_break_or_nul(v),
    ensures
        !(k + seq!['='] + v).contains('\n'),
        !(k + seq!['='] + v).contains('\r'),
{
    lemma_tool_key_facts(k);
    let l = k + seq!['='] + v;
    assert forall|j: int| 0 <= j < l.len() implies l[j] != '\n' && l[j] != '\r' by {
        if j < k.len() {
            assert(l[j] == k[j]);
            assert(k.contains(k[j]));
        } else if j > k.len() {
            assert(l[j] == v[j - k.len() - 1]);
            assert(v.contains(v[j - k.len() - 1]));
        }
    }
    lemma_no_char(l, '\n');
    lemma_no_char(l, '\r');
}

proof fn lemma_header_facts()
    ensures
        line_entry(header_line()) is None,
        !header_line().contains('\n'),
        !header_line().contains('\r'),
{
    reveal_strlit("# SOOP VOD tool settings");
    let h = header_line();
    assert(trim_start(h) == h);
    assert(trim_end(h) == h);
    lemma_no_char(h, '\n');
    lemma_no_char(h, '\r');
}

/// When every line that sets `key` sets it to `w`, and one does, the
/// file reads `w`.
proof fn lemma_value_all(lines: Seq<Seq<char>>, key: Seq<char>, w: Seq<char>)
    requires
        forall|i: int| 0 <= i < lines.len() && #[trigger] sets(lines[i], key) ==> line_entry(lines[i]) == Some((key, w)),
        any_sets(lines, key),
    ensures
        value_in(lines, key) == Some(w),
    decreases lines.len(),
{
    let n = lines.len() as int;
    if sets(lines[n - 1], key) {
        assert(line_entry(lines.last()) == Some((key, w)));
    } else {
        let rest = lines.drop_last();
        let j = choose|j: int| 0 <= j < lines.len() && #[trigger] sets(lines[j], key);
        assert(j != n - 1);
        assert(rest[j] == lines[j]);
        assert forall|i: int| 0 <= i < rest.len() && #[trigger] sets(rest[i], key) implies line_entry(rest[i]) == Some(
            (key, w),
        ) by {
            assert(rest[i] == lines[i]);
        }
        lemma_value_all(rest, key, w);
        match line_entry(lines.last()) {
            Some((k, _)) => {
                assert(k != key);
            },
            None => {},
        }
    }
}


pub open spec fn clean_line(l: Seq<char>) -> bool {
    !l.contains('\n') && !l.contains('\r')
}

pub open spec fn valid_updates(u: Seq<(Seq<char>, Seq<char>)>) -> bool {
    forall|i: int|
        0 <= i < u.len() ==> vod_tool_keys().contains(#[trigger] u[i].0) && !crate::text::has_line_break_or_nul(
            u[i].1,
        )
}

/// A line the update writes for a key it sets.
proof fn lemma_written_line(u: Seq<(Seq<char>, Seq<char>)>, k: Seq<char>, w: Seq<char>, key: Seq<char>, v: Seq<char>)
    requires
        valid_updates(u),
        lookup(u, k) == Some(w),
        lookup(u, key) == Some(v),
    ensures
        clean_line(k + seq!['='] + w),
        line_entry(k + seq!['='] + w) == Some((k, trim(w))),
        sets(k + seq!['='] + w, key) <==> k == key,
        k == key ==> line_entry(k + seq!['='] + w) == Some((key, trim(v))),
{
    let i = lemma_lookup_found(u, k);
    assert(vod_tool_keys().contains(u[i].0) && !crate::text::has_line_break_or_nul(u[i].1));
    lemma_setting_line(k, w);
    lemma_setting_line_clean(k, w);
}

proof fn lemma_rewritten_line(l: Seq<char>, u: Seq<(Seq<char>, Seq<char>)>, key: Seq<char>, v: Seq<char>)
    requires
        valid_updates(u),
        clean_line(l),
        lookup(u, key) == Some(v),
    ensures
        clean_line(rewrite_line(l, u)),
        sets(rewrite_line(l, u), key) ==> line_entry(rewrite_line(l, u)) == Some((key, trim(v))),
        sets(l, key) ==> sets(rewrite_line(l, u), key),
{
    match line_entry(l) {
        Some((k, _)) => match lookup(u, k) {
            Some(w) => {
                lemma_written_line(u, k, w, key, v);
            },
            None => {},
        },
        None => {},
    }
}

proof fn lemma_appended_line(
    k: Seq<char>,
    lines: Seq<Seq<char>>,
    u: Seq<(Seq<char>, Seq<char>)>,
    key: Seq<char>,
    v: Seq<char>,
)
    requires
        valid_updates(u),
        lookup(u, key) == Some(v),
    ensures
        forall|j: int|
            0 <= j < appended_for(k, lines, u).len() ==> clean_line(#[trigger] appended_for(k, lines, u)[j]) && (sets(
                appended_for(k, lines, u)[j],
                key,
            ) ==> line_entry(appended_for(k, lines, u)[j]) == Some((key, trim(v)))),
        k == key && !any_sets(lines, key) ==> appended_for(k, lines, u) == seq![key + seq!['='] + v],
{
    match lookup(u, k) {
        Some(w) => {
            lemma_written_line(u, k, w, key, v);
        },
        None => {},
    }
}

/// An accepted update of a tool path reads back as the path it wrote,
/// trimmed as every read trims it.
#[verifier::spinoff_prover]
pub proof fn law_tool_file_read_after_write(
    orig: Seq<char>,
    u: Seq<(Seq<char>, Seq<char>)>,
    key: Seq<char>,
)
    requires
        first_pair_refusal(u) is None,
        vod_tool_keys().contains(key),
        lookup(u, key) is Some,
    ensures
        read_value(updated_text(orig, u), key) == trim(lookup(u, key)->0),
{
    let v = lookup(u, key)->0;
    let w = trim(v);
    let norm = normalize_newlines(orig);
    let raw = lines_of(norm);
    lemma_normalized_no_cr(orig);
    lemma_lines_clean(norm);
    lemma_pairs_valid(u);
    assert(valid_updates(u));
    lemma_header_facts();
    let keys = vod_tool_keys();
    let body = raw.map_values(|l: Seq<char>| rewrite_line(l, u));
    let head: Seq<Seq<char>> = if orig.len() == 0 {
        seq![header_line()]
    } else {
        Seq::empty()
    };
    let a0 = appended_for(keys[0], raw, u);
    let a1 = appended_for(keys[1], raw, u);
    assert(keys.drop_last().drop_last() =~= Seq::<Seq<char>>::empty());
    assert(keys.drop_last().last() == keys[0]);
    assert(keys.last() == keys[1]);
    assert(appended_lines(keys.drop_last().drop_last(), raw, u) == Seq::<Seq<char>>::empty());
    assert(appended_lines(keys.drop_last(), raw, u) =~= Seq::<Seq<char>>::empty() + a0);
    assert(appended_lines(keys, raw, u) =~= a0 + a1);
    let out = output_lines(orig, u);
    assert(out =~= body + head + (a0 + a1));
    lemma_appended_line(keys[0], raw, u, key, v);
    lemma_appended_line(keys[1], raw, u, key, v);
    let nb = body.len() as int;
    let nh = head.len() as int;
    let n0 = a0.len() as int;
    assert forall|i: int| 0 <= i < out.len() implies clean_line(#[trigger] out[i]) && (sets(out[i], key)
        ==> line_entry(out[i]) == Some((key, w))) by {
        if i < nb {
            assert(out[i] == rewrite_line(raw[i], u));
            assert(clean_line(raw[i]));
            lemma_rewritten_line(raw[i], u, key, v);
        } else if i < nb + nh {
            assert(out[i] == header_line());
        } else if i < nb + nh + n0 {
            assert(out[i] == a0[i - nb - nh]);
        } else {
            assert(out[i] == a1[i - nb - nh - n0]);
        }
    }
    assert(any_sets(out, key)) by {
        if any_sets(raw, key) {
            let j = choose|j: int| 0 <= j < raw.len() && #[trigger] sets(raw[j], key);
            assert(clean_line(raw[j]));
            lemma_rewritten_line(raw[j], u, key, v);
            assert(out[j] == rewrite_line(raw[j], u));
        } else {
            lemma_setting_line(key, v);
            let line = key + seq!['='] + v;
            assert(sets(line, key));
            if key == keys[0] {
                assert(a0 == seq![line]);
                assert(out[nb + nh] == line);
            } else {
                assert(key == keys[1]);
                assert(a1 == seq![line]);
                assert(out[nb + nh + n0] == line);
            }
        }
    }
    assert forall|i: int| 0 <= i < out.len() implies !(#[trigger] out[i]).contains('\n') && !out[i].contains('\r') by {
        assert(clean_line(out[i]));
    }
    reveal_strlit("\n");
    reveal_strlit("\r\n");
    lemma_lines_of_terminated(out, newline_of(orig));
    lemma_value_all(out, key, w);
}


/// Fills an empty (or blank) tool path from the VOD tool settings file
/// `text`; a path that is given stays as it is.
pub fn apply_defaults(text: &str, yt_dlp: &mut String, ffmpeg: &mut String)
    ensures
        final(yt_dlp)@ == (if trim(old(yt_dlp)@).len() == 0 {
            read_value(text@, "YT_DLP_PATH"@)
        } else {
            old(yt_dlp)@
        }),
        final(ffmpeg)@ == (if trim(old(ffmpeg)@).len() == 0 {
            read_value(text@, "FFMPEG_PATH"@)
        } else {
            old(ffmpeg)@
        }),
{
    let (y, f) = read_tool_settings(text);
    let yv = chars_of(yt_dlp.as_str());
    if trim_chars(yv.as_slice()).len() == 0 {
        *yt_dlp = y;
    }
    let fv = chars_of(ffmpeg.as_str());
    if trim_chars(fv.as_slice()).len() == 0 {
        *ffmpeg = f;
    }
}

} // verus!
