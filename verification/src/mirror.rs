//! The text files written beside the database as an export mirror of the
//! settings and channels (the runtime reads the database, not these).
use crate::model::Channel;
use crate::settings::{
    hidden_keys, hidden_setting_keys, lookup_value, pairs_view, safe_keys, safe_setting_keys, stored_or_empty,
    views, vod_tool_keys, vod_tool_setting_keys,
};
use crate::text::{push_chars, push_str, string_of, trim, trim_chars, chars_of};
use vstd::prelude::*;

verus! {

pub open spec fn mirror_note() -> Seq<char> {
    "# Export/import compatibility mirror from data/soop.db. Runtime reads SQLite directly."@
}

/// Lines, each ended by CR LF.
pub open spec fn crlf_text(lines: Seq<Seq<char>>) -> Seq<char>
    decreases lines.len(),
{
    if lines.len() == 0 {
        Seq::empty()
    } else {
        crlf_text(lines.drop_last()) + lines.last() + seq!['\r', '\n']
    }
}

/// `KEY=value` for each key, the value empty when it is not stored.
pub open spec fn setting_lines(keys: Seq<Seq<char>>, values: Seq<(Seq<char>, Seq<char>)>) -> Seq<Seq<char>> {
    keys.map_values(|k: Seq<char>| k + seq!['='] + stored_or_empty(values, k))
}

/// The mirror of the LIVE settings: the note, then the editable settings
/// and the secrets.
pub open spec fn live_mirror_spec(values: Seq<(Seq<char>, Seq<char>)>) -> Seq<char> {
    crlf_text(seq![mirror_note()] + setting_lines(safe_keys() + hidden_keys(), values))
}

/// The mirror of the VOD tool settings.
pub open spec fn vod_mirror_spec(values: Seq<(Seq<char>, Seq<char>)>) -> Seq<char> {
    crlf_text(seq![mirror_note()] + setting_lines(vod_tool_keys(), values))
}

/// One channel line: `Y|name|account|outdir` (`N` when disabled), trimmed.
pub open spec fn channel_line(c: Channel) -> Seq<char> {
    (if c.enabled { seq!['Y'] } else { seq!['N'] }) + seq!['|'] + trim(c.name@) + seq!['|'] + trim(c.account@)
        + seq!['|'] + trim(c.outdir@)
}

/// The mirror of the channels: the note, the column names, a line each.
pub open spec fn channels_mirror_spec(channels: Seq<Channel>) -> Seq<char> {
    crlf_text(
        seq![mirror_note(), "# ENABLED|NAME|ACCOUNT|OUTDIR"@] + channels.map_values(|c: Channel| channel_line(c)),
    )
}

fn push_crlf_line(out: &mut Vec<char>, line: &[char])
    ensures
        final(out)@ == old(out)@ + line@ + seq!['\r', '\n'],
{
    push_chars(out, line);
    out.push('\r');
    out.push('\n');
}

/// Appends `KEY=value` lines for the keys.
fn push_setting_lines(out: &mut Vec<char>, keys: &[&str], values: &[(String, String)])
    ensures
        final(out)@ == old(out)@ + crlf_text(setting_lines(views(keys@), pairs_view(values@))),
{
    let ghost start = out@;
    let ghost ks = views(keys@);
    let ghost u = pairs_view(values@);
    let mut i: usize = 0;
    while i < keys.len()
        invariant
            i <= keys.len(),
            ks == views(keys@),
            u == pairs_view(values@),
            out@ == start + crlf_text(setting_lines(ks.take(i as int), u)),
        decreases keys.len() - i,
    {
        let mut line: Vec<char> = Vec::new();
        push_str(&mut line, keys[i]);
        line.push('=');
        match lookup_value(values, keys[i]) {
            Some(v) => push_str(&mut line, v.as_str()),
            None => {},
        }
        assert(line@ =~= ks[i as int] + seq!['='] + stored_or_empty(u, ks[i as int]));
        push_crlf_line(out, line.as_slice());
        proof {
            let l = setting_lines(ks.take(i + 1), u);
            assert(l.drop_last() =~= setting_lines(ks.take(i as int), u));
            assert(l.last() == line@);
        }
        i += 1;
    }
    assert(ks.take(keys.len() as int) =~= ks);
}

proof fn lemma_crlf_one(line: Seq<char>)
    ensures
        crlf_text(seq![line]) == line + seq!['\r', '\n'],
{
    reveal_with_fuel(crlf_text, 2);
    assert(seq![line].drop_last() =~= Seq::<Seq<char>>::empty());
    assert(Seq::<char>::empty() + line + seq!['\r', '\n'] =~= line + seq!['\r', '\n']);
}

proof fn lemma_crlf_concat(a: Seq<Seq<char>>, b: Seq<Seq<char>>)
    ensures
        crlf_text(a + b) == crlf_text(a) + crlf_text(b),
    decreases b.len(),
{
    if b.len() == 0 {
        assert(a + b =~= a);
    } else {
        assert((a + b).drop_last() =~= a + b.drop_last());
        lemma_crlf_concat(a, b.drop_last());
    }
}

proof fn lemma_setting_lines_concat(a: Seq<Seq<char>>, b: Seq<Seq<char>>, u: Seq<(Seq<char>, Seq<char>)>)
    ensures
        setting_lines(a + b, u) == setting_lines(a, u) + setting_lines(b, u),
{
    assert(setting_lines(a + b, u) =~= setting_lines(a, u) + setting_lines(b, u));
}

/// The text of the LIVE settings mirror (see `live_mirror_spec`).
pub fn live_settings_mirror(values: &[(String, String)]) -> (r: String)
    ensures
        r@ == live_mirror_spec(pairs_view(values@)),
{
    let mut out: Vec<char> = Vec::new();
    let note = chars_of("# Export/import compatibility mirror from data/soop.db. Runtime reads SQLite directly.");
    push_crlf_line(&mut out, note.as_slice());
    let safe = safe_setting_keys();
    let hidden = hidden_setting_keys();
    push_setting_lines(&mut out, safe.as_slice(), values);
    push_setting_lines(&mut out, hidden.as_slice(), values);
    proof {
        let u = pairs_view(values@);
        let s = setting_lines(safe_keys(), u);
        let h = setting_lines(hidden_keys(), u);
        lemma_setting_lines_concat(safe_keys(), hidden_keys(), u);
        lemma_crlf_concat(seq![mirror_note()], s + h);
        lemma_crlf_concat(s, h);
        lemma_crlf_one(mirror_note());
        assert(out@ =~= live_mirror_spec(u));
    }
    string_of(out.as_slice())
}

/// The text of the VOD tool settings mirror (see `vod_mirror_spec`).
pub fn vod_settings_mirror(values: &[(String, String)]) -> (r: String)
    ensures
        r@ == vod_mirror_spec(pairs_view(values@)),
{
    let mut out: Vec<char> = Vec::new();
    let note = chars_of("# Export/import compatibility mirror from data/soop.db. Runtime reads SQLite directly.");
    push_crlf_line(&mut out, note.as_slice());
    let keys = vod_tool_setting_keys();
    push_setting_lines(&mut out, keys.as_slice(), values);
    proof {
        let u = pairs_view(values@);
        lemma_crlf_concat(seq![mirror_note()], setting_lines(vod_tool_keys(), u));
        lemma_crlf_one(mirror_note());
        assert(out@ =~= vod_mirror_spec(u));
    }
    string_of(out.as_slice())
}

/// The text of the channels mirror (see `channels_mirror_spec`).
pub fn channels_mirror(channels: &[Channel]) -> (r: String)
    ensures
        r@ == channels_mirror_spec(channels@),
{
    let mut out: Vec<char> = Vec::new();
    let note = chars_of("# Export/import compatibility mirror from data/soop.db. Runtime reads SQLite directly.");
    let columns = chars_of("# ENABLED|NAME|ACCOUNT|OUTDIR");
    push_crlf_line(&mut out, note.as_slice());
    push_crlf_line(&mut out, columns.as_slice());
    let ghost head = seq![mirror_note(), "# ENABLED|NAME|ACCOUNT|OUTDIR"@];
    proof {
        lemma_crlf_one(mirror_note());
        assert(head.drop_last() =~= seq![mirror_note()]);
        assert(out@ =~= crlf_text(head));
    }
    let ghost lines = channels@.map_values(|c: Channel| channel_line(c));
    let mut i: usize = 0;
    while i < channels.len()
        invariant
            i <= channels.len(),
            lines == channels@.map_values(|c: Channel| channel_line(c)),
            out@ == crlf_text(head + lines.take(i as int)),
        decreases channels.len() - i,
    {
        let c = &channels[i];
        let mut line: Vec<char> = Vec::new();
        line.push(if c.enabled { 'Y' } else { 'N' });
        line.push('|');
        push_chars(&mut line, trim_chars(chars_of(c.name.as_str()).as_slice()).as_slice());
        line.push('|');
        push_chars(&mut line, trim_chars(chars_of(c.account.as_str()).as_slice()).as_slice());
        line.push('|');
        push_chars(&mut line, trim_chars(chars_of(c.outdir.as_str()).as_slice()).as_slice());
        assert(line@ =~= channel_line(*c));
        push_crlf_line(&mut out, line.as_slice());
        proof {
            assert((head + lines.take(i + 1)).drop_last() =~= head + lines.take(i as int));
            assert((head + lines.take(i + 1)).last() == lines[i as int]);
        }
        i += 1;
    }
    assert(lines.take(channels.len() as int) =~= lines);
    string_of(out.as_slice())
}

} // verus!
