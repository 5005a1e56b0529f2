//! Decisions of the LIVE watcher: how channels are keyed and named, how a
//! recorder exit is judged, the stream password registry, and the state
//! machine that turns probe and recorder events into the next channel
//! state and the action the runtime performs.
use crate::model::{Channel, ChannelRuntimeStatus, ChannelView, channels_view};
use crate::platform::PlatformId;
use crate::settings::{lookup, lookup_value, pairs_view};
use crate::text::{
    char_is_control, char_is_ws, chars_of, chars_eq, eq_ignore_case, format_i64, is_control, is_ws,
    lower_chars, lower_seq, owned, parse_u64, parse_u64_spec, push_chars, push_str, signed_decimal,
    str_eq, str_eq_ignore_case, string_of, trim, trim_chars, upper_chars, upper_seq,
};
use vstd::prelude::*;

verus! {

// ---------------------------------------------------------------------------
// Channel keys
// ---------------------------------------------------------------------------

/// `PLATFORM:account`, the account trimmed and lower-cased.
pub open spec fn channel_key_spec(platform: PlatformId, account: Seq<char>) -> Seq<char> {
    platform.spec_name() + seq![':'] + lower_seq(trim(account))
}

/// The key of a channel among the watched channels: accounts are compared
/// without case and within their platform.
pub fn channel_key(platform: PlatformId, account: &str) -> (r: String)
    ensures
        r@ == channel_key_spec(platform, account@),
{
    let mut v: Vec<char> = Vec::new();
    push_str(&mut v, platform.as_str());
    v.push(':');
    let a = chars_of(account);
    let t = trim_chars(a.as_slice());
    let l = lower_chars(t.as_slice());
    push_chars(&mut v, l.as_slice());
    assert(v@ =~= channel_key_spec(platform, account@));
    string_of(v.as_slice())
}

/// Whether an enabled SOOP channel is among the channels, which makes the
/// SOOP login and Worker credentials necessary.
pub open spec fn require_soop_spec(cs: Seq<ChannelView>) -> bool {
    exists|i: int| 0 <= i < cs.len() && (#[trigger] cs[i]).enabled && cs[i].platform == PlatformId::Soop
}

pub fn channels_require_soop(channels: &[Channel]) -> (r: bool)
    ensures
        r == require_soop_spec(channels_view(channels@)),
{
    let ghost cs = channels_view(channels@);
    let mut i: usize = 0;
    while i < channels.len()
        invariant
            i <= channels.len(),
            cs == channels_view(channels@),
            forall|j: int| 0 <= j < i ==> !((#[trigger] cs[j]).enabled && cs[j].platform == PlatformId::Soop),
        decreases channels.len() - i,
    {
        assert(cs[i as int] == channels@[i as int]@);
        if channels[i].enabled && channels[i].platform == PlatformId::Soop {
            return true;
        }
        i += 1;
    }
    false
}

// ---------------------------------------------------------------------------
// Recorder exits
// ---------------------------------------------------------------------------

/// Whether a recorder exit was normal, and the reason recorded for it.
pub open spec fn exit_outcome_spec(code: Option<i32>) -> (bool, Seq<char>) {
    match code {
        Some(c) => if c == 0 {
            (true, "NORMAL"@)
        } else {
            (false, "RECORDER EXIT CODE="@ + signed_decimal(c as int))
        },
        None => (false, "RECORDER EXIT CODE=unknown"@),
    }
}

pub fn recording_exit_outcome(code: Option<i32>) -> (r: (bool, String))
    ensures
        r.0 == exit_outcome_spec(code).0,
        r.1@ == exit_outcome_spec(code).1,
{
    match code {
        Some(c) => {
            if c == 0 {
                (true, owned("NORMAL"))
            } else {
                let mut v: Vec<char> = Vec::new();
                push_str(&mut v, "RECORDER EXIT CODE=");
                let n = format_i64(c as i64);
                push_str(&mut v, n.as_str());
                (false, string_of(v.as_slice()))
            }
        },
        None => (false, owned("RECORDER EXIT CODE=unknown")),
    }
}

// ---------------------------------------------------------------------------
// Settings read by the watcher
// ---------------------------------------------------------------------------

/// An integer setting: the stored value when it parses, else the default.
pub open spec fn int_setting(values: Seq<(Seq<char>, Seq<char>)>, key: Seq<char>, default: u64) -> u64 {
    match lookup(values, key) {
        Some(v) => match parse_u64_spec(v) {
            Some(n) => n,
            None => default,
        },
        None => default,
    }
}

pub fn int_or_default(values: &[(String, String)], key: &str, default: u64) -> (r: u64)
    ensures
        r == int_setting(pairs_view(values@), key@, default),
{
    match lookup_value(values, key) {
        Some(v) => match parse_u64(v.as_str()) {
            Some(n) => n,
            None => default,
        },
        None => default,
    }
}

// ---------------------------------------------------------------------------
// Channel list signature
// ---------------------------------------------------------------------------

/// One channel as it enters the signature of the channel list:
/// `PLATFORM|Y or N|name|lower-cased account|output directory`.
pub open spec fn channel_line(c: ChannelView) -> Seq<char> {
    c.platform.spec_name() + seq!['|'] + (if c.enabled {
        seq!['Y']
    } else {
        seq!['N']
    }) + seq!['|'] + c.name + seq!['|'] + lower_seq(c.account) + seq!['|'] + c.outdir
}

/// The lines of the channels joined by line feeds.
pub open spec fn signature_spec(cs: Seq<ChannelView>) -> Seq<char>
    decreases cs.len(),
{
    if cs.len() == 0 {
        Seq::empty()
    } else if cs.len() == 1 {
        channel_line(cs[0])
    } else {
        signature_spec(cs.drop_last()) + seq!['\n'] + channel_line(cs.last())
    }
}

fn push_channel_line(out: &mut Vec<char>, c: &Channel)
    ensures
        final(out)@ == old(out)@ + channel_line(c@),
{
    push_str(out, c.platform.as_str());
    out.push('|');
    out.push(if c.enabled { 'Y' } else { 'N' });
    out.push('|');
    push_str(out, c.name.as_str());
    out.push('|');
    let a = chars_of(c.account.as_str());
    let l = lower_chars(a.as_slice());
    push_chars(out, l.as_slice());
    out.push('|');
    push_str(out, c.outdir.as_str());
    assert(final(out)@ =~= old(out)@ + channel_line(c@));
}

/// What the watcher compares to notice that the channel list changed.
pub fn channel_signature(channels: &[Channel]) -> (r: String)
    ensures
        r@ == signature_spec(channels_view(channels@)),
{
    let ghost cs = channels_view(channels@);
    let mut out: Vec<char> = Vec::new();
    let mut i: usize = 0;
    while i < channels.len()
        invariant
            i <= channels.len(),
            cs == channels_view(channels@),
            out@ == signature_spec(cs.take(i as int)),
        decreases channels.len() - i,
    {
        let ghost before = out@;
        if i > 0 {
            out.push('\n');
        }
        push_channel_line(&mut out, &channels[i]);
        assert(cs.take(i + 1).drop_last() =~= cs.take(i as int));
        assert(cs.take(i + 1).last() == channels@[i as int]@);
        if i == 0 {
            assert(before =~= Seq::<char>::empty());
            assert(out@ =~= channel_line(cs.take(1)[0]));
        }
        i += 1;
    }
    assert(cs.take(channels.len() as int) =~= cs);
    string_of(out.as_slice())
}

// ---------------------------------------------------------------------------
// File names
// ---------------------------------------------------------------------------

/// Characters that Windows does not allow in file names.
pub open spec fn reserved_char(c: char) -> bool {
    c == '\\' || c == '/' || c == ':' || c == '*' || c == '?' || c == '"' || c == '<' || c == '>'
        || c == '|'
}

/// The text without control characters, each reserved character replaced
/// by `_`.
pub open spec fn clean_chars(s: Seq<char>) -> Seq<char>
    decreases s.len(),
{
    if s.len() == 0 {
        s
    } else {
        let r = clean_chars(s.drop_last());
        let c = s.last();
        if is_control(c) {
            r
        } else if reserved_char(c) {
            r.push('_')
        } else {
            r.push(c)
        }
    }
}

/// Reading a text word by word: the words so far joined by single
/// spaces, whether a word was read, and whether white space followed it.
pub open spec fn squeeze_state(s: Seq<char>) -> (Seq<char>, bool, bool)
    decreases s.len(),
{
    if s.len() == 0 {
        (Seq::empty(), false, false)
    } else {
        let (out, seen, gap) = squeeze_state(s.drop_last());
        let c = s.last();
        if is_ws(c) {
            (out, seen, seen)
        } else {
            ((if gap {
                out.push(' ')
            } else {
                out
            }).push(c), true, false)
        }
    }
}

/// `split_whitespace().join(" ")`: the words of the text, separated by
/// single spaces.
pub open spec fn squeeze(s: Seq<char>) -> Seq<char> {
    squeeze_state(s).0
}

/// `trim_end_matches('.')`.
pub open spec fn trim_end_dots(s: Seq<char>) -> Seq<char>
    decreases s.len(),
{
    if s.len() > 0 && s.last() == '.' {
        trim_end_dots(s.drop_last())
    } else {
        s
    }
}

/// Device names that Windows reserves.
pub open spec fn reserved_names() -> Seq<Seq<char>> {
    seq![
        "CON"@, "PRN"@, "AUX"@, "NUL"@, "COM1"@, "COM2"@, "COM3"@, "COM4"@, "COM5"@, "COM6"@,
        "COM7"@, "COM8"@, "COM9"@, "LPT1"@, "LPT2"@, "LPT3"@, "LPT4"@, "LPT5"@, "LPT6"@, "LPT7"@,
        "LPT8"@, "LPT9"@,
    ]
}

/// The text cleaned for a file name: reserved characters replaced,
/// control characters dropped, white space squeezed, trailing dots
/// dropped, `UNKNOWN` when nothing is left, at most `max` characters.
pub open spec fn safe_stem_spec(value: Seq<char>, max: nat) -> Seq<char> {
    let a = trim_end_dots(trim(squeeze(clean_chars(value))));
    let b = if a.len() == 0 {
        "UNKNOWN"@
    } else {
        a
    };
    if b.len() > max {
        trim_end_dots(trim(b.take(max as int)))
    } else {
        b
    }
}

/// A file name made of a channel name or title: reserved characters
/// replaced, control characters dropped, white space squeezed, trailing
/// dots dropped, `UNKNOWN` when nothing is left, at most `max` characters,
/// and `_` before a reserved device name.
pub open spec fn safe_name_spec(value: Seq<char>, max: nat) -> Seq<char> {
    let c = safe_stem_spec(value, max);
    if reserved_names().contains(upper_seq(c)) {
        seq!['_'] + c
    } else {
        c
    }
}

fn clean(v: &[char]) -> (r: Vec<char>)
    ensures
        r@ == clean_chars(v@),
{
    let mut r: Vec<char> = Vec::new();
    let mut i: usize = 0;
    while i < v.len()
        invariant
            i <= v.len(),
            r@ == clean_chars(v@.take(i as int)),
        decreases v.len() - i,
    {
        let c = v[i];
        assert(v@.take(i + 1).drop_last() =~= v@.take(i as int));
        if char_is_control(c) {
        } else if c == '\\' || c == '/' || c == ':' || c == '*' || c == '?' || c == '"' || c == '<'
            || c == '>' || c == '|' {
            r.push('_');
        } else {
            r.push(c);
        }
        i += 1;
    }
    assert(v@.take(v.len() as int) =~= v@);
    r
}

fn squeeze_ws(v: &[char]) -> (r: Vec<char>)
    ensures
        r@ == squeeze(v@),
{
    let mut out: Vec<char> = Vec::new();
    let mut seen = false;
    let mut gap = false;
    let mut i: usize = 0;
    while i < v.len()
        invariant
            i <= v.len(),
            squeeze_state(v@.take(i as int)) == (out@, seen, gap),
        decreases v.len() - i,
    {
        let c = v[i];
        assert(v@.take(i + 1).drop_last() =~= v@.take(i as int));
        if char_is_ws(c) {
            gap = seen;
        } else {
            if gap {
                out.push(' ');
            }
            out.push(c);
            seen = true;
            gap = false;
        }
        i += 1;
    }
    assert(v@.take(v.len() as int) =~= v@);
    out
}

fn without_end_dots(v: &[char]) -> (r: Vec<char>)
    ensures
        r@ == trim_end_dots(v@),
{
    let mut j: usize = v.len();
    assert(v@.subrange(0, j as int) =~= v@);
    while j > 0 && v[j - 1] == '.'
        invariant
            j <= v.len(),
            trim_end_dots(v@) == trim_end_dots(v@.subrange(0, j as int)),
        decreases j,
    {
        assert(v@.subrange(0, j as int).drop_last() =~= v@.subrange(0, j - 1));
        j -= 1;
    }
    slice_vec_chars(v, j)
}

fn slice_vec_chars(v: &[char], j: usize) -> (r: Vec<char>)
    requires
        j <= v.len(),
    ensures
        r@ == v@.subrange(0, j as int),
{
    crate::text::slice_vec(v, 0, j)
}

fn is_reserved_name(u: &[char]) -> (r: bool)
    ensures
        r == reserved_names().contains(u@),
{
    let names = vec![
        "CON", "PRN", "AUX", "NUL", "COM1", "COM2", "COM3", "COM4", "COM5", "COM6", "COM7", "COM8",
        "COM9", "LPT1", "LPT2", "LPT3", "LPT4", "LPT5", "LPT6", "LPT7", "LPT8", "LPT9",
    ];
    assert(crate::settings::views(names@) =~= reserved_names());
    let s = string_of(u);
    crate::settings::key_in(names.as_slice(), s.as_str())
}

/// A safe file name (see `safe_name_spec`).
pub fn safe_name(value: &str, max: usize) -> (r: String)
    ensures
        r@ == safe_name_spec(value@, max as nat),
{
    let c = safe_stem(value, max);
    let u = upper_chars(c.as_slice());
    if is_reserved_name(u.as_slice()) {
        let mut out: Vec<char> = Vec::new();
        out.push('_');
        push_chars(&mut out, c.as_slice());
        assert(out@ =~= seq!['_'] + c@);
        string_of(out.as_slice())
    } else {
        string_of(c.as_slice())
    }
}

/// The text cleaned for a file name (see `safe_stem_spec`).
pub fn safe_stem(value: &str, max: usize) -> (r: Vec<char>)
    ensures
        r@ == safe_stem_spec(value@, max as nat),
{
    let v = chars_of(value);
    let c = clean(v.as_slice());
    let q = squeeze_ws(c.as_slice());
    let t = trim_chars(q.as_slice());
    let a = without_end_dots(t.as_slice());
    let b = if a.len() == 0 {
        chars_of("UNKNOWN")
    } else {
        a
    };
    if b.len() > max {
        let head = slice_vec_chars(b.as_slice(), max);
        assert(head@ =~= b@.take(max as int));
        let t2 = trim_chars(head.as_slice());
        without_end_dots(t2.as_slice())
    } else {
        b
    }
}

// ---------------------------------------------------------------------------
// Stream passwords
// ---------------------------------------------------------------------------

/// A stream password as stored: its key, the broadcast it was given for,
/// and the password.
pub type PasswordEntry = (String, String, String);

pub open spec fn entry_key(e: PasswordEntry) -> Seq<char> {
    e.0@
}

pub open spec fn has_key(es: Seq<PasswordEntry>, k: Seq<char>) -> bool {
    exists|i: int| 0 <= i < es.len() && entry_key(#[trigger] es[i]) == k
}

pub open spec fn keys_unique(es: Seq<PasswordEntry>) -> bool {
    forall|i: int, j: int| 0 <= i < es.len() && 0 <= j < es.len() && i != j ==> entry_key(#[trigger] es[i]) != entry_key(#[trigger] es[j])
}

/// The broadcast and password stored under `k`.
pub open spec fn entry_value(es: Seq<PasswordEntry>, k: Seq<char>) -> (Seq<char>, Seq<char>) {
    let i = choose|i: int| 0 <= i < es.len() && entry_key(#[trigger] es[i]) == k;
    (es[i].1@, es[i].2@)
}

pub open spec fn entries_map(es: Seq<PasswordEntry>) -> Map<Seq<char>, (Seq<char>, Seq<char>)> {
    Map::new(|k: Seq<char>| has_key(es, k), |k: Seq<char>| entry_value(es, k))
}

proof fn lemma_entry_value_at(es: Seq<PasswordEntry>, i: int)
    requires
        keys_unique(es),
        0 <= i < es.len(),
    ensures
        entry_value(es, entry_key(es[i])) == (es[i].1@, es[i].2@),
{
    let k = entry_key(es[i]);
    assert(0 <= i < es.len() && entry_key(es[i]) == k);
    let j = choose|j: int| 0 <= j < es.len() && entry_key(#[trigger] es[j]) == k;
    assert(i == j);
}

proof fn lemma_push_entry(es: Seq<PasswordEntry>, e: PasswordEntry)
    requires
        keys_unique(es),
        !has_key(es, entry_key(e)),
    ensures
        keys_unique(es.push(e)),
        entries_map(es.push(e)) == entries_map(es).insert(entry_key(e), (e.1@, e.2@)),
{
    let es2 = es.push(e);
    assert forall|i: int, j: int| 0 <= i < es2.len() && 0 <= j < es2.len() && i != j implies entry_key(
        #[trigger] es2[i],
    ) != entry_key(#[trigger] es2[j]) by {
        if i < es.len() && j < es.len() {
            assert(es2[i] == es[i] && es2[j] == es[j]);
        } else if i < es.len() {
            assert(es2[i] == es[i]);
        } else {
            assert(es2[j] == es[j]);
        }
    }
    let m1 = entries_map(es2);
    let m2 = entries_map(es).insert(entry_key(e), (e.1@, e.2@));
    assert forall|k: Seq<char>| m1.dom().contains(k) <==> m2.dom().contains(k) by {
        if has_key(es, k) {
            let i = choose|i: int| 0 <= i < es.len() && entry_key(#[trigger] es[i]) == k;
            assert(es2[i] == es[i]);
        }
        if has_key(es2, k) {
            let i = choose|i: int| 0 <= i < es2.len() && entry_key(#[trigger] es2[i]) == k;
            if i < es.len() {
                assert(es2[i] == es[i]);
            }
        }
        if k == entry_key(e) {
            assert(es2[es.len() as int] == e);
        }
    }
    assert forall|k: Seq<char>| m1.dom().contains(k) implies m1[k] == m2[k] by {
        let i = choose|i: int| 0 <= i < es2.len() && entry_key(#[trigger] es2[i]) == k;
        lemma_entry_value_at(es2, i);
        if i < es.len() {
            assert(es2[i] == es[i]);
            lemma_entry_value_at(es, i);
        } else {
            assert(es2[i] == e);
        }
    }
    assert(m1 =~= m2);
}

proof fn lemma_remove_entry(es: Seq<PasswordEntry>, i: int)
    requires
        keys_unique(es),
        0 <= i < es.len(),
    ensures
        keys_unique(es.remove(i)),
        entries_map(es.remove(i)) == entries_map(es).remove(entry_key(es[i])),
{
    let es2 = es.remove(i);
    let gone = entry_key(es[i]);
    assert forall|a: int| 0 <= a < es2.len() implies #[trigger] es2[a] == es[if a < i { a } else { a + 1 }] by {}
    assert forall|a: int, b: int| 0 <= a < es2.len() && 0 <= b < es2.len() && a != b implies entry_key(
        #[trigger] es2[a],
    ) != entry_key(#[trigger] es2[b]) by {
        assert(es2[a] == es[if a < i { a } else { a + 1 }]);
        assert(es2[b] == es[if b < i { b } else { b + 1 }]);
    }
    let m1 = entries_map(es2);
    let m2 = entries_map(es).remove(gone);
    assert forall|k: Seq<char>| m1.dom().contains(k) <==> m2.dom().contains(k) by {
        if has_key(es2, k) {
            let a = choose|a: int| 0 <= a < es2.len() && entry_key(#[trigger] es2[a]) == k;
            let b = if a < i { a } else { a + 1 };
            assert(es2[a] == es[b]);
            assert(b != i);
            assert(entry_key(es[b]) == k);
        }
        if has_key(es, k) && k != gone {
            let b = choose|b: int| 0 <= b < es.len() && entry_key(#[trigger] es[b]) == k;
            assert(b != i);
            let a = if b < i { b } else { b - 1 };
            assert(es2[a] == es[b]);
        }
    }
    assert forall|k: Seq<char>| m1.dom().contains(k) implies m1[k] == m2[k] by {
        let a = choose|a: int| 0 <= a < es2.len() && entry_key(#[trigger] es2[a]) == k;
        let b = if a < i { a } else { a + 1 };
        assert(es2[a] == es[b]);
        lemma_entry_value_at(es2, a);
        lemma_entry_value_at(es, b);
    }
    assert(m1 =~= m2);
}

/// The stream passwords users typed for protected broadcasts, kept in
/// memory only, one per channel key.
pub struct PasswordRegistry {
    entries: Vec<PasswordEntry>,
}

/// What a password look-up gives, and the registry after it: the password
/// when it was given for this broadcast; a password given for another
/// broadcast is forgotten.
pub open spec fn password_lookup(
    m: Map<Seq<char>, (Seq<char>, Seq<char>)>,
    key: Seq<char>,
    broadcast_id: Seq<char>,
) -> (Option<Seq<char>>, Map<Seq<char>, (Seq<char>, Seq<char>)>) {
    if m.dom().contains(key) {
        if m[key].0 == broadcast_id {
            (Some(m[key].1), m)
        } else {
            (None, m.remove(key))
        }
    } else {
        (None, m)
    }
}

impl View for PasswordRegistry {
    type V = Map<Seq<char>, (Seq<char>, Seq<char>)>;

    closed spec fn view(&self) -> Map<Seq<char>, (Seq<char>, Seq<char>)> {
        entries_map(self.entries@)
    }
}

fn find_entry(entries: &Vec<PasswordEntry>, key: &str) -> (r: Option<usize>)
    ensures
        match r {
            Some(i) => i < entries@.len() && entry_key(entries@[i as int]) == key@,
            None => !has_key(entries@, key@),
        },
{
    let mut i: usize = 0;
    while i < entries.len()
        invariant
            i <= entries.len(),
            forall|j: int| 0 <= j < i ==> entry_key(#[trigger] entries@[j]) != key@,
        decreases entries.len() - i,
    {
        if str_eq(entries[i].0.as_str(), key) {
            return Some(i);
        }
        i += 1;
    }
    None
}

impl PasswordRegistry {
    /// One entry per channel key.
    #[verifier::type_invariant]
    spec fn keys_unique_inv(self) -> bool {
        keys_unique(self.entries@)
    }

    pub fn new() -> (r: Self)
        ensures
            r@ == Map::<Seq<char>, (Seq<char>, Seq<char>)>::empty(),
    {
        let r = PasswordRegistry { entries: Vec::new() };
        assert(entries_map(r.entries@) =~= Map::<Seq<char>, (Seq<char>, Seq<char>)>::empty());
        r
    }

    /// The entries, taken out of the registry (left empty).
    fn take_entries(&mut self) -> (es: Vec<PasswordEntry>)
        ensures
            keys_unique(es@),
            entries_map(es@) == old(self)@,
    {
        proof {
            use_type_invariant(&*self);
        }
        let mut es: Vec<PasswordEntry> = Vec::new();
        std::mem::swap(&mut es, &mut self.entries);
        es
    }

    fn put_entries(&mut self, es: Vec<PasswordEntry>)
        requires
            keys_unique(es@),
        ensures
            final(self)@ == entries_map(es@),
    {
        self.entries = es;
    }

    /// Remembers `value` as the password of the channel's broadcast
    /// `broadcast_id`, in place of any password it had.
    pub fn insert(&mut self, platform: PlatformId, account: &str, broadcast_id: &str, value: &str)
        ensures
            final(self)@ == old(self)@.insert(
                channel_key_spec(platform, account@),
                (broadcast_id@, value@),
            ),
    {
        let key = channel_key(platform, account);
        let mut entries = self.take_entries();
        match find_entry(&entries, key.as_str()) {
            Some(i) => {
                let ghost es = entries@;
                proof {
                    lemma_remove_entry(es, i as int);
                }
                entries.remove(i);
            },
            None => {},
        }
        let e: PasswordEntry = (key, owned(broadcast_id), owned(value));
        let ghost es = entries@;
        assert(!has_key(es, entry_key(e))) by {
            if has_key(es, entry_key(e)) {
                let j = choose|j: int| 0 <= j < es.len() && entry_key(#[trigger] es[j]) == entry_key(e);
            }
        }
        proof {
            lemma_push_entry(es, e);
        }
        entries.push(e);
        self.put_entries(entries);
        assert(self@ =~= old(self)@.insert(channel_key_spec(platform, account@), (broadcast_id@, value@)));
    }

    /// The password for the channel's broadcast `broadcast_id`, if one was
    /// given for that broadcast; one given for another broadcast is
    /// forgotten.
    pub fn password_for(&mut self, platform: PlatformId, account: &str, broadcast_id: &str) -> (r: Option<String>)
        ensures
            opt_string(r) == password_lookup(old(self)@, channel_key_spec(platform, account@), broadcast_id@).0,
            final(self)@ == password_lookup(old(self)@, channel_key_spec(platform, account@), broadcast_id@).1,
    {
        let key = channel_key(platform, account);
        let mut entries = self.take_entries();
        let r = match find_entry(&entries, key.as_str()) {
            Some(i) => {
                proof {
                    lemma_entry_value_at(entries@, i as int);
                }
                if str_eq(entries[i].1.as_str(), broadcast_id) {
                    Some(owned(entries[i].2.as_str()))
                } else {
                    let ghost es = entries@;
                    proof {
                        lemma_remove_entry(es, i as int);
                    }
                    entries.remove(i);
                    None
                }
            },
            None => None,
        };
        self.put_entries(entries);
        r
    }

    /// Forgets the password of the channel.
    pub fn clear(&mut self, platform: PlatformId, account: &str)
        ensures
            final(self)@ == old(self)@.remove(channel_key_spec(platform, account@)),
    {
        let key = channel_key(platform, account);
        let mut entries = self.take_entries();
        match find_entry(&entries, key.as_str()) {
            Some(i) => {
                let ghost es = entries@;
                proof {
                    lemma_remove_entry(es, i as int);
                }
                entries.remove(i);
            },
            None => {
                assert(old(self)@ =~= old(self)@.remove(channel_key_spec(platform, account@)));
            },
        }
        self.put_entries(entries);
    }

    /// Forgets every password.
    pub fn clear_all(&mut self)
        ensures
            final(self)@ == Map::<Seq<char>, (Seq<char>, Seq<char>)>::empty(),
    {
        self.entries = Vec::new();
        assert(entries_map(self.entries@) =~= Map::<Seq<char>, (Seq<char>, Seq<char>)>::empty());
    }
}

pub open spec fn opt_string(o: Option<String>) -> Option<Seq<char>> {
    match o {
        Some(s) => Some(s@),
        None => None,
    }
}

/// A password given for a broadcast is what a look-up for that broadcast
/// gives back, and the look-up keeps it.
pub proof fn law_password_read_after_write(
    m: Map<Seq<char>, (Seq<char>, Seq<char>)>,
    key: Seq<char>,
    broadcast_id: Seq<char>,
    value: Seq<char>,
)
    ensures
        password_lookup(m.insert(key, (broadcast_id, value)), key, broadcast_id) == (
            Some(value),
            m.insert(key, (broadcast_id, value)),
        ),
{
}

/// A look-up for another broadcast gives nothing and forgets the
/// password, so a later look-up for the old broadcast gives nothing
/// either.
pub proof fn law_password_other_broadcast_forgets(
    m: Map<Seq<char>, (Seq<char>, Seq<char>)>,
    key: Seq<char>,
    given_for: Seq<char>,
    asked_for: Seq<char>,
    value: Seq<char>,
)
    requires
        given_for != asked_for,
    ensures
        password_lookup(m.insert(key, (given_for, value)), key, asked_for).0 == None::<Seq<char>>,
        password_lookup(
            password_lookup(m.insert(key, (given_for, value)), key, asked_for).1,
            key,
            given_for,
        ).0 == None::<Seq<char>>,
{
}

/// Passwords are kept per channel key: a write to one key leaves the
/// look-up of another key as it was.
pub proof fn law_password_keys_independent(
    m: Map<Seq<char>, (Seq<char>, Seq<char>)>,
    key: Seq<char>,
    other: Seq<char>,
    broadcast_id: Seq<char>,
    value: Seq<char>,
    asked_for: Seq<char>,
)
    requires
        key != other,
    ensures
        password_lookup(m.insert(key, (broadcast_id, value)), other, asked_for).0 == password_lookup(
            m,
            other,
            asked_for,
        ).0,
{
}

// ---------------------------------------------------------------------------
// Channel states
// ---------------------------------------------------------------------------

/// What the watcher shows for a channel.
#[derive(Debug, Clone, Copy, PartialEq, Eq, Structural)]
pub enum ChannelStatus {
    Unknown,
    Disabled,
    Offline,
    Auth,
    PasswordRequired,
    Paused,
    Recording,
    Error,
    LowDisk,
    Stalled,
    WatcherStopped,
}

impl ChannelStatus {
    pub open spec fn text(self) -> Seq<char> {
        match self {
            ChannelStatus::Unknown => "UNKNOWN"@,
            ChannelStatus::Disabled => "DISABLED"@,
            ChannelStatus::Offline => "OFFLINE"@,
            ChannelStatus::Auth => "AUTH"@,
            ChannelStatus::PasswordRequired => "PASSWORD_REQUIRED"@,
            ChannelStatus::Paused => "PAUSED"@,
            ChannelStatus::Recording => "RECORDING"@,
            ChannelStatus::Error => "ERROR"@,
            ChannelStatus::LowDisk => "LOW_DISK"@,
            ChannelStatus::Stalled => "STALLED"@,
            ChannelStatus::WatcherStopped => "WATCHER_STOPPED"@,
        }
    }

    /// The status as the UI and the history show it.
    pub fn as_str(self) -> (r: &'static str)
        ensures
            r@ == self.text(),
    {
        match self {
            ChannelStatus::Unknown => "UNKNOWN",
            ChannelStatus::Disabled => "DISABLED",
            ChannelStatus::Offline => "OFFLINE",
            ChannelStatus::Auth => "AUTH",
            ChannelStatus::PasswordRequired => "PASSWORD_REQUIRED",
            ChannelStatus::Paused => "PAUSED",
            ChannelStatus::Recording => "RECORDING",
            ChannelStatus::Error => "ERROR",
            ChannelStatus::LowDisk => "LOW_DISK",
            ChannelStatus::Stalled => "STALLED",
            ChannelStatus::WatcherStopped => "WATCHER_STOPPED",
        }
    }
}

/// A recording in progress, as the watcher knows it.
#[derive(Debug, Clone)]
pub struct RecordingInfo {
    /// The broadcast being recorded.
    pub bno: String,
    pub title: String,
    pub file: String,
    pub started_at: String,
}

/// The watcher's state of one channel.  Times are milliseconds of the
/// runtime's monotonic clock.
#[derive(Debug, Clone)]
pub struct ChannelState {
    pub channel: Channel,
    pub status: ChannelStatus,
    pub recording: Option<RecordingInfo>,
    pub last_broadcast_id: Option<String>,
    pub suppressed_broadcast_id: Option<String>,
    pub next_check: u64,
    pub detail: Option<String>,
}

/// `now` plus `secs` seconds (at least one), in milliseconds, saturating.
pub open spec fn deadline(now: u64, secs: u64) -> u64 {
    let s: int = if secs < 1 {
        1
    } else {
        secs as int
    };
    if now + s * 1000 > u64::MAX {
        u64::MAX
    } else {
        (now + s * 1000) as u64
    }
}

pub fn deadline_after(now: u64, secs: u64) -> (r: u64)
    ensures
        r == deadline(now, secs),
{
    let s: u64 = if secs < 1 {
        1
    } else {
        secs
    };
    match s.checked_mul(1000) {
        Some(ms) => now.saturating_add(ms),
        None => u64::MAX,
    }
}

/// The detail shown while a protected broadcast waits for its password.
pub open spec fn password_needed_text() -> Seq<char> {
    "방송 비밀번호 입력이 필요합니다. 비밀번호는 현재 방송 동안 메모리에만 유지됩니다."@
}

/// The detail shown when a protected stream could not be opened.
pub open spec fn password_rejected_text() -> Seq<char> {
    "방송 비밀번호가 올바르지 않거나 보호 스트림 확인에 실패했습니다. 다시 입력하세요."@
}

impl ChannelState {
    /// A channel that was just added: `UNKNOWN` (checked at once) when
    /// enabled, else `DISABLED`.
    pub fn new(channel: Channel, now: u64) -> (r: Self)
        ensures
            r.channel == channel,
            r.status == (if channel.enabled {
                ChannelStatus::Unknown
            } else {
                ChannelStatus::Disabled
            }),
            r.recording.is_none(),
            r.last_broadcast_id.is_none(),
            r.suppressed_broadcast_id.is_none(),
            r.next_check == now,
            r.detail.is_none(),
    {
        let status = if channel.enabled {
            ChannelStatus::Unknown
        } else {
            ChannelStatus::Disabled
        };
        ChannelState {
            channel,
            status,
            recording: None,
            last_broadcast_id: None,
            suppressed_broadcast_id: None,
            next_check: now,
            detail: None,
        }
    }
}

/// What the runtime does after an idle channel's LIVE check.
#[derive(Debug)]
pub enum PollAction {
    Nothing,
    /// Log in to the platform, then report with `after_login`.
    Login,
    /// Start recording the broadcast, then report with `after_start`.
    Start(crate::live::LiveBroadcast),
}

/// Whether an idle channel is due for a LIVE check; when it is, the next
/// check is scheduled one check interval later.
pub fn begin_poll(state: &mut ChannelState, now: u64, check_interval: u64) -> (r: bool)
    ensures
        r == (old(state).channel.enabled && old(state).recording.is_none() && now >= old(state).next_check),
        final(state).next_check == (if r {
            deadline(now, check_interval)
        } else {
            old(state).next_check
        }),
        final(state).channel == old(state).channel,
        final(state).status == old(state).status,
        final(state).recording == old(state).recording,
        final(state).last_broadcast_id == old(state).last_broadcast_id,
        final(state).suppressed_broadcast_id == old(state).suppressed_broadcast_id,
        final(state).detail == old(state).detail,
{
    if !state.channel.enabled || state.recording.is_some() || now < state.next_check {
        return false;
    }
    state.next_check = deadline_after(now, check_interval);
    true
}

/// Takes the LIVE check of an idle channel (`Err` when the check or the
/// platform session failed) and decides what follows:
/// offline clears the channel and its stream password; a required login
/// is asked for; a protected broadcast without its password waits for
/// one; a broadcast the user stopped stays paused; any other broadcast is
/// recorded.
#[verifier::spinoff_prover]
pub fn after_poll_probe(
    state: &mut ChannelState,
    passwords: &mut PasswordRegistry,
    probe: Result<crate::live::LiveProbe, String>,
) -> (r: PollAction)
    ensures
        final(state).recording == old(state).recording,
        final(state).next_check == old(state).next_check,
        final(state).channel.platform == old(state).channel.platform,
        final(state).channel.account == old(state).channel.account,
        final(state).channel.enabled == old(state).channel.enabled,
        final(state).channel.outdir == old(state).channel.outdir,
        match probe {
            Err(e) => {
                &&& r is Nothing
                &&& final(state).status == ChannelStatus::Error
                &&& opt_string(final(state).detail) == Some(e@)
                &&& final(state).last_broadcast_id == old(state).last_broadcast_id
                &&& final(state).suppressed_broadcast_id == old(state).suppressed_broadcast_id
                &&& final(state).channel == old(state).channel
                &&& final(passwords)@ == old(passwords)@
            },
            Ok(crate::live::LiveProbe::Offline) => {
                &&& r is Nothing
                &&& final(state).status == ChannelStatus::Offline
                &&& final(state).last_broadcast_id.is_none()
                &&& final(state).detail.is_none()
                &&& final(state).suppressed_broadcast_id == old(state).suppressed_broadcast_id
                &&& final(state).channel == old(state).channel
                &&& final(passwords)@ == old(passwords)@.remove(
                    channel_key_spec(old(state).channel.platform, old(state).channel.account@),
                )
            },
            Ok(crate::live::LiveProbe::AuthRequired) => {
                &&& r is Login
                &&& final(state).status == ChannelStatus::Auth
                &&& final(state).detail == old(state).detail
                &&& final(state).last_broadcast_id == old(state).last_broadcast_id
                &&& final(state).suppressed_broadcast_id == old(state).suppressed_broadcast_id
                &&& final(state).channel == old(state).channel
                &&& final(passwords)@ == old(passwords)@
            },
            Ok(crate::live::LiveProbe::Live(live)) => {
                let key = channel_key_spec(old(state).channel.platform, old(state).channel.account@);
                let renamed = eq_ignore_case(old(state).channel.name@, old(state).channel.account@)
                    && live.channel_name@.len() > 0;
                let looked = password_lookup(old(passwords)@, key, live.id@);
                &&& final(state).channel.name@ == (if renamed {
                    live.channel_name@
                } else {
                    old(state).channel.name@
                })
                &&& final(passwords)@ == (if live.password_required {
                    looked.1
                } else {
                    old(passwords)@.remove(key)
                })
                &&& if live.password_required && looked.0 is None {
                    &&& r is Nothing
                    &&& final(state).status == ChannelStatus::PasswordRequired
                    &&& opt_string(final(state).last_broadcast_id) == Some(live.id@)
                    &&& opt_string(final(state).detail) == Some(password_needed_text())
                    &&& final(state).suppressed_broadcast_id == old(state).suppressed_broadcast_id
                } else if opt_string(old(state).suppressed_broadcast_id) == Some(live.id@) {
                    &&& r is Nothing
                    &&& final(state).status == ChannelStatus::Paused
                    &&& opt_string(final(state).last_broadcast_id) == Some(live.id@)
                    &&& final(state).detail == old(state).detail
                    &&& final(state).suppressed_broadcast_id == old(state).suppressed_broadcast_id
                } else {
                    &&& r matches PollAction::Start(b) && b == live
                    &&& final(state).status == old(state).status
                    &&& final(state).last_broadcast_id == old(state).last_broadcast_id
                    &&& final(state).detail == old(state).detail
                    &&& final(state).suppressed_broadcast_id.is_none()
                }
            },
        },
{
    match probe {
        Err(e) => {
            state.status = ChannelStatus::Error;
            state.detail = Some(e);
            PollAction::Nothing
        },
        Ok(crate::live::LiveProbe::Offline) => {
            passwords.clear(state.channel.platform, state.channel.account.as_str());
            state.status = ChannelStatus::Offline;
            state.last_broadcast_id = None;
            state.detail = None;
            PollAction::Nothing
        },
        Ok(crate::live::LiveProbe::AuthRequired) => {
            state.status = ChannelStatus::Auth;
            PollAction::Login
        },
        Ok(crate::live::LiveProbe::Live(live)) => {
            if str_eq_ignore_case(state.channel.name.as_str(), state.channel.account.as_str())
                && !live.channel_name.as_str().is_empty() {
                state.channel.name = owned(live.channel_name.as_str());
            }
            if !live.password_required {
                passwords.clear(state.channel.platform, state.channel.account.as_str());
            } else {
                let known = passwords.password_for(
                    state.channel.platform,
                    state.channel.account.as_str(),
                    live.id.as_str(),
                );
                if known.is_none() {
                    state.status = ChannelStatus::PasswordRequired;
                    state.last_broadcast_id = Some(owned(live.id.as_str()));
                    state.detail = Some(
                        owned(
                            "방송 비밀번호 입력이 필요합니다. 비밀번호는 현재 방송 동안 메모리에만 유지됩니다.",
                        ),
                    );
                    return PollAction::Nothing;
                }
            }
            let suppressed_here = match &state.suppressed_broadcast_id {
                Some(s) => str_eq(s.as_str(), live.id.as_str()),
                None => false,
            };
            if suppressed_here {
                state.status = ChannelStatus::Paused;
                state.last_broadcast_id = Some(owned(live.id.as_str()));
                return PollAction::Nothing;
            }
            state.suppressed_broadcast_id = None;
            PollAction::Start(live)
        },
    }
}

/// After the login that an `AUTH` answer asked for: on success the channel
/// is checked again at once; on failure the error is shown.
pub fn after_login(state: &mut ChannelState, result: Result<(), String>, now: u64)
    ensures
        final(state).channel == old(state).channel,
        final(state).status == old(state).status,
        final(state).recording == old(state).recording,
        final(state).last_broadcast_id == old(state).last_broadcast_id,
        final(state).suppressed_broadcast_id == old(state).suppressed_broadcast_id,
        match result {
            Ok(()) => final(state).next_check == now && final(state).detail == old(state).detail,
            Err(e) => final(state).next_check == old(state).next_check && opt_string(
                final(state).detail,
            ) == Some("login failed: "@ + e@),
        },
{
    match result {
        Ok(()) => {
            state.next_check = now;
        },
        Err(e) => {
            state.detail = Some(crate::text::concat2("login failed: ", e.as_str()));
        },
    }
}

/// After trying to start recording a broadcast: the channel records it, or
/// is checked again one retry interval later; a protected stream that
/// could not be opened asks for its password again.
pub fn after_start(
    state: &mut ChannelState,
    passwords: &mut PasswordRegistry,
    live: &crate::live::LiveBroadcast,
    result: Result<RecordingInfo, String>,
    now: u64,
    retry_interval: u64,
)
    ensures
        final(state).channel == old(state).channel,
        final(state).suppressed_broadcast_id == old(state).suppressed_broadcast_id,
        match result {
            Ok(rec) => {
                &&& final(state).status == ChannelStatus::Recording
                &&& opt_string(final(state).last_broadcast_id) == Some(live.id@)
                &&& final(state).detail.is_none()
                &&& final(state).recording == Some(rec)
                &&& final(state).next_check == old(state).next_check
                &&& final(passwords)@ == old(passwords)@
            },
            Err(e) => {
                &&& final(state).next_check == deadline(now, retry_interval)
                &&& final(state).recording == old(state).recording
                &&& if live.password_required {
                    &&& final(passwords)@ == old(passwords)@.remove(
                        channel_key_spec(old(state).channel.platform, old(state).channel.account@),
                    )
                    &&& final(state).status == ChannelStatus::PasswordRequired
                    &&& opt_string(final(state).last_broadcast_id) == Some(live.id@)
                    &&& opt_string(final(state).detail) == Some(password_rejected_text())
                } else {
                    &&& final(passwords)@ == old(passwords)@
                    &&& final(state).status == ChannelStatus::Error
                    &&& final(state).last_broadcast_id == old(state).last_broadcast_id
                    &&& opt_string(final(state).detail) == Some(e@)
                }
            },
        },
{
    match result {
        Ok(rec) => {
            state.last_broadcast_id = Some(owned(live.id.as_str()));
            state.status = ChannelStatus::Recording;
            state.detail = None;
            state.recording = Some(rec);
        },
        Err(e) => {
            state.next_check = deadline_after(now, retry_interval);
            if live.password_required {
                passwords.clear(state.channel.platform, state.channel.account.as_str());
                state.status = ChannelStatus::PasswordRequired;
                state.last_broadcast_id = Some(owned(live.id.as_str()));
                state.detail = Some(
                    owned(
                        "방송 비밀번호가 올바르지 않거나 보호 스트림 확인에 실패했습니다. 다시 입력하세요.",
                    ),
                );
            } else {
                state.status = ChannelStatus::Error;
                state.detail = Some(e);
            }
        },
    }
}

// ---------------------------------------------------------------------------
// Channels that are recording
// ---------------------------------------------------------------------------

/// What a LIVE check of a recording channel means for the recording.
#[derive(Debug, Clone, Copy, PartialEq, Eq, Structural)]
pub enum RecheckOutcome {
    /// Keep recording (the same broadcast, or the check was inconclusive).
    Keep,
    /// The broadcast ended: stop recording.
    Ended,
    /// Another broadcast is on air: stop recording and look again.
    Changed,
}

pub open spec fn recheck_outcome_spec(recording_id: Seq<char>, probe: Result<crate::live::LiveProbe, String>) -> RecheckOutcome {
    match probe {
        Ok(crate::live::LiveProbe::Offline) => RecheckOutcome::Ended,
        Ok(crate::live::LiveProbe::Live(live)) => if live.id@ != recording_id {
            RecheckOutcome::Changed
        } else {
            RecheckOutcome::Keep
        },
        _ => RecheckOutcome::Keep,
    }
}

/// Whether a recording channel is due for a LIVE check; when it is, the
/// next check is scheduled one check interval later.
pub fn begin_recheck(state: &mut ChannelState, now: u64, check_interval: u64) -> (r: bool)
    ensures
        r == (old(state).recording.is_some() && now >= old(state).next_check),
        final(state).next_check == (if r {
            deadline(now, check_interval)
        } else {
            old(state).next_check
        }),
        final(state).channel == old(state).channel,
        final(state).status == old(state).status,
        final(state).recording == old(state).recording,
        final(state).last_broadcast_id == old(state).last_broadcast_id,
        final(state).suppressed_broadcast_id == old(state).suppressed_broadcast_id,
        final(state).detail == old(state).detail,
{
    if state.recording.is_none() || now < state.next_check {
        return false;
    }
    state.next_check = deadline_after(now, check_interval);
    true
}

/// What the LIVE check of a recording channel means (the runtime stops
/// the recorder unless it is `Keep`).
pub fn recheck_outcome(state: &ChannelState, probe: &Result<crate::live::LiveProbe, String>) -> (r: RecheckOutcome)
    requires
        state.recording.is_some(),
    ensures
        r == recheck_outcome_spec(state.recording.unwrap().bno@, *probe),
{
    let bno = match &state.recording {
        Some(rec) => rec.bno.as_str(),
        None => "",
    };
    match probe {
        Ok(crate::live::LiveProbe::Offline) => RecheckOutcome::Ended,
        Ok(crate::live::LiveProbe::Live(live)) => {
            if str_eq(live.id.as_str(), bno) {
                RecheckOutcome::Keep
            } else {
                RecheckOutcome::Changed
            }
        },
        _ => RecheckOutcome::Keep,
    }
}

/// The state after the LIVE check of a recording channel, the recorder
/// having been stopped where the outcome asked for it: an ended broadcast
/// leaves the channel `OFFLINE`; another broadcast leaves it `UNKNOWN`
/// and checked again at once; the stream password is forgotten either
/// way.
pub fn after_recheck(
    state: &mut ChannelState,
    passwords: &mut PasswordRegistry,
    probe: Result<crate::live::LiveProbe, String>,
    now: u64,
)
    requires
        old(state).recording.is_some(),
    ensures
        final(state).channel == old(state).channel,
        final(state).suppressed_broadcast_id == old(state).suppressed_broadcast_id,
        match recheck_outcome_spec(old(state).recording.unwrap().bno@, probe) {
            RecheckOutcome::Keep => *final(state) == *old(state) && final(passwords)@ == old(passwords)@,
            RecheckOutcome::Ended => {
                &&& final(passwords)@ == old(passwords)@.remove(
                    channel_key_spec(old(state).channel.platform, old(state).channel.account@),
                )
                &&& final(state).recording.is_none()
                &&& final(state).status == ChannelStatus::Offline
                &&& final(state).last_broadcast_id.is_none()
                &&& final(state).detail.is_none()
                &&& final(state).next_check == old(state).next_check
            },
            RecheckOutcome::Changed => {
                &&& final(passwords)@ == old(passwords)@.remove(
                    channel_key_spec(old(state).channel.platform, old(state).channel.account@),
                )
                &&& final(state).recording.is_none()
                &&& final(state).status == ChannelStatus::Unknown
                &&& opt_string(final(state).last_broadcast_id) == Some(probe->Ok_0->Live_0.id@)
                &&& final(state).detail.is_none()
                &&& final(state).next_check == now
            },
        },
{
    let outcome = recheck_outcome(state, &probe);
    match outcome {
        RecheckOutcome::Keep => {},
        RecheckOutcome::Ended => {
            passwords.clear(state.channel.platform, state.channel.account.as_str());
            state.recording = None;
            state.status = ChannelStatus::Offline;
            state.last_broadcast_id = None;
            state.detail = None;
        },
        RecheckOutcome::Changed => {
            passwords.clear(state.channel.platform, state.channel.account.as_str());
            state.recording = None;
            state.status = ChannelStatus::Unknown;
            state.last_broadcast_id = match &probe {
                Ok(crate::live::LiveProbe::Live(live)) => Some(owned(live.id.as_str())),
                _ => None,
            };
            state.detail = None;
            state.next_check = now;
        },
    }
}

/// What the runtime saw when it looked at a recorder.
#[derive(Debug, Clone)]
pub enum RecorderEvent {
    Running,
    /// The recorder exited by itself, with its exit code if it had one.
    Exited(Option<i32>),
    /// The disk is nearly full; the text says how full.
    LowDisk(String),
    /// The recording stopped growing.
    Stalled,
    /// The recorder could not be looked at.
    Failed(String),
}

/// The reason a recorder is stopped for an event, if it is.
pub open spec fn stop_reason_spec(event: RecorderEvent) -> Option<Seq<char>> {
    match event {
        RecorderEvent::LowDisk(_) => Some("LOW DISK SPACE"@),
        RecorderEvent::Stalled => Some("RECORD STALLED"@),
        _ => None,
    }
}

/// Whether the runtime must stop the recorder for this event, and why.
pub fn recorder_stop_reason(event: &RecorderEvent) -> (r: Option<&'static str>)
    ensures
        match r {
            Some(t) => stop_reason_spec(*event) == Some(t@),
            None => stop_reason_spec(*event) is None,
        },
{
    match event {
        RecorderEvent::LowDisk(_) => Some("LOW DISK SPACE"),
        RecorderEvent::Stalled => Some("RECORD STALLED"),
        _ => None,
    }
}

/// `stop failed: <error>`.
pub open spec fn stop_failed_text(e: Seq<char>) -> Seq<char> {
    "stop failed: "@ + e
}

/// The detail after a recorder stop: the stop failure, if there was one.
pub open spec fn detail_after_stop(detail: Option<Seq<char>>, stop_failure: Option<String>) -> Option<Seq<char>> {
    match stop_failure {
        Some(e) => Some(stop_failed_text(e@)),
        None => detail,
    }
}

/// The state after looking at the recorder of a channel (the recorder
/// having been stopped with `stop_failure` as the outcome when
/// `recorder_stop_reason` asked for it).  Returns the finished recording
/// and its reason when the recorder exited by itself.
#[verifier::spinoff_prover]
pub fn after_recorder_event(
    state: &mut ChannelState,
    event: RecorderEvent,
    stop_failure: Option<String>,
    now: u64,
    retry_interval: u64,
    stall_timeout: u64,
) -> (r: Option<(RecordingInfo, String)>)
    requires
        old(state).recording.is_some(),
    ensures
        final(state).channel == old(state).channel,
        final(state).last_broadcast_id == old(state).last_broadcast_id,
        final(state).suppressed_broadcast_id == old(state).suppressed_broadcast_id,
        match event {
            RecorderEvent::Running => *final(state) == *old(state) && r.is_none(),
            RecorderEvent::Exited(code) => {
                let (normal, reason) = exit_outcome_spec(code);
                &&& r is Some && r.unwrap().0 == old(state).recording.unwrap() && r.unwrap().1@ == reason
                &&& final(state).recording.is_none()
                &&& if normal {
                    &&& final(state).status == ChannelStatus::Unknown
                    &&& final(state).detail.is_none()
                    &&& final(state).next_check == now
                } else {
                    &&& final(state).status == ChannelStatus::Error
                    &&& opt_string(final(state).detail) == Some(reason)
                    &&& final(state).next_check == deadline(now, retry_interval)
                }
            },
            RecorderEvent::LowDisk(text) => {
                &&& r.is_none()
                &&& final(state).status == ChannelStatus::LowDisk
                &&& final(state).recording.is_none()
                &&& opt_string(final(state).detail) == detail_after_stop(Some(text@), stop_failure)
                &&& final(state).next_check == deadline(now, 30)
            },
            RecorderEvent::Stalled => {
                &&& r.is_none()
                &&& final(state).status == ChannelStatus::Stalled
                &&& final(state).recording.is_none()
                &&& opt_string(final(state).detail) == detail_after_stop(
                    Some(crate::text::decimal(stall_timeout as nat) + "s no growth"@),
                    stop_failure,
                )
                &&& final(state).next_check == now
            },
            RecorderEvent::Failed(e) => {
                &&& r.is_none()
                &&& final(state).status == ChannelStatus::Error
                &&& final(state).recording == old(state).recording
                &&& opt_string(final(state).detail) == Some("recorder monitor error: "@ + e@)
                &&& final(state).next_check == old(state).next_check
            },
        },
{
    match event {
        RecorderEvent::Running => None,
        RecorderEvent::Exited(code) => {
            let (normal, reason) = recording_exit_outcome(code);
            let rec = match state.recording.take() {
                Some(rec) => rec,
                None => {
                    return None;
                },
            };
            if normal {
                state.status = ChannelStatus::Unknown;
                state.detail = None;
                state.next_check = now;
            } else {
                state.status = ChannelStatus::Error;
                state.detail = Some(owned(reason.as_str()));
                state.next_check = deadline_after(now, retry_interval);
            }
            Some((rec, reason))
        },
        RecorderEvent::LowDisk(text) => {
            state.status = ChannelStatus::LowDisk;
            state.detail = Some(text);
            state.recording = None;
            match stop_failure {
                Some(e) => {
                    state.detail = Some(crate::text::concat2("stop failed: ", e.as_str()));
                },
                None => {},
            }
            state.next_check = deadline_after(now, 30);
            None
        },
        RecorderEvent::Stalled => {
            state.status = ChannelStatus::Stalled;
            let n = crate::text::format_u64(stall_timeout);
            state.detail = Some(crate::text::concat2(n.as_str(), "s no growth"));
            state.recording = None;
            match stop_failure {
                Some(e) => {
                    state.detail = Some(crate::text::concat2("stop failed: ", e.as_str()));
                },
                None => {},
            }
            state.next_check = now;
            None
        },
        RecorderEvent::Failed(e) => {
            state.status = ChannelStatus::Error;
            state.detail = Some(crate::text::concat2("recorder monitor error: ", e.as_str()));
            None
        },
    }
}

// ---------------------------------------------------------------------------
// User commands
// ---------------------------------------------------------------------------

/// A command a user gives for one channel, named by its account.
#[derive(Debug, Clone)]
pub enum WatcherCommand {
    /// Stop recording and skip the current broadcast.
    StopOnce(String),
    /// Watch the channel again.
    Resume(String),
    /// Check the channel now.
    Recheck(String),
}

/// Why a channel command or a stream password was refused.
#[derive(Debug, Clone, PartialEq, Eq)]
pub enum CommandError {
    /// The action is not `stop`, `resume` or `recheck`.
    UnsupportedAction(String),
    /// No channel has this account.
    NotFound(String),
    /// Channels of several platforms have this account.
    Ambiguous(String),
    /// The account is empty after trimming.
    EmptyAccount,
    /// The password is empty.
    EmptyPassword,
    /// The channel is not waiting for a stream password.
    NotWaitingForPassword,
    /// The protected broadcast's number is unknown.
    BroadcastUnknown,
}

impl WatcherCommand {
    pub open spec fn account_spec(self) -> Seq<char> {
        match self {
            WatcherCommand::StopOnce(a) => a@,
            WatcherCommand::Resume(a) => a@,
            WatcherCommand::Recheck(a) => a@,
        }
    }

    pub fn account(&self) -> (r: &str)
        ensures
            r@ == self.account_spec(),
    {
        match self {
            WatcherCommand::StopOnce(a) => a.as_str(),
            WatcherCommand::Resume(a) => a.as_str(),
            WatcherCommand::Recheck(a) => a.as_str(),
        }
    }
}

/// The command for an action name: `stop`, `resume` or `recheck`.
pub fn parse_channel_action(account: String, action: &str) -> (r: Result<WatcherCommand, CommandError>)
    ensures
        action@ == "stop"@ ==> (r matches Ok(WatcherCommand::StopOnce(a)) && a == account),
        action@ == "resume"@ ==> (r matches Ok(WatcherCommand::Resume(a)) && a == account),
        action@ == "recheck"@ ==> (r matches Ok(WatcherCommand::Recheck(a)) && a == account),
        !(action@ == "stop"@ || action@ == "resume"@ || action@ == "recheck"@) ==> (r matches Err(
            CommandError::UnsupportedAction(x),
        ) && x@ == action@),
{
    proof {
        reveal_strlit("stop");
        reveal_strlit("resume");
        reveal_strlit("recheck");
        assert("stop"@.len() == 4);
        assert("resume"@.len() == 6);
        assert("recheck"@.len() == 7);
    }
    if str_eq(action, "stop") {
        Ok(WatcherCommand::StopOnce(account))
    } else if str_eq(action, "resume") {
        Ok(WatcherCommand::Resume(account))
    } else if str_eq(action, "recheck") {
        Ok(WatcherCommand::Recheck(account))
    } else {
        Err(CommandError::UnsupportedAction(owned(action)))
    }
}

/// Whether the state's channel has the account, case ignored.
pub open spec fn account_matches(state: ChannelState, account: Seq<char>) -> bool {
    eq_ignore_case(state.channel.account@, account)
}

/// The one state whose channel has the account (case ignored).
pub fn command_state_key(states: &[ChannelState], account: &str) -> (r: Result<usize, CommandError>)
    ensures
        match r {
            Ok(i) => i < states.len() && account_matches(states@[i as int], account@) && forall|j: int|
                0 <= j < states.len() && j != i ==> !account_matches(#[trigger] states@[j], account@),
            Err(CommandError::NotFound(a)) => a@ == account@ && forall|j: int|
                0 <= j < states.len() ==> !account_matches(#[trigger] states@[j], account@),
            Err(CommandError::Ambiguous(a)) => a@ == account@ && exists|i: int, j: int|
                0 <= i < j < states.len() && account_matches(#[trigger] states@[i], account@)
                    && account_matches(#[trigger] states@[j], account@),
            Err(_) => false,
        },
{
    let mut found: Option<usize> = None;
    let mut i: usize = 0;
    while i < states.len()
        invariant
            i <= states.len(),
            match found {
                Some(f) => f < i && account_matches(states@[f as int], account@) && forall|j: int|
                    0 <= j < i && j != f ==> !account_matches(#[trigger] states@[j], account@),
                None => forall|j: int| 0 <= j < i ==> !account_matches(#[trigger] states@[j], account@),
            },
        decreases states.len() - i,
    {
        if str_eq_ignore_case(states[i].channel.account.as_str(), account) {
            match found {
                Some(f) => {
                    assert(account_matches(states@[f as int], account@));
                    assert(account_matches(states@[i as int], account@));
                    return Err(CommandError::Ambiguous(owned(account)));
                },
                None => {
                    found = Some(i);
                },
            }
        }
        i += 1;
    }
    match found {
        Some(f) => Ok(f),
        None => Err(CommandError::NotFound(owned(account))),
    }
}

/// The broadcast a stop skips: the last one seen, else the one recorded.
pub open spec fn skipped_broadcast(state: ChannelState) -> Option<Seq<char>> {
    match state.last_broadcast_id {
        Some(b) => Some(b@),
        None => match state.recording {
            Some(rec) => Some(rec.bno@),
            None => None,
        },
    }
}

/// The state after a user command (the recorder having been stopped with
/// `stop_failure` as the outcome, for a stop of a recording channel):
/// stop skips the current broadcast and pauses the channel; resume
/// watches it again at once; recheck checks it at once.
pub fn after_command(state: &mut ChannelState, command: &WatcherCommand, stop_failure: Option<String>, now: u64)
    ensures
        final(state).channel == old(state).channel,
        final(state).last_broadcast_id == old(state).last_broadcast_id,
        match *command {
            WatcherCommand::StopOnce(_) => {
                &&& opt_string(final(state).suppressed_broadcast_id) == skipped_broadcast(*old(state))
                &&& final(state).recording.is_none()
                &&& final(state).status == ChannelStatus::Paused
                &&& opt_string(final(state).detail) == (if old(state).recording.is_some() {
                    detail_after_stop(opt_string(old(state).detail), stop_failure)
                } else {
                    opt_string(old(state).detail)
                })
                &&& final(state).next_check == old(state).next_check
            },
            WatcherCommand::Resume(_) => {
                &&& final(state).suppressed_broadcast_id.is_none()
                &&& final(state).status == ChannelStatus::Unknown
                &&& final(state).next_check == now
                &&& final(state).recording == old(state).recording
                &&& final(state).detail == old(state).detail
            },
            WatcherCommand::Recheck(_) => {
                &&& final(state).next_check == now
                &&& final(state).status == old(state).status
                &&& final(state).suppressed_broadcast_id == old(state).suppressed_broadcast_id
                &&& final(state).recording == old(state).recording
                &&& final(state).detail == old(state).detail
            },
        },
{
    match command {
        WatcherCommand::StopOnce(_) => {
            state.suppressed_broadcast_id = match &state.last_broadcast_id {
                Some(b) => Some(owned(b.as_str())),
                None => match &state.recording {
                    Some(rec) => Some(owned(rec.bno.as_str())),
                    None => None,
                },
            };
            if state.recording.is_some() {
                state.recording = None;
                match stop_failure {
                    Some(e) => {
                        state.detail = Some(crate::text::concat2("stop failed: ", e.as_str()));
                    },
                    None => {},
                }
            }
            state.status = ChannelStatus::Paused;
        },
        WatcherCommand::Resume(_) => {
            state.suppressed_broadcast_id = None;
            state.status = ChannelStatus::Unknown;
            state.next_check = now;
        },
        WatcherCommand::Recheck(_) => {
            state.next_check = now;
        },
    }
}

/// A state once the watcher has stopped: enabled channels show
/// `WATCHER_STOPPED` with their broadcast markers and detail cleared;
/// disabled ones show `DISABLED`.
pub open spec fn stopped_state(old_state: ChannelState, new_state: ChannelState) -> bool {
    &&& new_state.channel == old_state.channel
    &&& new_state.recording == old_state.recording
    &&& new_state.next_check == old_state.next_check
    &&& if old_state.channel.enabled {
        &&& new_state.status == ChannelStatus::WatcherStopped
        &&& new_state.last_broadcast_id.is_none()
        &&& new_state.suppressed_broadcast_id.is_none()
        &&& new_state.detail.is_none()
    } else {
        &&& new_state.status == ChannelStatus::Disabled
        &&& new_state.last_broadcast_id == old_state.last_broadcast_id
        &&& new_state.suppressed_broadcast_id == old_state.suppressed_broadcast_id
        &&& new_state.detail == old_state.detail
    }
}

pub fn mark_watcher_stopped(states: &mut Vec<ChannelState>)
    ensures
        final(states)@.len() == old(states)@.len(),
        forall|i: int| 0 <= i < old(states)@.len() ==> stopped_state(#[trigger] old(states)@[i], final(states)@[i]),
{
    let ghost start = states@;
    let mut i: usize = 0;
    while i < states.len()
        invariant
            i <= states.len(),
            states@.len() == start.len(),
            forall|j: int| 0 <= j < i ==> stopped_state(#[trigger] start[j], states@[j]),
            forall|j: int| i <= j < states@.len() ==> #[trigger] states@[j] == start[j],
        decreases states.len() - i,
    {
        let mut s = states.remove(i);
        if s.channel.enabled {
            s.status = ChannelStatus::WatcherStopped;
            s.last_broadcast_id = None;
            s.suppressed_broadcast_id = None;
            s.detail = None;
        } else {
            s.status = ChannelStatus::Disabled;
        }
        states.insert(i, s);
        i += 1;
    }
}

// ---------------------------------------------------------------------------
// The watcher snapshot
// ---------------------------------------------------------------------------

/// The status a channel shows: `DISABLED` when disabled, else its state.
pub open spec fn shown_status(st: ChannelState) -> Seq<char> {
    if !st.channel.enabled {
        "DISABLED"@
    } else {
        st.status.text()
    }
}

/// The reported channel `rt` shows the state `st`, whose recording file
/// has `size` bytes.
pub open spec fn shows(rt: ChannelRuntimeStatus, st: ChannelState, size: u64) -> bool {
    &&& rt.platform == st.channel.platform
    &&& rt.account@ == st.channel.account@
    &&& rt.name@ == st.channel.name@
    &&& rt.status@ == shown_status(st)
    &&& opt_string(rt.bno) == match st.recording {
        Some(rec) => Some(rec.bno@),
        None => opt_string(st.last_broadcast_id),
    }
    &&& opt_string(rt.title) == match st.recording {
        Some(rec) => Some(rec.title@),
        None => None,
    }
    &&& opt_string(rt.file) == match st.recording {
        Some(rec) => Some(rec.file@),
        None => None,
    }
    &&& rt.size_bytes == (if st.recording.is_some() {
        size
    } else {
        0
    })
    &&& opt_string(rt.started_at) == match st.recording {
        Some(rec) => Some(rec.started_at@),
        None => None,
    }
    &&& rt.suppressed == st.suppressed_broadcast_id.is_some()
    &&& opt_string(rt.detail) == opt_string(st.detail)
}

/// The order of reported channels: by platform name, then channel name.
pub open spec fn shown_before(a: ChannelRuntimeStatus, b: ChannelRuntimeStatus) -> bool {
    crate::text::text_lt(a.platform.spec_name(), b.platform.spec_name()) || (a.platform.spec_name()
        == b.platform.spec_name() && crate::text::text_lt(a.name@, b.name@))
}

pub open spec fn in_order(s: Seq<ChannelRuntimeStatus>) -> bool {
    forall|a: int, b: int| 0 <= a < b < s.len() ==> !shown_before(#[trigger] s[b], #[trigger] s[a])
}

/// `out` lists the states in the order `perm` picks them.
pub open spec fn listed_by(
    out: Seq<ChannelRuntimeStatus>,
    states: Seq<ChannelState>,
    sizes: Seq<u64>,
    perm: Seq<int>,
) -> bool {
    &&& perm.len() == out.len()
    &&& forall|k: int| 0 <= k < perm.len() ==> 0 <= #[trigger] perm[k] < states.len()
    &&& forall|k: int, l: int| 0 <= k < l < perm.len() ==> #[trigger] perm[k] != #[trigger] perm[l]
    &&& forall|k: int| 0 <= k < out.len() ==> shows(#[trigger] out[k], states[perm[k]], sizes[perm[k]])
}

/// `out` shows every state once, in order.
pub open spec fn snapshot_of(out: Seq<ChannelRuntimeStatus>, states: Seq<ChannelState>, sizes: Seq<u64>) -> bool {
    out.len() == states.len() && in_order(out) && exists|perm: Seq<int>|
        #[trigger] listed_by(out, states, sizes, perm)
}

/// How many states have the status.
pub open spec fn count_status(states: Seq<ChannelState>, pred: spec_fn(ChannelStatus) -> bool) -> nat
    decreases states.len(),
{
    if states.len() == 0 {
        0
    } else {
        count_status(states.drop_last(), pred) + if pred(states.last().status) {
            1nat
        } else {
            0nat
        }
    }
}

pub open spec fn is_recording(s: ChannelStatus) -> bool {
    s == ChannelStatus::Recording
}

pub open spec fn is_offline(s: ChannelStatus) -> bool {
    s == ChannelStatus::Offline
}

/// `ERROR`, `LOW_DISK` and `STALLED` count as errors.
pub open spec fn is_failing(s: ChannelStatus) -> bool {
    s == ChannelStatus::Error || s == ChannelStatus::LowDisk || s == ChannelStatus::Stalled
}

/// The counts and channel list of a watcher snapshot.
pub struct SnapshotParts {
    pub channel_count: usize,
    pub recording_count: usize,
    pub offline_count: usize,
    pub error_count: usize,
    pub channels: Vec<ChannelRuntimeStatus>,
}

fn copy_opt(o: &Option<String>) -> (r: Option<String>)
    ensures
        opt_string(r) == opt_string(*o),
{
    match o {
        Some(s) => Some(owned(s.as_str())),
        None => None,
    }
}

fn runtime_status(st: &ChannelState, size: u64) -> (rt: ChannelRuntimeStatus)
    ensures
        shows(rt, *st, size),
{
    let status = if !st.channel.enabled {
        owned("DISABLED")
    } else {
        owned(st.status.as_str())
    };
    let (bno, title, file, started_at, size_bytes) = match &st.recording {
        Some(rec) => (
            Some(owned(rec.bno.as_str())),
            Some(owned(rec.title.as_str())),
            Some(owned(rec.file.as_str())),
            Some(owned(rec.started_at.as_str())),
            size,
        ),
        None => (copy_opt(&st.last_broadcast_id), None, None, None, 0),
    };
    ChannelRuntimeStatus {
        platform: st.channel.platform,
        account: owned(st.channel.account.as_str()),
        name: owned(st.channel.name.as_str()),
        status,
        bno,
        title,
        file,
        size_bytes,
        started_at,
        suppressed: st.suppressed_broadcast_id.is_some(),
        detail: copy_opt(&st.detail),
    }
}

fn before(a: &ChannelRuntimeStatus, b: &ChannelRuntimeStatus) -> (r: bool)
    ensures
        r == shown_before(*a, *b),
{
    let pa = a.platform.as_str();
    let pb = b.platform.as_str();
    crate::text::str_lt(pa, pb) || (str_eq(pa, pb) && crate::text::str_lt(a.name.as_str(), b.name.as_str()))
}

proof fn lemma_before_strict(a: ChannelRuntimeStatus, b: ChannelRuntimeStatus, c: ChannelRuntimeStatus)
    ensures
        !(shown_before(a, b) && shown_before(b, a)),
        shown_before(a, b) && shown_before(b, c) ==> shown_before(a, c),
{
    crate::text::lemma_text_lt_asymmetric(a.platform.spec_name(), b.platform.spec_name());
    crate::text::lemma_text_lt_asymmetric(a.name@, b.name@);
    if shown_before(a, b) && shown_before(b, c) {
        if crate::text::text_lt(a.platform.spec_name(), b.platform.spec_name()) && crate::text::text_lt(
            b.platform.spec_name(),
            c.platform.spec_name(),
        ) {
            crate::text::lemma_text_lt_transitive(
                a.platform.spec_name(),
                b.platform.spec_name(),
                c.platform.spec_name(),
            );
        }
        if a.platform.spec_name() == b.platform.spec_name() && b.platform.spec_name()
            == c.platform.spec_name() {
            crate::text::lemma_text_lt_transitive(a.name@, b.name@, c.name@);
        }
    }
}

/// The snapshot of the channel states, `sizes` holding the size of each
/// state's recording file: every channel once, ordered by platform and
/// name, with the counts of recording, offline and failing channels.
#[verifier::spinoff_prover]
pub fn snapshot_parts(states: &[ChannelState], sizes: &[u64]) -> (r: SnapshotParts)
    requires
        sizes.len() == states.len(),
    ensures
        snapshot_of(r.channels@, states@, sizes@),
        r.channel_count == states.len(),
        r.recording_count == count_status(states@, |s: ChannelStatus| is_recording(s)),
        r.offline_count == count_status(states@, |s: ChannelStatus| is_offline(s)),
        r.error_count == count_status(states@, |s: ChannelStatus| is_failing(s)),
{
    let mut out: Vec<ChannelRuntimeStatus> = Vec::new();
    let ghost mut perm: Seq<int> = Seq::empty();
    let mut recording: usize = 0;
    let mut offline: usize = 0;
    let mut failing: usize = 0;
    let mut i: usize = 0;
    while i < states.len()
        invariant
            i <= states.len(),
            sizes.len() == states.len(),
            out.len() == i,
            in_order(out@),
            listed_by(out@, states@.take(i as int), sizes@, perm),
            forall|k: int| 0 <= k < perm.len() ==> #[trigger] perm[k] < i,
            recording <= i && offline <= i && failing <= i,
            recording == count_status(states@.take(i as int), |s: ChannelStatus| is_recording(s)),
            offline == count_status(states@.take(i as int), |s: ChannelStatus| is_offline(s)),
            failing == count_status(states@.take(i as int), |s: ChannelStatus| is_failing(s)),
        decreases states.len() - i,
    {
        let st = &states[i];
        assert(states@.take(i + 1).drop_last() =~= states@.take(i as int));
        assert(states@.take(i + 1).last() == states@[i as int]);
        match st.status {
            ChannelStatus::Recording => {
                recording += 1;
            },
            ChannelStatus::Offline => {
                offline += 1;
            },
            ChannelStatus::Error | ChannelStatus::LowDisk | ChannelStatus::Stalled => {
                failing += 1;
            },
            _ => {},
        }
        let rt = runtime_status(st, sizes[i]);
        let mut pos: usize = 0;
        while pos < out.len() && !before(&rt, &out[pos])
            invariant
                pos <= out.len(),
                forall|a: int| 0 <= a < pos ==> !shown_before(rt, #[trigger] out@[a]),
            decreases out.len() - pos,
        {
            pos += 1;
        }
        let ghost old_out = out@;
        let ghost old_perm = perm;
        out.insert(pos, rt);
        proof {
            perm = old_perm.insert(pos as int, i as int);
            assert(out@ == old_out.insert(pos as int, rt));
            assert forall|a: int, b: int| 0 <= a < b < out@.len() implies !shown_before(
                #[trigger] out@[b],
                #[trigger] out@[a],
            ) by {
                if b < pos {
                    assert(out@[a] == old_out[a] && out@[b] == old_out[b]);
                } else if a > pos {
                    assert(out@[a] == old_out[a - 1] && out@[b] == old_out[b - 1]);
                } else if b == pos {
                    assert(out@[a] == old_out[a]);
                } else if a == pos {
                    assert(out@[b] == old_out[b - 1]);
                    assert(shown_before(rt, old_out[pos as int]));
                    lemma_before_strict(old_out[b - 1], rt, old_out[pos as int]);
                    lemma_before_strict(old_out[pos as int], old_out[b - 1], rt);
                } else {
                    assert(a < pos && pos < b);
                    assert(out@[a] == old_out[a] && out@[b] == old_out[b - 1]);
                }
            }
            assert forall|k: int| 0 <= k < out@.len() implies shows(
                #[trigger] out@[k],
                states@.take(i + 1)[perm[k]],
                sizes@[perm[k]],
            ) by {
                if k < pos {
                    assert(out@[k] == old_out[k] && perm[k] == old_perm[k]);
                } else if k > pos {
                    assert(out@[k] == old_out[k - 1] && perm[k] == old_perm[k - 1]);
                }
            }
            assert forall|k: int, l: int| 0 <= k < l < perm.len() implies #[trigger] perm[k] != #[trigger] perm[l] by {
                if k < pos && l < pos {
                } else if k > pos && l > pos {
                    assert(perm[k] == old_perm[k - 1] && perm[l] == old_perm[l - 1]);
                } else if k == pos {
                    assert(perm[l] == old_perm[l - 1]);
                } else if l == pos {
                    assert(perm[k] == old_perm[k]);
                } else {
                    assert(perm[k] == old_perm[k] && perm[l] == old_perm[l - 1]);
                }
            }
            assert forall|k: int| 0 <= k < perm.len() implies 0 <= #[trigger] perm[k] < states@.take(i + 1).len() by {
                if k < pos {
                    assert(perm[k] == old_perm[k]);
                } else if k > pos {
                    assert(perm[k] == old_perm[k - 1]);
                }
            }
            assert forall|k: int| 0 <= k < perm.len() implies #[trigger] perm[k] < i + 1 by {
                if k < pos {
                    assert(perm[k] == old_perm[k]);
                } else if k > pos {
                    assert(perm[k] == old_perm[k - 1]);
                }
            }
        }
        i += 1;
    }
    assert(states@.take(states.len() as int) =~= states@);
    assert(listed_by(out@, states@, sizes@, perm));
    SnapshotParts {
        channel_count: out.len(),
        recording_count: recording,
        offline_count: offline,
        error_count: failing,
        channels: out,
    }
}

// ---------------------------------------------------------------------------
// Watcher settings
// ---------------------------------------------------------------------------

/// What the watcher reads from the settings.  Times are in seconds.
#[derive(Debug, Clone)]
pub struct WatcherSettings {
    pub check_interval: u64,
    pub reload_interval: u64,
    pub retry_interval: u64,
    pub worker_max_retry: u64,
    pub output_dir: String,
    pub file_name_pattern: String,
    pub worker_url: String,
    pub worker_api_key: String,
    pub soop_username: String,
    pub soop_password: String,
    pub quality: String,
    pub stall_timeout: u64,
    pub monitor_interval: u64,
}

/// Why the watcher settings were refused.
#[derive(Debug, Clone, PartialEq, Eq)]
pub enum WatcherConfigError {
    /// A protected secret could not be read; the message says why.
    Secret(String),
    /// An enabled SOOP channel needs an `https://` Worker URL.
    WorkerUrlNotHttps,
    /// An enabled SOOP channel needs a Worker API key.
    WorkerApiKeyEmpty,
}

/// A text setting: the stored value, or the empty text.
pub open spec fn raw_setting(values: Seq<(Seq<char>, Seq<char>)>, key: Seq<char>) -> Seq<char> {
    crate::settings::stored_or_empty(values, key)
}

/// The stored value unless it is absent or fails `keep`, else `default`.
pub open spec fn setting_or(
    values: Seq<(Seq<char>, Seq<char>)>,
    key: Seq<char>,
    keep: spec_fn(Seq<char>) -> bool,
    default: Seq<char>,
) -> Seq<char> {
    match lookup(values, key) {
        Some(v) => if keep(v) {
            v
        } else {
            default
        },
        None => default,
    }
}

/// The watcher settings from the stored values.  When an enabled SOOP
/// channel exists, `worker_api_key` and `soop_password` are the read
/// protected secrets (or why they could not be read), the Worker URL must
/// be `https://` and the API key must not be empty; otherwise both are
/// left empty.  `default_output_dir` is the platform's default.
#[verifier::spinoff_prover]
pub fn watcher_settings(
    values: &[(String, String)],
    require_soop: bool,
    worker_api_key: Result<String, String>,
    soop_password: Result<String, String>,
    default_output_dir: &str,
) -> (r: Result<WatcherSettings, WatcherConfigError>)
    ensures
        ({
            let u = pairs_view(values@);
            let url = raw_setting(u, "CLOUDFLARE_WORKER_URL"@);
            if require_soop && worker_api_key is Err {
                r matches Err(WatcherConfigError::Secret(m)) && m == worker_api_key->Err_0
            } else if require_soop && soop_password is Err {
                r matches Err(WatcherConfigError::Secret(m)) && m == soop_password->Err_0
            } else if require_soop && !crate::text::starts_with(url, "https://"@) {
                r == Err::<WatcherSettings, WatcherConfigError>(WatcherConfigError::WorkerUrlNotHttps)
            } else if require_soop && worker_api_key->Ok_0@.len() == 0 {
                r == Err::<WatcherSettings, WatcherConfigError>(WatcherConfigError::WorkerApiKeyEmpty)
            } else {
                r matches Ok(c) && {
                    &&& c.check_interval == int_setting(u, "CHECK_INTERVAL"@, 30)
                    &&& c.reload_interval == int_setting(u, "CHANNEL_RELOAD_INTERVAL"@, 2)
                    &&& c.retry_interval == int_setting(u, "RECORD_RETRY_INTERVAL"@, 5)
                    &&& c.worker_max_retry == int_setting(u, "WORKER_MAX_RETRY"@, 3)
                    &&& c.stall_timeout == int_setting(u, "RECORD_STALL_TIMEOUT"@, 90)
                    &&& c.monitor_interval == int_setting(u, "RECORD_MONITOR_INTERVAL"@, 5)
                    &&& c.output_dir@ == setting_or(
                        u,
                        "OUTPUT_DIR"@,
                        |v: Seq<char>| trim(v).len() > 0,
                        default_output_dir@,
                    )
                    &&& c.file_name_pattern@ == upper_seq(
                        setting_or(u, "FILE_NAME_PATTERN"@, |v: Seq<char>| true, "LEGACY"@),
                    )
                    &&& c.quality@ == setting_or(u, "QUALITY"@, |v: Seq<char>| v.len() > 0, "best"@)
                    &&& c.worker_url@ == url
                    &&& c.soop_username@ == raw_setting(u, "SOOP_USERNAME"@)
                    &&& c.worker_api_key@ == (if require_soop {
                        worker_api_key->Ok_0@
                    } else {
                        Seq::empty()
                    })
                    &&& c.soop_password@ == (if require_soop {
                        soop_password->Ok_0@
                    } else {
                        Seq::empty()
                    })
                }
            }
        }),
{
    let worker_url = match lookup_value(values, "CLOUDFLARE_WORKER_URL") {
        Some(v) => v,
        None => String::new(),
    };
    let soop_username = match lookup_value(values, "SOOP_USERNAME") {
        Some(v) => v,
        None => String::new(),
    };
    let (key, password) = if require_soop {
        let key = match worker_api_key {
            Err(m) => {
                return Err(WatcherConfigError::Secret(m));
            },
            Ok(k) => k,
        };
        let password = match soop_password {
            Err(m) => {
                return Err(WatcherConfigError::Secret(m));
            },
            Ok(p) => p,
        };
        if !crate::text::str_starts_with(worker_url.as_str(), "https://") {
            return Err(WatcherConfigError::WorkerUrlNotHttps);
        }
        if key.as_str().is_empty() {
            return Err(WatcherConfigError::WorkerApiKeyEmpty);
        }
        (key, password)
    } else {
        (String::new(), String::new())
    };
    let output_dir = match lookup_value(values, "OUTPUT_DIR") {
        Some(v) => {
            let cv = chars_of(v.as_str());
            if trim_chars(cv.as_slice()).len() > 0 {
                v
            } else {
                owned(default_output_dir)
            }
        },
        None => owned(default_output_dir),
    };
    let pattern = match lookup_value(values, "FILE_NAME_PATTERN") {
        Some(v) => crate::text::to_upper(v.as_str()),
        None => crate::text::to_upper("LEGACY"),
    };
    let quality = match lookup_value(values, "QUALITY") {
        Some(v) => {
            if v.as_str().is_empty() {
                owned("best")
            } else {
                v
            }
        },
        None => owned("best"),
    };
    Ok(WatcherSettings {
        check_interval: int_or_default(values, "CHECK_INTERVAL", 30),
        reload_interval: int_or_default(values, "CHANNEL_RELOAD_INTERVAL", 2),
        retry_interval: int_or_default(values, "RECORD_RETRY_INTERVAL", 5),
        worker_max_retry: int_or_default(values, "WORKER_MAX_RETRY", 3),
        output_dir,
        file_name_pattern: pattern,
        worker_url,
        worker_api_key: key,
        soop_username,
        soop_password: password,
        quality,
        stall_timeout: int_or_default(values, "RECORD_STALL_TIMEOUT", 90),
        monitor_interval: int_or_default(values, "RECORD_MONITOR_INTERVAL", 5),
    })
}

// ---------------------------------------------------------------------------
// Output files
// ---------------------------------------------------------------------------

/// A number written with at least two digits (`{:02}`).
pub open spec fn two_digits(n: nat) -> Seq<char> {
    if n < 10 {
        seq!['0'] + crate::text::decimal(n)
    } else {
        crate::text::decimal(n)
    }
}

fn push_two_digits(out: &mut Vec<char>, n: u64)
    ensures
        final(out)@ == old(out)@ + two_digits(n as nat),
{
    if n < 10 {
        out.push('0');
    }
    let d = crate::text::format_u64(n);
    push_str(out, d.as_str());
    assert(final(out)@ =~= old(out)@ + two_digits(n as nat));
}

/// The name of the recording file to try at `attempt` (from 0), for the
/// file name pattern, the local date (`yymmdd`) and time (`HHMMSS`), the
/// channel name and the broadcast title; `None` once every name was
/// tried.  `TITLE_NUMBER` numbers every name from `01`; the other
/// patterns try the plain name first, then numbers from `02`.
pub open spec fn output_candidate(
    pattern: Seq<char>,
    date: Seq<char>,
    time: Seq<char>,
    channel: Seq<char>,
    title: Seq<char>,
    attempt: nat,
) -> Option<Seq<char>> {
    let ch = safe_name_spec(channel, 60);
    let ti = safe_name_spec(title, 90);
    let u = seq!['_'];
    if pattern == "TITLE_NUMBER"@ {
        if attempt < 9999 {
            Some(date + u + ti + u + two_digits(attempt + 1) + u + ch + ".ts"@)
        } else {
            None
        }
    } else {
        let base = if pattern == "TIME_TITLE"@ {
            date + u + time + u + ti + u + ch
        } else if pattern == "BJ_TITLE"@ {
            date + u + ch + u + ti
        } else {
            date + u + time + u + ch
        };
        if attempt == 0 {
            Some(base + ".ts"@)
        } else if attempt < 9998 {
            Some(base + u + two_digits(attempt + 1) + ".ts"@)
        } else {
            None
        }
    }
}

pub fn output_file_name(pattern: &str, date: &str, time: &str, channel: &str, title: &str, attempt: u64) -> (r: Option<String>)
    ensures
        opt_string(r) == output_candidate(pattern@, date@, time@, channel@, title@, attempt as nat),
{
    let ch = safe_name(channel, 60);
    let ti = safe_name(title, 90);
    let mut v: Vec<char> = Vec::new();
    push_str(&mut v, date);
    v.push('_');
    if str_eq(pattern, "TITLE_NUMBER") {
        if attempt >= 9999 {
            return None;
        }
        push_str(&mut v, ti.as_str());
        v.push('_');
        push_two_digits(&mut v, attempt + 1);
        v.push('_');
        push_str(&mut v, ch.as_str());
        push_str(&mut v, ".ts");
        assert(v@ =~= date@ + seq!['_'] + ti@ + seq!['_'] + two_digits((attempt + 1) as nat) + seq!['_'] + ch@ + ".ts"@);
        return Some(string_of(v.as_slice()));
    }
    if str_eq(pattern, "TIME_TITLE") {
        push_str(&mut v, time);
        v.push('_');
        push_str(&mut v, ti.as_str());
        v.push('_');
        push_str(&mut v, ch.as_str());
        assert(v@ =~= date@ + seq!['_'] + time@ + seq!['_'] + ti@ + seq!['_'] + ch@);
    } else if str_eq(pattern, "BJ_TITLE") {
        push_str(&mut v, ch.as_str());
        v.push('_');
        push_str(&mut v, ti.as_str());
        assert(v@ =~= date@ + seq!['_'] + ch@ + seq!['_'] + ti@);
    } else {
        push_str(&mut v, time);
        v.push('_');
        push_str(&mut v, ch.as_str());
        assert(v@ =~= date@ + seq!['_'] + time@ + seq!['_'] + ch@);
    }
    let ghost base = v@;
    if attempt == 0 {
        push_str(&mut v, ".ts");
        assert(v@ =~= base + ".ts"@);
        Some(string_of(v.as_slice()))
    } else if attempt < 9998 {
        v.push('_');
        push_two_digits(&mut v, attempt + 1);
        push_str(&mut v, ".ts");
        assert(v@ =~= base + seq!['_'] + two_digits((attempt + 1) as nat) + ".ts"@);
        Some(string_of(v.as_slice()))
    } else {
        None
    }
}

/// How many names `output_candidate` has for a pattern.
pub open spec fn output_limit(pattern: Seq<char>) -> nat {
    if pattern == "TITLE_NUMBER"@ {
        9999
    } else {
        9998
    }
}

/// The recording file name (see `output_candidate`), given which
/// candidates exist: the first that does not.
pub fn choose_output_file_name(
    pattern: &str,
    date: &str,
    time: &str,
    channel: &str,
    title: &str,
    taken: &[bool],
) -> (r: crate::vod::NameChoice)
    ensures
        crate::vod::choice_spec(
            r,
            taken@,
            output_limit(pattern@),
            |a: nat| output_candidate(pattern@, date@, time@, channel@, title@, a),
        ),
{
    let limit: u64 = if str_eq(pattern, "TITLE_NUMBER") {
        9999
    } else {
        9998
    };
    match crate::vod::first_free_slot(taken, limit) {
        Some(i) => match output_file_name(pattern, date, time, channel, title, i) {
            Some(name) => crate::vod::NameChoice::Free { attempt: i, name },
            None => crate::vod::NameChoice::Exhausted,
        },
        None => if taken.len() >= limit as usize {
            crate::vod::NameChoice::Exhausted
        } else {
            crate::vod::NameChoice::NeedFacts
        },
    }
}

/// The directory a channel records into: its own output directory
/// (trimmed) when it has one, else the default; the runtime adds a folder
/// named `safe_name(name, 80)`.
pub fn output_base_dir(outdir: &str, default_dir: &str) -> (r: String)
    ensures
        r@ == (if trim(outdir@).len() == 0 {
            default_dir@
        } else {
            trim(outdir@)
        }),
{
    let t = crate::text::trim_str(outdir);
    if t.as_str().is_empty() {
        owned(default_dir)
    } else {
        t
    }
}

// ---------------------------------------------------------------------------
// Stream passwords typed by users
// ---------------------------------------------------------------------------

/// The channel a typed stream password is for: the account is trimmed and
/// must name exactly one reported channel (case ignored), which must be
/// waiting for a password of a known broadcast.  Gives the platform, the
/// broadcast and the trimmed account.
#[verifier::spinoff_prover]
pub fn password_target(channels: &[ChannelRuntimeStatus], account: &str, password: &str) -> (r: Result<
    (PlatformId, String, String),
    CommandError,
>)
    ensures
        ({
            let acc = trim(account@);
            if acc.len() == 0 {
                r == Err::<(PlatformId, String, String), CommandError>(CommandError::EmptyAccount)
            } else if password@.len() == 0 {
                r == Err::<(PlatformId, String, String), CommandError>(CommandError::EmptyPassword)
            } else {
                match r {
                    Ok((p, bno, a)) => a@ == acc && exists|i: int|
                        0 <= i < channels.len() && eq_ignore_case(#[trigger] channels@[i].account@, acc)
                            && (forall|j: int|
                            0 <= j < channels.len() && j != i ==> !eq_ignore_case(
                                #[trigger] channels@[j].account@,
                                acc,
                            )) && channels@[i].status@ == "PASSWORD_REQUIRED"@ && p
                            == channels@[i].platform && opt_string(channels@[i].bno) == Some(bno@),
                    Err(CommandError::NotFound(a)) => a@ == acc && forall|j: int|
                        0 <= j < channels.len() ==> !eq_ignore_case(#[trigger] channels@[j].account@, acc),
                    Err(CommandError::Ambiguous(a)) => a@ == acc && exists|i: int, j: int|
                        0 <= i < j < channels.len() && eq_ignore_case(#[trigger] channels@[i].account@, acc)
                            && eq_ignore_case(#[trigger] channels@[j].account@, acc),
                    Err(CommandError::NotWaitingForPassword) => exists|i: int|
                        0 <= i < channels.len() && eq_ignore_case(#[trigger] channels@[i].account@, acc)
                            && channels@[i].status@ != "PASSWORD_REQUIRED"@,
                    Err(CommandError::BroadcastUnknown) => exists|i: int|
                        0 <= i < channels.len() && eq_ignore_case(#[trigger] channels@[i].account@, acc)
                            && channels@[i].status@ == "PASSWORD_REQUIRED"@ && channels@[i].bno.is_none(),
                    Err(_) => false,
                }
            }
        }),
{
    let acc = crate::text::trim_str(account);
    if acc.as_str().is_empty() {
        return Err(CommandError::EmptyAccount);
    }
    if password.is_empty() {
        return Err(CommandError::EmptyPassword);
    }
    let mut found: Option<usize> = None;
    let mut i: usize = 0;
    while i < channels.len()
        invariant
            i <= channels.len(),
            password@.len() != 0,
            acc@ == trim(account@),
            acc@.len() != 0,
            match found {
                Some(f) => f < i && eq_ignore_case(channels@[f as int].account@, acc@) && forall|j: int|
                    0 <= j < i && j != f ==> !eq_ignore_case(#[trigger] channels@[j].account@, acc@),
                None => forall|j: int| 0 <= j < i ==> !eq_ignore_case(#[trigger] channels@[j].account@, acc@),
            },
        decreases channels.len() - i,
    {
        if str_eq_ignore_case(channels[i].account.as_str(), acc.as_str()) {
            match found {
                Some(f) => {
                    assert(eq_ignore_case(channels@[f as int].account@, acc@));
                    assert(eq_ignore_case(channels@[i as int].account@, acc@));
                    assert(exists|x: int, y: int|
                        0 <= x < y < channels.len() && eq_ignore_case(#[trigger] channels@[x].account@, acc@)
                            && eq_ignore_case(#[trigger] channels@[y].account@, acc@));
                    return Err(CommandError::Ambiguous(acc));
                },
                None => {
                    found = Some(i);
                },
            }
        }
        i += 1;
    }
    let f = match found {
        Some(f) => f,
        None => {
            return Err(CommandError::NotFound(acc));
        },
    };
    let c = &channels[f];
    if !str_eq(c.status.as_str(), "PASSWORD_REQUIRED") {
        return Err(CommandError::NotWaitingForPassword);
    }
    match &c.bno {
        Some(b) => Ok((c.platform, owned(b.as_str()), acc)),
        None => Err(CommandError::BroadcastUnknown),
    }
}

// ---------------------------------------------------------------------------
// Reloading the channel list
// ---------------------------------------------------------------------------

pub open spec fn state_key(s: ChannelState) -> Seq<char> {
    channel_key_spec(s.channel.platform, s.channel.account@)
}

pub open spec fn incoming_key(c: Channel) -> Seq<char> {
    channel_key_spec(c.platform, c.account@)
}

/// The first state with the key.
pub open spec fn index_of_key(states: Seq<ChannelState>, k: Seq<char>) -> Option<int>
    decreases states.len(),
{
    if states.len() == 0 {
        None
    } else if state_key(states[0]) == k {
        Some(0)
    } else {
        match index_of_key(states.drop_first(), k) {
            Some(i) => Some(i + 1),
            None => None,
        }
    }
}

/// The incoming channels, each key once: a later channel with the same key
/// replaces an earlier one.
pub open spec fn last_per_key(cs: Seq<Channel>) -> Seq<Channel>
    decreases cs.len(),
{
    if cs.len() == 0 {
        cs
    } else if exists|j: int| 0 < j < cs.len() && incoming_key(#[trigger] cs[j]) == incoming_key(cs[0]) {
        last_per_key(cs.drop_first())
    } else {
        seq![cs[0]] + last_per_key(cs.drop_first())
    }
}

/// A watched channel that a reload replaces by `c`: a channel that was
/// disabled stops recording and shows `DISABLED`; one that was enabled
/// shows `UNKNOWN` and is checked at once.
pub open spec fn updated_state(s: ChannelState, c: Channel, now: u64) -> ChannelState {
    let was = s.channel.enabled;
    if was && !c.enabled {
        ChannelState { channel: c, status: ChannelStatus::Disabled, recording: None, ..s }
    } else if !was && c.enabled {
        ChannelState { channel: c, status: ChannelStatus::Unknown, next_check: now, ..s }
    } else {
        ChannelState { channel: c, ..s }
    }
}

/// The recording that disabling a channel stops, with the channel's key.
pub open spec fn stopped_by_update(s: ChannelState, c: Channel) -> Seq<(Seq<char>, RecordingInfo)> {
    if s.channel.enabled && !c.enabled && s.recording.is_some() {
        seq![(state_key(s), s.recording.unwrap())]
    } else {
        Seq::empty()
    }
}

pub open spec fn new_state(c: Channel, now: u64) -> ChannelState {
    ChannelState {
        channel: c,
        status: if c.enabled {
            ChannelStatus::Unknown
        } else {
            ChannelStatus::Disabled
        },
        recording: None,
        last_broadcast_id: None,
        suppressed_broadcast_id: None,
        next_check: now,
        detail: None,
    }
}

/// Applying the incoming channels (each key once) in order: the states
/// after the reload, the old states no channel names any more, and the
/// recordings that disabling channels stops.
pub open spec fn apply_spec(olds: Seq<ChannelState>, inc: Seq<Channel>, now: u64) -> (
    Seq<ChannelState>,
    Seq<ChannelState>,
    Seq<(Seq<char>, RecordingInfo)>,
)
    decreases inc.len(),
{
    if inc.len() == 0 {
        (Seq::empty(), olds, Seq::empty())
    } else {
        let c = inc[0];
        match index_of_key(olds, incoming_key(c)) {
            Some(j) => {
                let s = olds[j];
                let rest = apply_spec(olds.remove(j), inc.drop_first(), now);
                (seq![updated_state(s, c, now)] + rest.0, rest.1, stopped_by_update(s, c) + rest.2)
            },
            None => {
                let rest = apply_spec(olds, inc.drop_first(), now);
                (seq![new_state(c, now)] + rest.0, rest.1, rest.2)
            },
        }
    }
}

/// The outcome of a channel reload.
pub struct ChannelsApplied {
    /// The watched channels, in the order of the new list.
    pub states: Vec<ChannelState>,
    /// The channels that are no longer listed; their recorders stop.
    pub removed: Vec<ChannelState>,
    /// The recordings of channels that were disabled, by channel key;
    /// their recorders stop.
    pub stopped: Vec<(String, RecordingInfo)>,
}

pub open spec fn stopped_view(v: Seq<(String, RecordingInfo)>) -> Seq<(Seq<char>, RecordingInfo)> {
    v.map_values(|p: (String, RecordingInfo)| (p.0@, p.1))
}

proof fn lemma_index_of_key(states: Seq<ChannelState>, k: Seq<char>)
    ensures
        match index_of_key(states, k) {
            Some(j) => 0 <= j < states.len() && state_key(states[j]) == k,
            None => true,
        },
    decreases states.len(),
{
    if states.len() > 0 {
        lemma_index_of_key(states.drop_first(), k);
    }
}

fn state_index(states: &Vec<ChannelState>, key: &str) -> (r: Option<usize>)
    ensures
        match r {
            Some(i) => index_of_key(states@, key@) == Some(i as int),
            None => index_of_key(states@, key@).is_none(),
        },
{
    let mut i: usize = 0;
    assert(states@.skip(0) =~= states@);
    while i < states.len()
        invariant
            i <= states.len(),
            index_of_key(states@, key@) == match index_of_key(states@.skip(i as int), key@) {
                Some(j) => Some(j + i),
                None => None::<int>,
            },
        decreases states.len() - i,
    {
        assert(states@.skip(i as int).drop_first() =~= states@.skip(i + 1));
        assert(states@.skip(i as int)[0] == states@[i as int]);
        let k = channel_key(states[i].channel.platform, states[i].channel.account.as_str());
        if str_eq(k.as_str(), key) {
            return Some(i);
        }
        i += 1;
    }
    None
}

fn later_has_key(cs: &Vec<Channel>, from: usize, key: &str) -> (r: bool)
    requires
        from <= cs.len(),
    ensures
        r == exists|j: int| from <= j < cs.len() && incoming_key(#[trigger] cs@[j]) == key@,
{
    let mut j = from;
    while j < cs.len()
        invariant
            from <= j <= cs.len(),
            forall|k: int| from <= k < j ==> incoming_key(#[trigger] cs@[k]) != key@,
        decreases cs.len() - j,
    {
        let k = channel_key(cs[j].platform, cs[j].account.as_str());
        if str_eq(k.as_str(), key) {
            return true;
        }
        j += 1;
    }
    false
}

/// The channels, each key once, a later channel replacing an earlier one.
pub fn dedup_channels(channels: Vec<Channel>) -> (r: Vec<Channel>)
    ensures
        r@ == last_per_key(channels@),
{
    let ghost all = channels@;
    let mut rest = channels;
    let mut out: Vec<Channel> = Vec::new();
    let ghost mut i: int = 0;
    assert(all.skip(0) =~= all);
    while rest.len() > 0
        invariant
            0 <= i,
            i + rest.len() == all.len(),
            rest@ == all.skip(i),
            last_per_key(all) == out@ + last_per_key(rest@),
        decreases rest.len(),
    {
        let key = channel_key(rest[0].platform, rest[0].account.as_str());
        let dup = later_has_key(&rest, 1, key.as_str());
        let ghost before = rest@;
        let c = rest.remove(0);
        assert(before.drop_first() =~= rest@);
        assert(all.skip(i).drop_first() =~= all.skip(i + 1));
        if !dup {
            out.push(c);
            assert(out@.drop_last() + (seq![c] + last_per_key(rest@)) =~= out@ + last_per_key(rest@));
        }
        proof {
            i = i + 1;
        }
    }
    assert(out@ + Seq::<Channel>::empty() =~= out@);
    out
}

/// Applies a reloaded channel list (see `apply_spec`; the list is first
/// reduced to one channel per key, the last one winning).
#[verifier::spinoff_prover]
pub fn apply_channels(states: Vec<ChannelState>, channels: Vec<Channel>, now: u64) -> (r: ChannelsApplied)
    ensures
        ({
            let a = apply_spec(states@, last_per_key(channels@), now);
            &&& r.states@ == a.0
            &&& r.removed@ == a.1
            &&& stopped_view(r.stopped@) == a.2
        }),
{
    let inc = dedup_channels(channels);
    let ghost inc0 = inc@;
    let ghost olds0 = states@;
    let mut olds = states;
    let mut rest = inc;
    let mut out: Vec<ChannelState> = Vec::new();
    let mut stopped: Vec<(String, RecordingInfo)> = Vec::new();
    assert(stopped_view(stopped@) =~= Seq::<(Seq<char>, RecordingInfo)>::empty());
    assert(out@ + apply_spec(olds@, rest@, now).0 =~= apply_spec(olds@, rest@, now).0);
    assert(stopped_view(stopped@) + apply_spec(olds@, rest@, now).2 =~= apply_spec(olds@, rest@, now).2);
    while rest.len() > 0
        invariant
            apply_spec(olds0, inc0, now).0 == out@ + apply_spec(olds@, rest@, now).0,
            apply_spec(olds0, inc0, now).1 == apply_spec(olds@, rest@, now).1,
            apply_spec(olds0, inc0, now).2 == stopped_view(stopped@) + apply_spec(olds@, rest@, now).2,
        decreases rest.len(),
    {
        let ghost olds_before = olds@;
        let ghost rest_before = rest@;
        let ghost out_before = out@;
        let ghost stopped_before = stopped_view(stopped@);
        let c = rest.remove(0);
        assert(rest_before.drop_first() =~= rest@);
        let key = channel_key(c.platform, c.account.as_str());
        proof {
            lemma_index_of_key(olds@, key@);
        }
        match state_index(&olds, key.as_str()) {
            Some(j) => {
                let mut s = olds.remove(j);
                let was = s.channel.enabled;
                let ghost s0 = s;
                let ghost stops = stopped_by_update(s0, c);
                if was && !c.enabled {
                    match s.recording.take() {
                        Some(rec) => {
                            let k = channel_key(s.channel.platform, s.channel.account.as_str());
                            stopped.push((k, rec));
                            assert(stopped_view(stopped@) =~= stopped_before + stops);
                        },
                        None => {
                            assert(stopped_view(stopped@) =~= stopped_before + stops);
                        },
                    }
                    s.status = ChannelStatus::Disabled;
                } else {
                    assert(stopped_view(stopped@) =~= stopped_before + stops);
                    if !was && c.enabled {
                        s.status = ChannelStatus::Unknown;
                        s.next_check = now;
                    }
                }
                s.channel = c;
                assert(s == updated_state(s0, c, now));
                out.push(s);
                let ghost r = apply_spec(olds@, rest@, now);
                assert(rest_before[0] == c);
                assert(rest_before.drop_first() == rest@);
                assert(olds@ == olds_before.remove(j as int));
                assert(key@ == incoming_key(c));
                assert(index_of_key(olds_before, incoming_key(c)) == Some(j as int));
                assert(olds_before[j as int] == s0);
                assert(apply_spec(olds_before, rest_before, now) == (
                    seq![updated_state(s0, c, now)] + r.0,
                    r.1,
                    stops + r.2,
                ));
                assert(out@ + r.0 =~= out_before + (seq![s] + r.0));
                assert(stopped_view(stopped@) + r.2 =~= stopped_before + (stops + r.2));
            },
            None => {
                let n = ChannelState::new(c, now);
                assert(n == new_state(c, now));
                out.push(n);
                let ghost r = apply_spec(olds@, rest@, now);
                assert(rest_before[0] == c);
                assert(rest_before.drop_first() == rest@);
                assert(apply_spec(olds_before, rest_before, now) == (seq![new_state(c, now)] + r.0, r.1, r.2));
                assert(out@ + r.0 =~= out_before + (seq![n] + r.0));
            },
        }
    }
    assert(out@ + Seq::<ChannelState>::empty() =~= out@);
    assert(stopped_view(stopped@) + Seq::<(Seq<char>, RecordingInfo)>::empty() =~= stopped_view(stopped@));
    ChannelsApplied { states: out, removed: olds, stopped }
}

/// Records that stopping the channel's recorder failed.
pub fn note_stop_failure(state: &mut ChannelState, error: &str)
    ensures
        opt_string(final(state).detail) == Some(stop_failed_text(error@)),
        final(state).channel == old(state).channel,
        final(state).status == old(state).status,
        final(state).recording == old(state).recording,
        final(state).last_broadcast_id == old(state).last_broadcast_id,
        final(state).suppressed_broadcast_id == old(state).suppressed_broadcast_id,
        final(state).next_check == old(state).next_check,
{
    state.detail = Some(crate::text::concat2("stop failed: ", error));
}

/// Channels of different platforms never share a key, whatever their
/// accounts.
pub proof fn law_channel_keys_separate_platforms(a: Seq<char>, b: Seq<char>)
    ensures
        channel_key_spec(PlatformId::Soop, a) != channel_key_spec(PlatformId::Chzzk, b),
{
    let ka = channel_key_spec(PlatformId::Soop, a);
    let kb = channel_key_spec(PlatformId::Chzzk, b);
    assert(ka[0] == 'S');
    assert(kb[0] == 'C');
}

/// Accounts that differ only in case or surrounding white space give the
/// same key on a platform.
pub proof fn law_channel_key_ignores_case(platform: PlatformId, a: Seq<char>, b: Seq<char>)
    requires
        eq_ignore_case(trim(a), trim(b)),
    ensures
        channel_key_spec(platform, a) == channel_key_spec(platform, b),
{
}


// ---------------------------------------------------------------------------
// Which Streamlink runs
// ---------------------------------------------------------------------------

/// The first configured Streamlink path (`STREAMLINK_PATH`, then
/// `STREAMLINK_FALLBACK`) that is neither blank nor `AUTO` and names a
/// file; else the first bundled candidate that is a file; else none.
/// Each path comes with whether it is a file.
pub open spec fn streamlink_choice_spec(configured: Seq<(String, bool)>, candidates: Seq<(String, bool)>) -> Option<
    Seq<char>,
>
    decreases configured.len() + candidates.len(),
{
    if configured.len() > 0 {
        let (v, is_file) = configured[0];
        if trim(v@).len() > 0 && !eq_ignore_case(v@, "AUTO"@) && is_file {
            Some(v@)
        } else {
            streamlink_choice_spec(configured.drop_first(), candidates)
        }
    } else if candidates.len() > 0 {
        if candidates[0].1 {
            Some(candidates[0].0@)
        } else {
            streamlink_choice_spec(configured, candidates.drop_first())
        }
    } else {
        None
    }
}

pub fn streamlink_choice(configured: &[(String, bool)], candidates: &[(String, bool)]) -> (r: Option<String>)
    ensures
        crate::text::opt_seq(r) == streamlink_choice_spec(configured@, candidates@),
{
    let mut i: usize = 0;
    assert(configured@.skip(0) =~= configured@);
    assert(candidates@.skip(0) =~= candidates@);
    while i < configured.len()
        invariant
            i <= configured.len(),
            streamlink_choice_spec(configured@, candidates@) == streamlink_choice_spec(configured@.skip(i as int), candidates@),
        decreases configured.len() - i,
    {
        assert(configured@.skip(i as int).drop_first() =~= configured@.skip(i + 1));
        assert(configured@.skip(i as int)[0] == configured@[i as int]);
        let (v, is_file) = &configured[i];
        if !crate::text::trim_str(v.as_str()).as_str().is_empty() && !crate::text::str_eq_ignore_case(v.as_str(), "AUTO") && *is_file {
            return Some(owned(v.as_str()));
        }
        i += 1;
    }
    assert(configured@.skip(i as int) =~= Seq::<(String, bool)>::empty());
    let mut j: usize = 0;
    while j < candidates.len()
        invariant
            j <= candidates.len(),
            streamlink_choice_spec(configured@, candidates@) == streamlink_choice_spec(
                Seq::<(String, bool)>::empty(),
                candidates@.skip(j as int),
            ),
        decreases candidates.len() - j,
    {
        assert(candidates@.skip(j as int).drop_first() =~= candidates@.skip(j + 1));
        assert(candidates@.skip(j as int)[0] == candidates@[j as int]);
        if candidates[j].1 {
            return Some(owned(candidates[j].0.as_str()));
        }
        j += 1;
    }
    None
}


// ---------------------------------------------------------------------------
// Reloading settings and channels while the watcher runs
// ---------------------------------------------------------------------------

/// Whether the stored values changed between two reads (both in key
/// order, each key once, so equal sequences are equal maps).
pub fn settings_values_changed(before: &[(String, String)], after: &[(String, String)]) -> (r: bool)
    ensures
        r == (pairs_view(before@) != pairs_view(after@)),
{
    if before.len() != after.len() {
        proof {
            assert(pairs_view(before@).len() != pairs_view(after@).len());
        }
        return true;
    }
    let mut i: usize = 0;
    while i < before.len()
        invariant
            i <= before.len(),
            before.len() == after.len(),
            forall|j: int| 0 <= j < i ==> #[trigger] pairs_view(before@)[j] == pairs_view(after@)[j],
        decreases before.len() - i,
    {
        let same = crate::text::str_eq(before[i].0.as_str(), after[i].0.as_str())
            && crate::text::str_eq(before[i].1.as_str(), after[i].1.as_str());
        if !same {
            proof {
                assert(pairs_view(before@)[i as int] != pairs_view(after@)[i as int]);
            }
            return true;
        }
        i += 1;
    }
    proof {
        assert(pairs_view(before@) =~= pairs_view(after@));
    }
    false
}

/// What a settings reload did.
#[derive(Debug)]
pub enum ReloadAction {
    /// The stored values did not change.
    Unchanged,
    /// The new values were refused; the previous settings stay.
    Rejected(WatcherConfigError),
    /// The new settings apply; the SOOP login is refreshed when asked.
    Applied { refresh_login: bool },
}

/// The SOOP credentials differ between two settings.
pub open spec fn soop_login_changed(a: WatcherSettings, b: WatcherSettings) -> bool {
    a.soop_username@ != b.soop_username@ || a.soop_password@ != b.soop_password@
}

/// A settings reload: with unchanged values nothing happens; settings that
/// the new values fail to give (`candidate` is what `watcher_settings`
/// gave for them) are refused and the current ones kept; otherwise the new
/// settings apply, and the SOOP login is refreshed when its credentials
/// changed and an enabled SOOP channel needs it.
pub fn settings_reload(
    values_changed: bool,
    current: WatcherSettings,
    candidate: Result<WatcherSettings, WatcherConfigError>,
    require_soop: bool,
) -> (r: (WatcherSettings, ReloadAction))
    ensures
        !values_changed ==> r.0 == current && r.1 is Unchanged,
        values_changed && candidate is Err ==> (r.0 == current && (r.1 matches ReloadAction::Rejected(e)
            && e == candidate->Err_0)),
        values_changed && candidate is Ok ==> (r.0 == candidate->Ok_0 && (r.1 matches ReloadAction::Applied {
            refresh_login,
        } && refresh_login == (require_soop && soop_login_changed(candidate->Ok_0, current)))),
{
    if !values_changed {
        return (current, ReloadAction::Unchanged);
    }
    match candidate {
        Err(e) => (current, ReloadAction::Rejected(e)),
        Ok(c) => {
            let changed = !crate::text::str_eq(c.soop_username.as_str(), current.soop_username.as_str())
                || !crate::text::str_eq(c.soop_password.as_str(), current.soop_password.as_str());
            let refresh = require_soop && changed;
            (c, ReloadAction::Applied { refresh_login: refresh })
        },
    }
}

/// What a channel reload did.
#[derive(Debug)]
pub enum ChannelReloadAction {
    /// The channel list did not change.
    Unchanged,
    /// The settings refuse the new channel list (an enabled SOOP channel
    /// without its credentials); the current list stays.
    RejectedConfig(WatcherConfigError),
    /// A channel of a platform without LIVE support; the current list
    /// stays.
    RejectedPlatform(PlatformId),
    /// The new list applies, with the settings given for it; the SOOP
    /// login is refreshed when an enabled SOOP channel needs it.
    Applied { refresh_login: bool },
}

/// The platform of the first channel whose platform records no LIVE.
pub open spec fn first_unsupported(cs: Seq<ChannelView>) -> Option<PlatformId>
    decreases cs.len(),
{
    if cs.len() == 0 {
        None
    } else if !cs[0].platform.capabilities_spec().live {
        Some(cs[0].platform)
    } else {
        first_unsupported(cs.drop_first())
    }
}

/// A channel reload: with an unchanged channel signature nothing happens;
/// settings that refuse the new list (`candidate` is what
/// `watcher_settings` gave for it) or a platform without LIVE support
/// keep the current list and settings; otherwise the list applies with
/// the new settings, and the SOOP login is refreshed when an enabled SOOP
/// channel needs it.
pub fn channel_reload(
    signature_changed: bool,
    channels: &[Channel],
    current: WatcherSettings,
    candidate: Result<WatcherSettings, WatcherConfigError>,
) -> (r: (WatcherSettings, ChannelReloadAction))
    ensures
        !signature_changed ==> r.0 == current && r.1 is Unchanged,
        signature_changed && candidate is Err ==> (r.0 == current && (r.1 matches ChannelReloadAction::RejectedConfig(
            e,
        ) && e == candidate->Err_0)),
        signature_changed && candidate is Ok && first_unsupported(channels_view(channels@)) is Some ==> (r.0
            == current && (r.1 matches ChannelReloadAction::RejectedPlatform(p) && Some(p) == first_unsupported(
            channels_view(channels@),
        ))),
        signature_changed && candidate is Ok && first_unsupported(channels_view(channels@)) is None ==> (r.0
            == candidate->Ok_0 && (r.1 matches ChannelReloadAction::Applied { refresh_login } && refresh_login
            == require_soop_spec(channels_view(channels@)))),
{
    if !signature_changed {
        return (current, ChannelReloadAction::Unchanged);
    }
    let c = match candidate {
        Err(e) => {
            return (current, ChannelReloadAction::RejectedConfig(e));
        },
        Ok(c) => c,
    };
    let ghost cs = channels_view(channels@);
    let mut i: usize = 0;
    assert(cs.skip(0) =~= cs);
    while i < channels.len()
        invariant
            i <= channels.len(),
            cs == channels_view(channels@),
            first_unsupported(cs) == first_unsupported(cs.skip(i as int)),
        decreases channels.len() - i,
    {
        assert(cs.skip(i as int).drop_first() =~= cs.skip(i + 1));
        assert(cs.skip(i as int)[0] == channels@[i as int]@);
        let p = channels[i].platform;
        if crate::live::ensure_supported(p).is_err() {
            return (current, ChannelReloadAction::RejectedPlatform(p));
        }
        i += 1;
    }
    assert(cs.skip(i as int) =~= Seq::<ChannelView>::empty());
    let refresh = channels_require_soop(channels);
    (c, ChannelReloadAction::Applied { refresh_login: refresh })
}


// ---------------------------------------------------------------------------
// Starting the watcher
// ---------------------------------------------------------------------------

/// The watcher task as a start request finds it.
#[derive(Debug, Clone, Copy, PartialEq, Eq, Structural)]
pub enum WatcherTask {
    /// No task was ever launched, or it was collected.
    Absent,
    /// A launched task still runs.
    Running,
    /// A launched task has finished but was not collected yet.
    Finished,
}

/// Why the watcher did not start.
#[derive(Debug, Clone, PartialEq, Eq)]
pub enum StartRefusal {
    /// A stored channel's platform records no LIVE.
    Platform(PlatformId),
    /// The stored settings give no watcher settings.
    Config(WatcherConfigError),
    /// No Streamlink executable was found.
    NoStreamlink,
}

/// What a start request does.
#[derive(Debug)]
pub enum StartDecision {
    /// A watcher already runs: the answer is its current snapshot, and
    /// nothing is launched.
    AlreadyRunning,
    /// Nothing is launched; a finished task is collected first when
    /// `collect_finished`.
    Refused { collect_finished: bool, reason: StartRefusal },
    /// A watcher is launched with these settings and this Streamlink; a
    /// finished task is collected first when `collect_finished`.
    Launch { collect_finished: bool, settings: WatcherSettings, streamlink: String },
}

/// A start request: a running watcher is left alone and answers with its
/// snapshot; otherwise the stored channels must all record LIVE, the
/// settings (what `watcher_settings` gave) must be valid and Streamlink
/// must be found, in that order, before a watcher is launched.
pub open spec fn start_spec(
    task: WatcherTask,
    channels: Seq<ChannelView>,
    settings: Result<WatcherSettings, WatcherConfigError>,
    streamlink: Option<String>,
) -> StartDecision {
    let collect = task == WatcherTask::Finished;
    if task == WatcherTask::Running {
        StartDecision::AlreadyRunning
    } else if let Some(p) = first_unsupported(channels) {
        StartDecision::Refused { collect_finished: collect, reason: StartRefusal::Platform(p) }
    } else {
        match settings {
            Err(e) => StartDecision::Refused { collect_finished: collect, reason: StartRefusal::Config(e) },
            Ok(c) => match streamlink {
                None => StartDecision::Refused { collect_finished: collect, reason: StartRefusal::NoStreamlink },
                Some(l) => StartDecision::Launch { collect_finished: collect, settings: c, streamlink: l },
            },
        }
    }
}

/// The platform of the first channel whose platform records no LIVE.
pub fn first_unsupported_platform(channels: &[Channel]) -> (r: Option<PlatformId>)
    ensures
        r == first_unsupported(channels_view(channels@)),
{
    let ghost cs = channels_view(channels@);
    let mut i: usize = 0;
    assert(cs.skip(0) =~= cs);
    while i < channels.len()
        invariant
            i <= channels.len(),
            cs == channels_view(channels@),
            first_unsupported(cs) == first_unsupported(cs.skip(i as int)),
        decreases channels.len() - i,
    {
        assert(cs.skip(i as int).drop_first() =~= cs.skip(i + 1));
        assert(cs.skip(i as int)[0] == channels@[i as int]@);
        let p = channels[i].platform;
        if crate::live::ensure_supported(p).is_err() {
            return Some(p);
        }
        i += 1;
    }
    assert(cs.skip(i as int) =~= Seq::<ChannelView>::empty());
    None
}

/// Decides a start request (see `start_spec`).
pub fn start_decision(
    task: WatcherTask,
    channels: &[Channel],
    settings: Result<WatcherSettings, WatcherConfigError>,
    streamlink: Option<String>,
) -> (r: StartDecision)
    ensures
        r == start_spec(task, channels_view(channels@), settings, streamlink),
{
    if task == WatcherTask::Running {
        return StartDecision::AlreadyRunning;
    }
    let collect = task == WatcherTask::Finished;
    if let Some(p) = first_unsupported_platform(channels) {
        return StartDecision::Refused { collect_finished: collect, reason: StartRefusal::Platform(p) };
    }
    match settings {
        Err(e) => StartDecision::Refused { collect_finished: collect, reason: StartRefusal::Config(e) },
        Ok(c) => match streamlink {
            None => StartDecision::Refused { collect_finished: collect, reason: StartRefusal::NoStreamlink },
            Some(l) => StartDecision::Launch { collect_finished: collect, settings: c, streamlink: l },
        },
    }
}

/// Starting is idempotent: while a watcher runs, a start request answers
/// with the current snapshot and launches nothing, whatever is stored.
pub proof fn law_start_while_running_launches_nothing(
    channels: Seq<ChannelView>,
    settings: Result<WatcherSettings, WatcherConfigError>,
    streamlink: Option<String>,
)
    ensures
        start_spec(WatcherTask::Running, channels, settings, streamlink) is AlreadyRunning,
{
}

/// A watcher is launched only when none runs, every stored channel
/// records LIVE, the settings are valid and Streamlink was found; it then
/// runs with exactly those settings and that Streamlink.
pub proof fn law_launch_only_when_every_check_passes(
    task: WatcherTask,
    channels: Seq<ChannelView>,
    settings: Result<WatcherSettings, WatcherConfigError>,
    streamlink: Option<String>,
)
    ensures
        (start_spec(task, channels, settings, streamlink) is Launch) <==> (task != WatcherTask::Running
            && first_unsupported(channels) is None && settings is Ok && streamlink is Some),
        start_spec(task, channels, settings, streamlink) matches StartDecision::Launch { settings: c, streamlink: l, .. }
            ==> (settings == Ok::<WatcherSettings, WatcherConfigError>(c) && streamlink == Some(l)),
{
}

} // verus!
