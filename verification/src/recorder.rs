//! The LIVE recorder's own rules: the FFmpeg arguments that rebase CHZZK
//! timestamps, the Netscape cookie file handed to Streamlink, and what a
//! poll of a running recording concludes.
use crate::live::{HttpCookie, StreamInput};
use crate::platform::PlatformId;
use crate::text::{chars_of, eq_ignore_case, format_i64, format_u64, has_char, opt_seq, push_chars, push_str, signed_decimal, string_of};
use vstd::prelude::*;

verus! {

/// The expiry written for every cookie: 2100-01-01 UTC (an expiry of 0
/// would make Streamlink drop the cookie as expired).
pub const COOKIE_FILE_EXPIRES_UNIX: i64 = 4102444800;

/// Why the recorder refused its input.
#[derive(Debug, Clone, Copy, PartialEq, Eq, Structural)]
pub enum RecorderError {
    /// The output path holds a double quote.
    QuoteInOutputPath,
    /// A cookie field holds a line break or tab.
    InvalidCookieData,
}

impl RecorderError {
    pub fn message(self) -> (r: &'static str)
        ensures
            r@ == match self {
                RecorderError::QuoteInOutputPath => "output file path contains an unsupported quote character"@,
                RecorderError::InvalidCookieData => "invalid cookie data"@,
            },
    {
        match self {
            RecorderError::QuoteInOutputPath => "output file path contains an unsupported quote character",
            RecorderError::InvalidCookieData => "invalid cookie data",
        }
    }
}

// ---------------------------------------------------------------------------
// Player arguments
// ---------------------------------------------------------------------------

/// Streamlink expands `{...}` in player arguments: each brace is doubled.
pub open spec fn escape_braces(s: Seq<char>) -> Seq<char>
    decreases s.len(),
{
    if s.len() == 0 {
        Seq::empty()
    } else {
        let c = s.last();
        escape_braces(s.drop_last()) + if c == '{' {
            seq!['{', '{']
        } else if c == '}' {
            seq!['}', '}']
        } else {
            seq![c]
        }
    }
}

/// The FFmpeg arguments before the output path.
pub open spec fn rebase_args_head() -> Seq<char> {
    "-hide_banner -loglevel warning -fflags +genpts+discardcorrupt -i {playerinput} -map 0:v:0? -map 0:a:0? -c copy -bsf:v h264_mp4toannexb -f mpegts -mpegts_flags resend_headers -mpegts_copyts 0 -avoid_negative_ts make_zero -muxpreload 0 -muxdelay 0 -avioflags direct -y "@
}

/// The player arguments that remux a CHZZK stream to MPEG-TS with
/// timestamps starting at zero, writing to `output`.
pub open spec fn rebase_args_spec(output: Seq<char>) -> Seq<char> {
    rebase_args_head() + seq!['"'] + escape_braces(output) + seq!['"']
}

/// The player arguments for a recording to `output` (the path as text),
/// refused when the path holds a double quote.
pub fn timestamp_rebase_player_args(output: &str) -> (r: Result<String, RecorderError>)
    ensures
        output@.contains('"') ==> r == Err::<String, RecorderError>(RecorderError::QuoteInOutputPath),
        !output@.contains('"') ==> (r matches Ok(s) && s@ == rebase_args_spec(output@)),
{
    let v = chars_of(output);
    if has_char(v.as_slice(), '"') {
        return Err(RecorderError::QuoteInOutputPath);
    }
    let mut out: Vec<char> = Vec::new();
    push_str(
        &mut out,
        "-hide_banner -loglevel warning -fflags +genpts+discardcorrupt -i {playerinput} -map 0:v:0? -map 0:a:0? -c copy -bsf:v h264_mp4toannexb -f mpegts -mpegts_flags resend_headers -mpegts_copyts 0 -avoid_negative_ts make_zero -muxpreload 0 -muxdelay 0 -avioflags direct -y ",
    );
    out.push('"');
    let ghost start = out@;
    let mut i: usize = 0;
    while i < v.len()
        invariant
            i <= v.len(),
            out@ == start + escape_braces(v@.take(i as int)),
        decreases v.len() - i,
    {
        let c = v[i];
        assert(v@.take(i + 1).drop_last() =~= v@.take(i as int));
        if c == '{' {
            out.push('{');
            out.push('{');
        } else if c == '}' {
            out.push('}');
            out.push('}');
        } else {
            out.push(c);
        }
        i += 1;
        assert(out@ =~= start + escape_braces(v@.take(i as int)));
    }
    assert(v@.take(v.len() as int) =~= v@);
    out.push('"');
    assert(out@ =~= rebase_args_spec(output@));
    Ok(string_of(out.as_slice()))
}

// ---------------------------------------------------------------------------
// Cookie file
// ---------------------------------------------------------------------------

pub open spec fn has_line_break_or_tab(s: Seq<char>) -> bool {
    s.contains('\r') || s.contains('\n') || s.contains('\t')
}

pub open spec fn cookie_bad(c: HttpCookie) -> bool {
    has_line_break_or_tab(c.domain@) || has_line_break_or_tab(c.name@) || has_line_break_or_tab(c.value@)
}

pub open spec fn flag(b: bool) -> Seq<char> {
    if b {
        "TRUE"@
    } else {
        "FALSE"@
    }
}

/// One line of a Netscape cookie file: domain, whether subdomains match
/// (the domain starts with `.`), path `/`, secure, expiry, name, value.
pub open spec fn cookie_line(c: HttpCookie) -> Seq<char> {
    c.domain@ + seq!['\t'] + flag(c.domain@.len() > 0 && c.domain@[0] == '.') + "\t/\t"@ + flag(c.secure)
        + seq!['\t'] + signed_decimal(COOKIE_FILE_EXPIRES_UNIX as int) + seq!['\t'] + c.name@ + seq!['\t']
        + c.value@ + seq!['\n']
}

pub open spec fn cookie_lines(cs: Seq<HttpCookie>) -> Seq<char>
    decreases cs.len(),
{
    if cs.len() == 0 {
        Seq::empty()
    } else {
        cookie_lines(cs.drop_last()) + cookie_line(cs.last())
    }
}

pub open spec fn cookie_file_header() -> Seq<char> {
    "# Netscape HTTP Cookie File\n"@
}

pub(crate) fn line_break_or_tab(v: &[char]) -> (r: bool)
    ensures
        r == has_line_break_or_tab(v@),
{
    has_char(v, '\r') || has_char(v, '\n') || has_char(v, '\t')
}

/// The text of the cookie file handed to Streamlink, refused when any field
/// of any cookie holds a line break or tab.
#[verifier::spinoff_prover]
#[verifier::rlimit(40)]
pub fn netscape_cookie_text(cookies: &[HttpCookie]) -> (r: Result<String, RecorderError>)
    ensures
        (exists|i: int| 0 <= i < cookies@.len() && cookie_bad(#[trigger] cookies@[i])) ==> r == Err::<
            String,
            RecorderError,
        >(RecorderError::InvalidCookieData),
        !(exists|i: int| 0 <= i < cookies@.len() && cookie_bad(#[trigger] cookies@[i])) ==> (r matches Ok(s)
            && s@ == cookie_file_header() + cookie_lines(cookies@)),
{
    let mut out: Vec<char> = Vec::new();
    push_str(&mut out, "# Netscape HTTP Cookie File\n");
    let ghost start = out@;
    let expires = format_i64(COOKIE_FILE_EXPIRES_UNIX);
    let mut i: usize = 0;
    while i < cookies.len()
        invariant
            i <= cookies.len(),
            start == cookie_file_header(),
            expires@ == signed_decimal(COOKIE_FILE_EXPIRES_UNIX as int),
            out@ == start + cookie_lines(cookies@.take(i as int)),
            forall|j: int| 0 <= j < i ==> !cookie_bad(#[trigger] cookies@[j]),
        decreases cookies.len() - i,
    {
        let c = &cookies[i];
        let d = chars_of(c.domain.as_str());
        if line_break_or_tab(d.as_slice()) || line_break_or_tab(chars_of(c.name.as_str()).as_slice())
            || line_break_or_tab(chars_of(c.value.as_str()).as_slice()) {
            assert(cookie_bad(cookies@[i as int]));
            return Err(RecorderError::InvalidCookieData);
        }
        let ghost before = out@;
        push_str(&mut out, c.domain.as_str());
        out.push('\t');
        if d.len() > 0 && d[0] == '.' {
            push_str(&mut out, "TRUE");
        } else {
            push_str(&mut out, "FALSE");
        }
        push_str(&mut out, "\t/\t");
        if c.secure {
            push_str(&mut out, "TRUE");
        } else {
            push_str(&mut out, "FALSE");
        }
        out.push('\t');
        push_str(&mut out, expires.as_str());
        out.push('\t');
        push_str(&mut out, c.name.as_str());
        out.push('\t');
        push_str(&mut out, c.value.as_str());
        out.push('\n');
        assert(out@ =~= before + cookie_line(*c));
        assert(cookies@.take(i + 1).drop_last() =~= cookies@.take(i as int));
        i += 1;
        assert(out@ =~= start + cookie_lines(cookies@.take(i as int)));
    }
    assert(cookies@.take(cookies.len() as int) =~= cookies@);
    Ok(string_of(out.as_slice()))
}

// ---------------------------------------------------------------------------
// Polling a recording
// ---------------------------------------------------------------------------

/// What a poll of a recording concludes (the free space of a low disk is
/// reported by the caller, which measured it).
#[derive(Debug, Clone, Copy, PartialEq, Eq, Structural)]
pub enum PollOutcome {
    Running,
    Exited(Option<i32>),
    LowDisk,
    Stalled,
}

/// The first step of a poll: an exited Streamlink ends it; so does a poll
/// that comes before the monitor interval (at least 1 s) has passed since
/// the last one. `None`: the disk and the file must be looked at.
pub fn poll_before_disk(exited: Option<Option<i32>>, since_monitor_ms: u64, monitor_interval_secs: u64) -> (r: Option<
    PollOutcome,
>)
    ensures
        exited matches Some(code) ==> r == Some(PollOutcome::Exited(code)),
        exited is None && since_monitor_ms < 1000 * (if monitor_interval_secs < 1 { 1 } else {
            monitor_interval_secs
        }) ==> r == Some(PollOutcome::Running),
        exited is None && since_monitor_ms >= 1000 * (if monitor_interval_secs < 1 { 1 } else {
            monitor_interval_secs
        }) ==> r.is_none(),
{
    match exited {
        Some(code) => {
            return Some(PollOutcome::Exited(code));
        },
        None => {},
    }
    let interval: u64 = if monitor_interval_secs < 1 { 1 } else { monitor_interval_secs };
    if interval > u64::MAX / 1000 {
        // No elapsed time in milliseconds reaches this interval.
        return Some(PollOutcome::Running);
    }
    if since_monitor_ms < interval * 1000 {
        Some(PollOutcome::Running)
    } else {
        None
    }
}

/// The second step of a poll, after the free space and the file size were
/// read: low disk first; a file that grew is running (and its size and
/// growth time are to be recorded); a file that has not grown for the stall
/// timeout (at least 10 s) is stalled. The flag says whether the growth is
/// to be recorded.
pub fn poll_after_disk(low_disk: bool, size: u64, last_size: u64, since_growth_ms: u64, stall_timeout_secs: u64) -> (r: (
    PollOutcome,
    bool,
))
    ensures
        low_disk ==> r == (PollOutcome::LowDisk, false),
        !low_disk && size > last_size ==> r == (PollOutcome::Running, true),
        !low_disk && size <= last_size ==> r.1 == false && (r.0 == PollOutcome::Stalled <==> since_growth_ms
            >= 1000 * (if stall_timeout_secs < 10 { 10 } else { stall_timeout_secs })) && (r.0
            == PollOutcome::Stalled || r.0 == PollOutcome::Running),
{
    if low_disk {
        return (PollOutcome::LowDisk, false);
    }
    if size > last_size {
        return (PollOutcome::Running, true);
    }
    let timeout: u64 = if stall_timeout_secs < 10 { 10 } else { stall_timeout_secs };
    if timeout > u64::MAX / 1000 {
        return (PollOutcome::Running, false);
    }
    if since_growth_ms >= timeout * 1000 {
        (PollOutcome::Stalled, false)
    } else {
        (PollOutcome::Running, false)
    }
}


// ---------------------------------------------------------------------------
// The output file of a recording
// ---------------------------------------------------------------------------

/// The requested file name with the platform's container extension: kept
/// when its extension already is that one (in any case), else with the
/// extension set as `PathBuf::set_extension` sets it.
pub open spec fn with_live_extension(name: Seq<char>, ext: Seq<char>) -> Seq<char> {
    if crate::vod::last_dot(name) > 0 && eq_ignore_case(crate::vod::file_ext(name), ext) {
        name
    } else if name.len() == 0 {
        name
    } else {
        crate::vod::file_stem(name) + seq!['.'] + ext
    }
}

/// The file name to try at `attempt` (from 0) for a recording: the
/// requested name with the platform's extension, then its stem with
/// `_02` up to `_9999` before the extension.
pub open spec fn live_output_candidate(name: Seq<char>, ext: Seq<char>, attempt: nat) -> Option<Seq<char>> {
    let fixed = with_live_extension(name, ext);
    if attempt == 0 {
        Some(fixed)
    } else {
        crate::vod::collision_candidate(crate::vod::file_stem(fixed), ext, attempt)
    }
}

/// The container a recording is written in.  Both platforms record
/// MPEG-TS: SOOP's HLS segments are written as they come, and a CHZZK
/// stream is remuxed to MPEG-TS by FFmpeg (see
/// `timestamp_rebase_player_args`), so its file is a `.ts` file too, not
/// the platform's general live container.
pub open spec fn recording_extension(platform: PlatformId) -> Seq<char> {
    match platform {
        PlatformId::Soop => "ts"@,
        PlatformId::Chzzk => "ts"@,
    }
}

pub fn recording_ext(platform: PlatformId) -> (r: &'static str)
    ensures
        r@ == recording_extension(platform),
{
    match platform {
        PlatformId::Soop => "ts",
        PlatformId::Chzzk => "ts",
    }
}

/// The file name to write a recording to at `attempt` (see
/// `live_output_candidate`), with the recording's container extension.
pub fn live_output_file_name(requested: &str, platform: PlatformId, attempt: u64) -> (r: Option<String>)
    ensures
        opt_seq(r) == live_output_candidate(requested@, recording_extension(platform), attempt as nat),
{
    let ext = recording_ext(platform);
    let (stem, current) = crate::vod::stem_and_ext(requested);
    let d = crate::vod::last_dot_exec(chars_of(requested).as_slice());
    let keep = d > 1 && crate::text::chars_eq_ignore_case(current.as_slice(), chars_of(ext).as_slice());
    let fixed = if keep || requested.is_empty() {
        crate::text::owned(requested)
    } else {
        let mut v: Vec<char> = Vec::new();
        push_chars(&mut v, stem.as_slice());
        v.push('.');
        push_str(&mut v, ext);
        assert(v@ =~= stem@ + seq!['.'] + ext@);
        string_of(v.as_slice())
    };
    assert(fixed@ == with_live_extension(requested@, ext@));
    if attempt == 0 {
        return Some(fixed);
    }
    let (base, _) = crate::vod::stem_and_ext(fixed.as_str());
    crate::vod::collision_name(string_of(base.as_slice()).as_str(), ext, attempt)
}


// ---------------------------------------------------------------------------
// The Streamlink command
// ---------------------------------------------------------------------------

/// The URL Streamlink opens: a direct playlist behind `hls://` (kept as
/// given when it already starts so, in any case), a plugin URL as it is.
pub open spec fn stream_url_spec(input: StreamInput) -> Seq<char> {
    match input {
        StreamInput::DirectHls(url) => if crate::text::starts_with(crate::text::lower_seq(url@), "hls://"@) {
            url@
        } else {
            "hls://"@ + url@
        },
        StreamInput::PluginUrl { url, .. } => url@,
    }
}

pub fn stream_url(input: &StreamInput) -> (r: String)
    ensures
        r@ == stream_url_spec(*input),
{
    match input {
        StreamInput::DirectHls(url) => {
            let lower = crate::text::lower_chars(chars_of(url.as_str()).as_slice());
            proof {
                reveal_strlit("hls://");
            }
            if crate::text::starts_with_chars(lower.as_slice(), chars_of("hls://").as_slice()) {
                crate::text::owned(url.as_str())
            } else {
                crate::text::concat2("hls://", url.as_str())
            }
        },
        StreamInput::PluginUrl { url, .. } => crate::text::owned(url.as_str()),
    }
}

/// Seconds Streamlink waits for stream data: the stall timeout (at least
/// 10) plus the monitor interval (at least 1), saturating.
pub open spec fn stream_timeout_spec(stall_timeout: u64, monitor_interval: u64) -> u64 {
    let a = if stall_timeout < 10 { 10 } else { stall_timeout };
    let b = if monitor_interval < 1 { 1 } else { monitor_interval };
    if a + b > u64::MAX { u64::MAX } else { (a + b) as u64 }
}

/// The arguments of Streamlink for a recording: the cookie file when there
/// is one; FFmpeg as player with its arguments when timestamps are
/// rebased, else the output file; then the fixed HLS options, the timeout,
/// the stream URL and the quality.
pub open spec fn streamlink_args_spec(
    cookie_file: Option<Seq<char>>,
    player: Option<(Seq<char>, Seq<char>)>,
    output_file: Seq<char>,
    timeout: u64,
    url: Seq<char>,
    quality: Seq<char>,
) -> Seq<Seq<char>> {
    let cookie_part = match cookie_file {
        Some(c) => seq!["--http-cookies-file"@, c],
        None => Seq::empty(),
    };
    let out_part = match player {
        Some((ffmpeg, args)) => seq!["--player"@, ffmpeg, "--player-args"@, args, "--player-verbose"@],
        None => seq!["--output"@, output_file, "--force"@],
    };
    cookie_part + out_part + seq![
        "--progress"@,
        "no"@,
        "--hls-live-edge"@,
        "3"@,
        "--stream-segment-threads"@,
        "3"@,
        "--stream-segmented-queue-deadline"@,
        "0"@,
        "--stream-timeout"@,
        crate::text::decimal(timeout as nat),
        url,
        quality,
    ]
}

fn push_text(v: &mut Vec<String>, s: &str)
    ensures
        crate::tools::texts_view(final(v)@) == crate::tools::texts_view(old(v)@).push(s@),
{
    let ghost before = crate::tools::texts_view(v@);
    v.push(crate::text::owned(s));
    assert(crate::tools::texts_view(v@) =~= before.push(s@));
}

#[verifier::spinoff_prover]

pub fn streamlink_args(
    cookie_file: Option<&str>,
    player: Option<(&str, &str)>,
    output_file: &str,
    stall_timeout: u64,
    monitor_interval: u64,
    url: &str,
    quality: &str,
) -> (r: Vec<String>)
    ensures
        crate::tools::texts_view(r@) == streamlink_args_spec(
            match cookie_file {
                Some(c) => Some(c@),
                None => None,
            },
            match player {
                Some((f, a)) => Some((f@, a@)),
                None => None,
            },
            output_file@,
            stream_timeout_spec(stall_timeout, monitor_interval),
            url@,
            quality@,
        ),
{
    let mut v: Vec<String> = Vec::new();
    match cookie_file {
        Some(c) => {
            push_text(&mut v, "--http-cookies-file");
            push_text(&mut v, c);
        },
        None => {},
    }
    match player {
        Some((ffmpeg, args)) => {
            push_text(&mut v, "--player");
            push_text(&mut v, ffmpeg);
            push_text(&mut v, "--player-args");
            push_text(&mut v, args);
            push_text(&mut v, "--player-verbose");
        },
        None => {
            push_text(&mut v, "--output");
            push_text(&mut v, output_file);
            push_text(&mut v, "--force");
        },
    }
    let a: u64 = if stall_timeout < 10 { 10 } else { stall_timeout };
    let b: u64 = if monitor_interval < 1 { 1 } else { monitor_interval };
    let timeout: u64 = a.saturating_add(b);
    assert(timeout == stream_timeout_spec(stall_timeout, monitor_interval));
    push_text(&mut v, "--progress");
    push_text(&mut v, "no");
    push_text(&mut v, "--hls-live-edge");
    push_text(&mut v, "3");
    push_text(&mut v, "--stream-segment-threads");
    push_text(&mut v, "3");
    push_text(&mut v, "--stream-segmented-queue-deadline");
    push_text(&mut v, "0");
    push_text(&mut v, "--stream-timeout");
    let t = format_u64(timeout);
    push_text(&mut v, t.as_str());
    push_text(&mut v, url);
    push_text(&mut v, quality);
    let ghost want = streamlink_args_spec(
        match cookie_file {
            Some(c) => Some(c@),
            None => None,
        },
        match player {
            Some((f, x)) => Some((f@, x@)),
            None => None,
        },
        output_file@,
        timeout,
        url@,
        quality@,
    );
    assert(crate::tools::texts_view(v@) =~= want);
    v
}


// ---------------------------------------------------------------------------
// A finished recording
// ---------------------------------------------------------------------------

/// The history state of a finished recording by the reason it ended:
/// `NORMAL` completes it, a stall or an exit code fails it, anything else
/// stops it.
pub open spec fn finished_status_spec(reason: Seq<char>) -> Seq<char> {
    if reason == "NORMAL"@ {
        "COMPLETED"@
    } else if crate::text::contains(reason, "STALLED"@) || crate::text::contains(reason, "EXIT CODE"@) {
        "FAILED"@
    } else {
        "STOPPED"@
    }
}

pub fn finished_status(reason: &str) -> (r: &'static str)
    ensures
        r@ == finished_status_spec(reason@),
{
    if crate::text::str_eq(reason, "NORMAL") {
        "COMPLETED"
    } else if crate::text::str_contains(reason, "STALLED") || crate::text::str_contains(reason, "EXIT CODE") {
        "FAILED"
    } else {
        "STOPPED"
    }
}


/// The file a recording is written to (see `live_output_candidate`),
/// given which candidates exist: the first that does not.
pub fn choose_live_output_name(requested: &str, platform: PlatformId, taken: &[bool]) -> (r: crate::vod::NameChoice)
    ensures
        crate::vod::choice_spec(
            r,
            taken@,
            9999,
            |a: nat| live_output_candidate(requested@, recording_extension(platform), a),
        ),
{
    match crate::vod::first_free_slot(taken, 9999) {
        Some(i) => match live_output_file_name(requested, platform, i) {
            Some(name) => crate::vod::NameChoice::Free { attempt: i, name },
            None => crate::vod::NameChoice::Exhausted,
        },
        None => if taken.len() >= 9999 {
            crate::vod::NameChoice::Exhausted
        } else {
            crate::vod::NameChoice::NeedFacts
        },
    }
}

} // verus!
