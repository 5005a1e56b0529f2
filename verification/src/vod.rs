//! CHZZK VOD downloads: which URLs are videos, which download requests are
//! accepted, the quality choices offered, the yt-dlp format selector, the
//! names and messages of a download, and the redaction of cookies in the
//! tool's output.
use crate::platform::{PlatformId, UrlParts, chzzk_host, chzzk_video_number, is_http_scheme, parse_url, url_parse, video_number};
use crate::text::{
    all_digits, chars_of, decimal, digit_chars, eq_ignore_case, format_u64, is_digit, owned, push_str,
    str_eq, str_eq_ignore_case, string_of, trim, trim_chars, trim_str, opt_seq, contains, first_index,
    index_from, occurs_at, occurs_at_exec,
};
use crate::watcher::{safe_stem, safe_stem_spec, two_digits};
use vstd::prelude::*;

verus! {

// ---------------------------------------------------------------------------
// Regular expressions
// ---------------------------------------------------------------------------

/// What `regex::Regex::new(pattern)` and then `is_match(text)` give:
/// `None` when the pattern does not compile.
pub uninterp spec fn regex_is_match(pattern: Seq<char>, text: Seq<char>) -> Option<bool>;

/// What `regex::Regex::new(pattern)`, `captures(text)` and `get(group)`
/// give: `None` when the pattern does not compile, `Some(None)` when the
/// text does not match or the group took no part.
pub uninterp spec fn regex_group(pattern: Seq<char>, text: Seq<char>, group: usize) -> Option<Option<Seq<char>>>;

/// What `regex::Regex::new(pattern)` and `replace_all(text, replacement)`
/// give: `None` when the pattern does not compile.
pub uninterp spec fn regex_replace(pattern: Seq<char>, text: Seq<char>, replacement: Seq<char>) -> Option<Seq<char>>;

/// Calls `regex::Regex::new` and `is_match`; the contract only names the
/// outcome for these arguments.
#[verifier::external_body]
fn regex_matches(pattern: &str, text: &str) -> (r: Option<bool>)
    ensures
        r == regex_is_match(pattern@, text@),
{
    match regex::Regex::new(pattern) {
        Ok(re) => Some(re.is_match(text)),
        Err(_) => None,
    }
}

/// Calls `regex::Regex::new`, `captures` and `get`; the contract only
/// names the outcome for these arguments.
#[verifier::external_body]
fn regex_capture(pattern: &str, text: &str, group: usize) -> (r: Option<Option<String>>)
    ensures
        match r {
            None => regex_group(pattern@, text@, group) is None,
            Some(None) => regex_group(pattern@, text@, group) == Some(None::<Seq<char>>),
            Some(Some(s)) => regex_group(pattern@, text@, group) == Some(Some(s@)),
        },
{
    match regex::Regex::new(pattern) {
        Ok(re) => match re.captures(text) {
            Some(c) => match c.get(group) {
                Some(m) => Some(Some(m.as_str().to_string())),
                None => Some(None),
            },
            None => Some(None),
        },
        Err(_) => None,
    }
}

/// Calls `regex::Regex::new` and `replace_all`; the contract only names the
/// outcome for these arguments.
#[verifier::external_body]
fn regex_replace_all(pattern: &str, text: &str, replacement: &str) -> (r: Option<String>)
    ensures
        match r {
            Some(s) => regex_replace(pattern@, text@, replacement@) == Some(s@),
            None => regex_replace(pattern@, text@, replacement@) is None,
        },
{
    match regex::Regex::new(pattern) {
        Ok(re) => Some(re.replace_all(text, replacement).into_owned()),
        Err(_) => None,
    }
}

// ---------------------------------------------------------------------------
// Requests
// ---------------------------------------------------------------------------

/// A VOD analysis request.
#[derive(Debug, Clone)]
pub struct VodAnalyzeRequest {
    pub vod_url: String,
    pub cookie_mode: String,
    pub cookie_file: String,
    pub browser_name: String,
    pub yt_dlp_path: String,
    pub ffmpeg_path: String,
    pub max_retries: u32,
    pub quality: String,
    pub part_numbers: Vec<u32>,
    pub merge_parts: bool,
    pub output_dir: String,
}

/// A VOD download request.
#[derive(Debug, Clone)]
pub struct VodDownloadRequest {
    pub vod_url: String,
    pub output_directory: String,
    pub parts: Vec<u32>,
    pub quality: String,
    pub merge: bool,
    pub cookie_mode: String,
    pub cookie_file: String,
    pub browser_name: String,
    pub yt_dlp_path: String,
    pub ffmpeg_path: String,
    pub max_retries: u32,
}

/// The defaults of a request that leaves a field out.
pub fn default_cookie_mode() -> (r: String)
    ensures
        r@ == "SOOP_LOGIN"@,
{
    owned("SOOP_LOGIN")
}

pub fn default_browser() -> (r: String)
    ensures
        r@ == "firefox"@,
{
    owned("firefox")
}

pub fn default_max_retries() -> (r: u32)
    ensures
        r == 5,
{
    5
}

pub fn default_quality() -> (r: String)
    ensures
        r@ == "best"@,
{
    owned("best")
}

pub fn default_merge() -> (r: bool)
    ensures
        r,
{
    true
}

/// Why a VOD request was refused.
#[derive(Debug, Clone, Copy, PartialEq, Eq, Structural)]
pub enum VodError {
    /// The URL does not parse.
    MalformedUrl,
    /// The URL is not http or https.
    NotHttp,
    /// The URL is not on the CHZZK host.
    NotChzzkHost,
    /// The URL is not `/video/<digits>`.
    NotVideoPath,
    /// The retry count is outside 1 to 20.
    RetriesOutOfRange,
    /// The output folder is blank.
    NoOutputDirectory,
    /// A part other than 1 was asked for.
    PartNotSingle,
    /// The quality is not `best` or `best[height<=N]`.
    UnsupportedQuality,
    /// The video has no title.
    NoTitle,
}

/// The video number of a CHZZK video URL, or why it is none.
pub open spec fn video_id_spec(raw: Seq<char>) -> Result<Seq<char>, VodError> {
    match url_parse(trim(raw)) {
        None => Err(VodError::MalformedUrl),
        Some(u) => if !is_http_scheme(u.scheme) {
            Err(VodError::NotHttp)
        } else if !(u.host matches Some(h) && eq_ignore_case(h, chzzk_host())) {
            Err(VodError::NotChzzkHost)
        } else {
            match chzzk_video_number(u.path) {
                Some(id) => Ok(id),
                None => Err(VodError::NotVideoPath),
            }
        },
    }
}

pub fn video_id(raw: &str) -> (r: Result<String, VodError>)
    ensures
        match video_id_spec(raw@) {
            Ok(id) => r matches Ok(x) && x@ == id,
            Err(e) => r == Err::<String, VodError>(e),
        },
{
    let t = trim_str(raw);
    let u = match parse_url(t.as_str()) {
        None => {
            return Err(VodError::MalformedUrl);
        },
        Some(u) => u,
    };
    proof {
        reveal_strlit("https");
        reveal_strlit("http");
        assert("https"@ =~= seq!['h', 't', 't', 'p', 's']);
        assert("http"@ =~= seq!['h', 't', 't', 'p']);
    }
    if !(str_eq(u.scheme.as_str(), "https") || str_eq(u.scheme.as_str(), "http")) {
        return Err(VodError::NotHttp);
    }
    let host_ok = match &u.host {
        Some(h) => {
            let host = chars_of("chzzk.naver.com");
            proof {
                reveal_strlit("chzzk.naver.com");
                assert(host@ =~= chzzk_host());
            }
            crate::text::chars_eq_ignore_case(chars_of(h.as_str()).as_slice(), host.as_slice())
        },
        None => false,
    };
    if !host_ok {
        return Err(VodError::NotChzzkHost);
    }
    match video_number(u.path.as_str()) {
        Some(id) => Ok(id),
        None => Err(VodError::NotVideoPath),
    }
}

pub fn validate_url(raw: &str) -> (r: Result<(), VodError>)
    ensures
        match video_id_spec(raw@) {
            Ok(_) => r is Ok,
            Err(e) => r == Err::<(), VodError>(e),
        },
{
    match video_id(raw) {
        Ok(_) => Ok(()),
        Err(e) => Err(e),
    }
}

pub fn validate_retries(retries: u32) -> (r: Result<(), VodError>)
    ensures
        r is Ok <==> 1 <= retries <= 20,
        r is Err ==> r == Err::<(), VodError>(VodError::RetriesOutOfRange),
{
    if retries < 1 || retries > 20 {
        return Err(VodError::RetriesOutOfRange);
    }
    Ok(())
}

/// The pattern the quality of a download request must match.
pub open spec fn quality_pattern() -> Seq<char> {
    "^best(?:\\[height<=\\d+\\])?$"@
}

/// The checks of a download request, given whether its trimmed quality
/// matches `quality_pattern` (`None` when the pattern did not compile):
/// the URL, the retries, a folder, only part 1, and the quality.
pub open spec fn download_check(
    url: Seq<char>,
    retries: u32,
    output: Seq<char>,
    parts: Seq<u32>,
    quality: Seq<char>,
    quality_matches: Option<bool>,
) -> Result<(), VodError> {
    if video_id_spec(url) is Err {
        Err(video_id_spec(url)->Err_0)
    } else if !(1 <= retries <= 20) {
        Err(VodError::RetriesOutOfRange)
    } else if trim(output).len() == 0 {
        Err(VodError::NoOutputDirectory)
    } else if exists|i: int| 0 <= i < parts.len() && parts[i] != 1 {
        Err(VodError::PartNotSingle)
    } else if trim(quality).len() > 0 && quality_matches != Some(true) {
        Err(VodError::UnsupportedQuality)
    } else {
        Ok(())
    }
}

/// The checks of a download request, given how its trimmed quality
/// matched the quality pattern.
pub fn validate_download_with(req: &VodDownloadRequest, quality_matches: Option<bool>) -> (r: Result<(), VodError>)
    ensures
        r == download_check(req.vod_url@, req.max_retries, req.output_directory@, req.parts@, req.quality@, quality_matches),
{
    validate_url(req.vod_url.as_str())?;
    validate_retries(req.max_retries)?;
    let out = trim_str(req.output_directory.as_str());
    if out.as_str().is_empty() {
        return Err(VodError::NoOutputDirectory);
    }
    let mut i: usize = 0;
    while i < req.parts.len()
        invariant
            i <= req.parts.len(),
            forall|j: int| 0 <= j < i ==> req.parts@[j] == 1,
            video_id_spec(req.vod_url@) is Ok,
            1 <= req.max_retries <= 20,
            trim(req.output_directory@).len() > 0,
        decreases req.parts.len() - i,
    {
        if req.parts[i] != 1 {
            assert(req.parts@[i as int] != 1);
            return Err(VodError::PartNotSingle);
        }
        i += 1;
    }
    let q = trim_str(req.quality.as_str());
    if !q.as_str().is_empty() {
        match quality_matches {
            Some(true) => {},
            _ => {
                return Err(VodError::UnsupportedQuality);
            },
        }
    }
    Ok(())
}

/// Checks a download request (see `download_check`).
pub fn validate_download_request(req: &VodDownloadRequest) -> (r: Result<(), VodError>)
    ensures
        r == download_check(
            req.vod_url@,
            req.max_retries,
            req.output_directory@,
            req.parts@,
            req.quality@,
            regex_is_match(quality_pattern(), trim(req.quality@)),
        ),
{
    let q = trim_str(req.quality.as_str());
    let m = regex_matches("^best(?:\\[height<=\\d+\\])?$", q.as_str());
    validate_download_with(req, m)
}

// ---------------------------------------------------------------------------
// Quality
// ---------------------------------------------------------------------------

/// The pattern of a height-limited quality, the height captured.
pub open spec fn height_pattern() -> Seq<char> {
    "^best\\[height<=(\\d+)\\]$"@
}

/// The yt-dlp format selector for a captured height, if any.
pub open spec fn selector_spec(height: Option<Seq<char>>) -> Seq<char> {
    match height {
        Some(h) => "bestvideo*[height<="@ + h + "]+bestaudio/best[height<="@ + h + "]"@,
        None => "bestvideo*+bestaudio/best"@,
    }
}

pub fn selector_for_height(height: Option<&str>) -> (r: String)
    ensures
        r@ == selector_spec(
            match height {
                Some(h) => Some(h@),
                None => None,
            },
        ),
{
    match height {
        Some(h) => {
            let mut v: Vec<char> = Vec::new();
            push_str(&mut v, "bestvideo*[height<=");
            push_str(&mut v, h);
            push_str(&mut v, "]+bestaudio/best[height<=");
            push_str(&mut v, h);
            push_str(&mut v, "]");
            assert(v@ =~= "bestvideo*[height<="@ + h@ + "]+bestaudio/best[height<="@ + h@ + "]"@);
            string_of(v.as_slice())
        },
        None => owned("bestvideo*+bestaudio/best"),
    }
}

/// The yt-dlp format selector for a quality: the height of
/// `best[height<=N]` limits video and fallback; anything else is best.
pub fn format_selector(quality: &str) -> (r: String)
    ensures
        r@ == selector_spec(
            match regex_group(height_pattern(), quality@, 1) {
                Some(Some(h)) => Some(h),
                _ => None,
            },
        ),
{
    match regex_capture("^best\\[height<=(\\d+)\\]$", quality, 1) {
        Some(Some(h)) => selector_for_height(Some(h.as_str())),
        _ => selector_for_height(None),
    }
}

/// A quality the user may pick.
#[derive(Debug, Clone)]
pub struct VodQualityOption {
    pub value: String,
    pub label: String,
}

/// What the runtime read of one format of the video metadata.
#[derive(Debug, Clone, Copy)]
pub struct FormatHeight {
    /// Whether the format's video codec is `none` (audio only).
    pub audio_only: bool,
    pub height: Option<u64>,
}

/// The heights of the video formats.
pub open spec fn video_heights(formats: Seq<FormatHeight>) -> Set<u64> {
    Set::new(|h: u64| h > 0 && exists|i: int| 0 <= i < formats.len() && !formats[i].audio_only && formats[i].height == Some(h))
}

/// `hs` holds the largest heights, at most eight, highest first.
pub open spec fn top_heights(hs: Seq<u64>, all: Set<u64>) -> bool {
    &&& hs.len() <= 8
    &&& forall|i: int, j: int| 0 <= i < j < hs.len() ==> hs[i] > hs[j]
    &&& forall|i: int| 0 <= i < hs.len() ==> all.contains(#[trigger] hs[i])
    &&& forall|h: u64| #[trigger] all.contains(h) ==> hs.contains(h) || (hs.len() == 8 && h < hs[7])
}

pub open spec fn option_for_height(h: u64) -> (Seq<char>, Seq<char>) {
    ("best[height<="@ + decimal(h as nat) + "]"@, decimal(h as nat) + "p 이하"@)
}

pub open spec fn option_view(o: VodQualityOption) -> (Seq<char>, Seq<char>) {
    (o.value@, o.label@)
}

fn insert_height(hs: &mut Vec<u64>, h: u64)
    requires
        forall|i: int, j: int| 0 <= i < j < old(hs)@.len() ==> old(hs)@[i] > old(hs)@[j],
    ensures
        forall|i: int, j: int| 0 <= i < j < final(hs)@.len() ==> final(hs)@[i] > final(hs)@[j],
        forall|x: u64| final(hs)@.contains(x) <==> (old(hs)@.contains(x) || x == h),
{
    let mut pos: usize = 0;
    while pos < hs.len() && hs[pos] > h
        invariant
            pos <= hs.len(),
            hs@ == old(hs)@,
            forall|i: int| 0 <= i < pos ==> hs@[i] > h,
        decreases hs.len() - pos,
    {
        pos += 1;
    }
    if pos < hs.len() && hs[pos] == h {
        assert(hs@[pos as int] == h);
        return;
    }
    let ghost before = hs@;
    hs.insert(pos, h);
    assert forall|x: u64| hs@.contains(x) <==> (before.contains(x) || x == h) by {
        if hs@.contains(x) {
            let k = choose|k: int| 0 <= k < hs@.len() && hs@[k] == x;
            if k < pos {
                assert(before[k] == x);
            } else if k > pos {
                assert(before[k - 1] == x);
            }
        }
        if before.contains(x) {
            let k = choose|k: int| 0 <= k < before.len() && before[k] == x;
            if k < pos {
                assert(hs@[k] == x);
            } else {
                assert(hs@[k + 1] == x);
            }
        }
        if x == h {
            assert(hs@[pos as int] == h);
        }
    }
    assert(forall|x: u64| #[trigger] hs@.contains(x) <==> (old(hs)@.contains(x) || x == h));
}

/// The qualities offered for a video: `best`, then the eight largest
/// heights of its video formats, highest first.
#[verifier::spinoff_prover]
pub fn quality_options(formats: &[FormatHeight]) -> (r: Vec<VodQualityOption>)
    ensures
        r@.len() >= 1,
        option_view(r@[0]) == ("best"@, "최고 화질 (자동)"@),
        ({
            let hs = r@.drop_first().map_values(|o: VodQualityOption| o);
            exists|heights: Seq<u64>|
                #[trigger] top_heights(heights, video_heights(formats@)) && heights.len() == r@.len() - 1
                    && forall|i: int| 0 <= i < heights.len() ==> option_view(#[trigger] r@[i + 1]) == option_for_height(
                    heights[i],
                )
        }),
{
    let mut hs: Vec<u64> = Vec::new();
    let mut i: usize = 0;
    while i < formats.len()
        invariant
            i <= formats.len(),
            forall|a: int, b: int| 0 <= a < b < hs@.len() ==> hs@[a] > hs@[b],
            forall|x: u64| hs@.contains(x) <==> (x > 0 && exists|k: int| 0 <= k < i && !formats@[k].audio_only && formats@[k].height == Some(x)),
        decreases formats.len() - i,
    {
        let f = formats[i];
        if !f.audio_only {
            match f.height {
                Some(h) => {
                    if h > 0 {
                        insert_height(&mut hs, h);
                    }
                },
                None => {},
            }
        }
        proof {
            assert forall|x: u64| hs@.contains(x) <==> (x > 0 && exists|k: int| 0 <= k < i + 1 && !formats@[k].audio_only && formats@[k].height == Some(x)) by {
                if x > 0 && exists|k: int| 0 <= k < i + 1 && !formats@[k].audio_only && formats@[k].height == Some(x) {
                    let k = choose|k: int| 0 <= k < i + 1 && !formats@[k].audio_only && formats@[k].height == Some(x);
                    if k < i {
                    }
                }
            }
        }
        i += 1;
    }
    let ghost all = video_heights(formats@);
    assert forall|x: u64| hs@.contains(x) <==> all.contains(x) by {}
    let mut out: Vec<VodQualityOption> = Vec::new();
    out.push(VodQualityOption { value: owned("best"), label: owned("최고 화질 (자동)") });
    let n: usize = if hs.len() < 8 { hs.len() } else { 8 };
    let ghost top = hs@.take(n as int);
    let mut k: usize = 0;
    while k < n
        invariant
            k <= n <= hs.len(),
            n <= 8,
            top == hs@.take(n as int),
            out@.len() == k + 1,
            option_view(out@[0]) == ("best"@, "최고 화질 (자동)"@),
            forall|j: int| 0 <= j < k ==> option_view(#[trigger] out@[j + 1]) == option_for_height(top[j]),
        decreases n - k,
    {
        let h = hs[k];
        let hd = format_u64(h);
        let mut value: Vec<char> = Vec::new();
        push_str(&mut value, "best[height<=");
        push_str(&mut value, hd.as_str());
        push_str(&mut value, "]");
        let mut label: Vec<char> = Vec::new();
        push_str(&mut label, hd.as_str());
        push_str(&mut label, "p 이하");
        assert(value@ =~= option_for_height(h).0);
        assert(label@ =~= option_for_height(h).1);
        out.push(VodQualityOption { value: string_of(value.as_slice()), label: string_of(label.as_slice()) });
        k += 1;
    }
    proof {
        assert(top_heights(top, all)) by {
            assert forall|h: u64| #[trigger] all.contains(h) implies top.contains(h) || (top.len() == 8 && h < top[7]) by {
                assert(hs@.contains(h));
                let p = choose|p: int| 0 <= p < hs@.len() && hs@[p] == h;
                if p < n {
                    assert(top[p] == h);
                } else {
                    assert(hs@[7] > hs@[p]);
                }
            }
            assert forall|a: int| 0 <= a < top.len() implies all.contains(#[trigger] top[a]) by {
                assert(hs@.contains(hs@[a]));
            }
        }
    }
    out
}

// ---------------------------------------------------------------------------
// Metadata
// ---------------------------------------------------------------------------

/// `yymmdd` of a date: the third to eighth of its digits, when it has at
/// least eight.
pub open spec fn short_date_spec(value: Seq<char>) -> Option<Seq<char>> {
    let digits = value.filter(|c: char| is_digit(c));
    if digits.len() >= 8 {
        Some(digits.subrange(2, 8))
    } else {
        None
    }
}

pub fn short_date(value: &str) -> (r: Option<String>)
    ensures
        opt_seq(r) == short_date_spec(value@),
{
    let v = chars_of(value);
    let mut digits: Vec<char> = Vec::new();
    let mut i: usize = 0;
    while i < v.len()
        invariant
            i <= v.len(),
            v@ == value@,
            digits@ == v@.take(i as int).filter(|c: char| is_digit(c)),
        decreases v.len() - i,
    {
        assert(v@.take(i + 1).drop_last() =~= v@.take(i as int));
        proof {
            reveal(Seq::filter);
        }
        if '0' <= v[i] && v[i] <= '9' {
            digits.push(v[i]);
        }
        i += 1;
    }
    assert(v@.take(v.len() as int) =~= v@);
    if digits.len() >= 8 {
        let d = crate::text::slice_vec(digits.as_slice(), 2, 8);
        Some(string_of(d.as_slice()))
    } else {
        None
    }
}

/// `safe_stem`, as the VOD file names use it.
pub fn safe_name(value: &str, max: usize) -> (r: String)
    ensures
        r@ == safe_stem_spec(value@, max as nat),
{
    let s = safe_stem(value, max);
    string_of(s.as_slice())
}

/// What a VOD is called and when it was made.
#[derive(Debug, Clone)]
pub struct VodMetadata {
    pub title: String,
    pub streamer: String,
    pub streamer_id: String,
    pub date: String,
    pub duration_seconds: u64,
    pub qualities: Vec<VodQualityOption>,
}

/// The first present text of two, trimmed, else the fallback.
pub open spec fn first_of(a: Option<Seq<char>>, b: Option<Seq<char>>, fallback: Seq<char>) -> Seq<char> {
    match a {
        Some(x) => trim(x),
        None => match b {
            Some(y) => trim(y),
            None => trim(fallback),
        },
    }
}

pub open spec fn opt_text(o: Option<String>) -> Option<Seq<char>> {
    match o {
        Some(s) => Some(s@),
        None => None,
    }
}

fn first_text(a: &Option<String>, b: &Option<String>, fallback: &str) -> (r: String)
    ensures
        r@ == first_of(opt_text(*a), opt_text(*b), fallback@),
{
    match a {
        Some(x) => trim_str(x.as_str()),
        None => match b {
            Some(y) => trim_str(y.as_str()),
            None => trim_str(fallback),
        },
    }
}

/// The metadata of a video from the fields yt-dlp reported: the title
/// (required, trimmed), the channel (else the uploader, else `CHZZK`), its
/// id (else the uploader id, else empty), the upload date as `yymmdd`
/// (else `today`), the duration, and the quality options.
pub fn metadata_from_fields(
    title: Option<String>,
    channel: Option<String>,
    uploader: Option<String>,
    channel_id: Option<String>,
    uploader_id: Option<String>,
    duration_seconds: u64,
    upload_date: Option<String>,
    today: &str,
    formats: &[FormatHeight],
) -> (r: Result<VodMetadata, VodError>)
    ensures
        ({
            let t = first_of(opt_text(title), None, Seq::empty());
            if t.len() == 0 {
                r == Err::<VodMetadata, VodError>(VodError::NoTitle)
            } else {
                r matches Ok(m) && m.title@ == t && m.streamer@ == first_of(opt_text(channel), opt_text(uploader), "CHZZK"@)
                    && m.streamer_id@ == first_of(opt_text(channel_id), opt_text(uploader_id), Seq::empty())
                    && m.date@ == (match upload_date {
                    Some(d) => match short_date_spec(d@) {
                        Some(s) => s,
                        None => today@,
                    },
                    None => today@,
                }) && m.duration_seconds == duration_seconds
            }
        }),
{
    let t = first_text(&title, &None, "");
    if t.as_str().is_empty() {
        return Err(VodError::NoTitle);
    }
    let streamer = first_text(&channel, &uploader, "CHZZK");
    proof {
        reveal_strlit("CHZZK");
        assert(trim("CHZZK"@) == "CHZZK"@) by {
            assert("CHZZK"@ =~= seq!['C', 'H', 'Z', 'Z', 'K']);
        }
    }
    let streamer_id = first_text(&channel_id, &uploader_id, "");
    proof {
        reveal_strlit("");
        assert(trim(""@) =~= Seq::<char>::empty());
    }
    let date = match &upload_date {
        Some(d) => match short_date(d.as_str()) {
            Some(s) => s,
            None => owned(today),
        },
        None => owned(today),
    };
    Ok(VodMetadata {
        title: t,
        streamer,
        streamer_id,
        date,
        duration_seconds,
        qualities: quality_options(formats),
    })
}

/// The name (without extension) a finished VOD is saved under:
/// `date_streamer_title`, the streamer at most 60 and the title at most 100
/// characters.
pub fn download_base_name(m: &VodMetadata) -> (r: String)
    ensures
        r@ == m.date@ + seq!['_'] + safe_stem_spec(m.streamer@, 60) + seq!['_'] + safe_stem_spec(m.title@, 100),
{
    let mut v: Vec<char> = Vec::new();
    push_str(&mut v, m.date.as_str());
    v.push('_');
    let s = safe_stem(m.streamer.as_str(), 60);
    crate::text::push_chars(&mut v, s.as_slice());
    v.push('_');
    let t = safe_stem(m.title.as_str(), 100);
    crate::text::push_chars(&mut v, t.as_slice());
    assert(v@ =~= m.date@ + seq!['_'] + safe_stem_spec(m.streamer@, 60) + seq!['_'] + safe_stem_spec(m.title@, 100));
    string_of(v.as_slice())
}

/// The file to try at `attempt` (from 0) for a base name and extension:
/// `base.ext`, then `base_02.ext` up to `base_9999.ext`.
pub open spec fn collision_candidate(base: Seq<char>, ext: Seq<char>, attempt: nat) -> Option<Seq<char>> {
    if attempt == 0 {
        Some(base + seq!['.'] + ext)
    } else if attempt < 9999 {
        Some(base + seq!['_'] + two_digits(attempt + 1) + seq!['.'] + ext)
    } else {
        None
    }
}

pub fn collision_name(base: &str, ext: &str, attempt: u64) -> (r: Option<String>)
    ensures
        opt_seq(r) == collision_candidate(base@, ext@, attempt as nat),
{
    let mut v: Vec<char> = Vec::new();
    push_str(&mut v, base);
    if attempt == 0 {
        v.push('.');
        push_str(&mut v, ext);
        assert(v@ =~= base@ + seq!['.'] + ext@);
        return Some(string_of(v.as_slice()));
    }
    if attempt >= 9999 {
        return None;
    }
    v.push('_');
    let n = attempt + 1;
    if n < 10 {
        v.push('0');
    }
    push_str(&mut v, format_u64(n).as_str());
    v.push('.');
    push_str(&mut v, ext);
    assert(v@ =~= base@ + seq!['_'] + two_digits((attempt + 1) as nat) + seq!['.'] + ext@);
    Some(string_of(v.as_slice()))
}

// ---------------------------------------------------------------------------
// The download loop
// ---------------------------------------------------------------------------

/// How many times a download is tried: the retry count, at least once.
pub fn download_attempts(max_retries: u32) -> (r: u32)
    ensures
        r == (if max_retries < 1 { 1 } else { max_retries }),
{
    if max_retries < 1 {
        1
    } else {
        max_retries
    }
}

/// Seconds to wait after a failed attempt: the attempt number, at most 5.
pub fn retry_delay_secs(attempt: u32) -> (r: u64)
    ensures
        r == (if attempt < 5 { attempt as u64 } else { 5 }),
{
    if attempt < 5 {
        attempt as u64
    } else {
        5
    }
}

/// What follows a failed attempt: another one after a wait, or giving up.
pub fn retry_after_failure(attempt: u32, attempts: u32) -> (r: Option<u64>)
    ensures
        attempt < attempts ==> r == Some(if attempt < 5 { attempt as u64 } else { 5u64 }),
        attempt >= attempts ==> r.is_none(),
{
    if attempt < attempts {
        Some(retry_delay_secs(attempt))
    } else {
        None
    }
}

/// The progress marker yt-dlp is told to print.
pub open spec fn progress_prefix() -> Seq<char> {
    "__CHZZK_PROGRESS__"@
}

/// `i` is the first place `n` occurs in `h`.
pub open spec fn first_occurrence(h: Seq<char>, n: Seq<char>, i: int) -> bool {
    occurs_at(h, n, i) && forall|j: int| 0 <= j < i ==> !occurs_at(h, n, j)
}

/// `trim_end_matches('%')`.
pub open spec fn trim_end_percent(s: Seq<char>) -> Seq<char>
    decreases s.len(),
{
    if s.len() > 0 && s.last() == '%' {
        trim_end_percent(s.drop_last())
    } else {
        s
    }
}

/// The percentage text that follows the marker at `i`: trimmed, without
/// trailing `%`, trimmed again.
pub open spec fn progress_after(line: Seq<char>, i: int) -> Seq<char> {
    trim(trim_end_percent(trim(line.skip(i + progress_prefix().len()))))
}

/// `t` is the percentage text of the first marker in `line`.
pub open spec fn progress_of(line: Seq<char>, t: Seq<char>) -> bool {
    exists|i: int| #[trigger] first_occurrence(line, progress_prefix(), i) && t == progress_after(line, i)
}

fn strip_percent(v: &[char]) -> (r: Vec<char>)
    ensures
        r@ == trim_end_percent(v@),
{
    let mut n: usize = v.len();
    assert(v@.take(n as int) =~= v@);
    while n > 0 && v[n - 1] == '%'
        invariant
            n <= v.len(),
            trim_end_percent(v@) == trim_end_percent(v@.take(n as int)),
        decreases n,
    {
        assert(v@.take(n as int).drop_last() =~= v@.take(n - 1));
        n -= 1;
    }
    assert(trim_end_percent(v@.take(n as int)) == v@.take(n as int));
    crate::text::slice_vec(v, 0, n)
}

/// The percentage text of a yt-dlp progress line, `None` when the line has
/// no marker (the number in it is read by the caller).
pub fn progress_text(line: &str) -> (r: Option<String>)
    ensures
        match r {
            None => !contains(line@, progress_prefix()),
            Some(t) => progress_of(line@, t@),
        },
{
    let h = chars_of(line);
    let p = chars_of("__CHZZK_PROGRESS__");
    proof {
        reveal_strlit("__CHZZK_PROGRESS__");
    }
    assert(p@ == progress_prefix());
    if p.len() > h.len() {
        assert(forall|i: int| !occurs_at(h@, p@, i));
        return None;
    }
    let mut i: usize = 0;
    while i <= h.len() - p.len()
        invariant_except_break
            h@ == line@,
            p@ == progress_prefix(),
            p.len() <= h.len(),
            i <= h.len() - p.len(),
            forall|j: int| 0 <= j < i ==> !occurs_at(h@, p@, j),
        ensures
            h@ == line@,
            p@ == progress_prefix(),
            forall|j: int| 0 <= j <= h.len() - p.len() ==> !occurs_at(h@, p@, j),
        decreases h.len() - p.len() - i,
    {
        if occurs_at_exec(h.as_slice(), p.as_slice(), i) {
            assert(first_occurrence(h@, p@, i as int));
            let rest = crate::text::slice_vec(h.as_slice(), i + p.len(), h.len());
            assert(rest@ =~= h@.skip(i + p.len()));
            let t1 = trim_chars(rest.as_slice());
            let t2 = strip_percent(t1.as_slice());
            let t3 = trim_chars(t2.as_slice());
            let out = string_of(t3.as_slice());
            assert(out@ == progress_after(line@, i as int));
            return Some(out);
        }
        if i == h.len() - p.len() {
            break;
        }
        i += 1;
    }
    assert forall|j: int| !occurs_at(h@, p@, j) by {
        if 0 <= j && j + p.len() <= h.len() {
            assert(j <= h.len() - p.len());
        }
    }
    None
}

// ---------------------------------------------------------------------------
// Tool output
// ---------------------------------------------------------------------------

/// The pattern of a NAVER session cookie and its value.
pub open spec fn cookie_pattern() -> Seq<char> {
    "(?i)(NID_(?:AUT|SES)=)[^;\\s]+"@
}

/// What a cookie value is replaced with.
pub open spec fn redaction() -> Seq<char> {
    "$1<redacted>"@
}

/// A text with the values of `NID_AUT` and `NID_SES` cookies replaced by
/// `<redacted>` (`None` when the pattern did not compile).
pub fn redact(value: &str) -> (r: Option<String>)
    ensures
        opt_seq(r) == regex_replace(cookie_pattern(), value@, redaction()),
{
    regex_replace_all("(?i)(NID_(?:AUT|SES)=)[^;\\s]+", value, "$1<redacted>")
}

/// The number of output lines kept for an error message.
pub const TAIL_LINES: usize = 20;

/// What `push_tail` leaves of `tail` after `line`: the oldest line dropped
/// when 20 are held, then the redacted trimmed line added unless it is
/// empty (or could not be redacted).
pub open spec fn tail_after(tail: Seq<Seq<char>>, line: Seq<char>) -> Seq<Seq<char>> {
    let kept = if tail.len() >= 20 { tail.drop_first() } else { tail };
    match regex_replace(cookie_pattern(), trim(line), redaction()) {
        Some(clean) => if clean.len() > 0 { kept.push(clean) } else { kept },
        None => kept,
    }
}

/// Keeps the last lines of the tool's output for an error message.
pub fn push_tail(tail: &mut Vec<String>, line: &str)
    ensures
        crate::tools::texts_view(final(tail)@) == tail_after(crate::tools::texts_view(old(tail)@), line@),
{
    let ghost before = crate::tools::texts_view(tail@);
    if tail.len() >= TAIL_LINES {
        tail.remove(0);
        assert(crate::tools::texts_view(tail@) =~= before.drop_first());
    }
    let ghost kept = crate::tools::texts_view(tail@);
    let t = trim_str(line);
    match redact(t.as_str()) {
        Some(clean) => {
            if !clean.as_str().is_empty() {
                tail.push(clean);
                assert(crate::tools::texts_view(tail@) =~= kept.push(clean@));
            }
        },
        None => {},
    }
}

/// The lines of the tail joined by ` | `.
pub open spec fn joined(lines: Seq<Seq<char>>) -> Seq<char>
    decreases lines.len(),
{
    if lines.len() == 0 {
        Seq::empty()
    } else if lines.len() == 1 {
        lines[0]
    } else {
        joined(lines.drop_last()) + " | "@ + lines.last()
    }
}

/// The kept output of a failed download, joined and redacted.
pub fn tail_summary(tail: &[String]) -> (r: Option<String>)
    ensures
        opt_seq(r) == regex_replace(cookie_pattern(), joined(crate::tools::texts_view(tail@)), redaction()),
{
    let mut v: Vec<char> = Vec::new();
    let mut i: usize = 0;
    proof {
        reveal_strlit(" | ");
    }
    while i < tail.len()
        invariant
            i <= tail.len(),
            v@ == joined(crate::tools::texts_view(tail@.take(i as int))),
        decreases tail.len() - i,
    {
        let ghost before = v@;
        if i > 0 {
            push_str(&mut v, " | ");
        }
        push_str(&mut v, tail[i].as_str());
        proof {
            let lines = crate::tools::texts_view(tail@.take(i + 1));
            assert(lines.drop_last() =~= crate::tools::texts_view(tail@.take(i as int)));
            assert(lines.last() == tail@[i as int]@);
        }
        i += 1;
    }
    assert(tail@.take(tail.len() as int) =~= tail@);
    let text = string_of(v.as_slice());
    redact(text.as_str())
}

/// One part of a VOD.
#[derive(Debug, Clone, Copy)]
pub struct VodPartInfo {
    pub part: u32,
    pub duration_seconds: u64,
}

/// What an analysis shows: a CHZZK VOD is one part.
#[derive(Debug, Clone)]
pub struct VodAnalysisView {
    pub vod_url: String,
    pub title: String,
    pub streamer: String,
    pub streamer_id: String,
    pub part_count: u32,
    pub qualities: Vec<VodQualityOption>,
    pub parts: Vec<VodPartInfo>,
}

pub fn analysis_view(vod_url: &str, metadata: &VodMetadata) -> (r: VodAnalysisView)
    ensures
        r.vod_url@ == vod_url@,
        r.title@ == metadata.title@,
        r.streamer@ == metadata.streamer@,
        r.streamer_id@ == metadata.streamer_id@,
        r.part_count == 1,
        r.qualities@.map_values(|o: VodQualityOption| option_view(o)) == metadata.qualities@.map_values(
            |o: VodQualityOption| option_view(o),
        ),
        r.parts@ == seq![VodPartInfo { part: 1, duration_seconds: metadata.duration_seconds }],
{
    let mut qualities: Vec<VodQualityOption> = Vec::new();
    let mut i: usize = 0;
    while i < metadata.qualities.len()
        invariant
            i <= metadata.qualities.len(),
            qualities@.map_values(|o: VodQualityOption| option_view(o)) == metadata.qualities@.take(
                i as int,
            ).map_values(|o: VodQualityOption| option_view(o)),
        decreases metadata.qualities.len() - i,
    {
        let q = &metadata.qualities[i];
        let ghost before = qualities@;
        let nq = VodQualityOption { value: owned(q.value.as_str()), label: owned(q.label.as_str()) };
        assert(option_view(nq) == option_view(*q));
        qualities.push(nq);
        assert(qualities@.map_values(|o: VodQualityOption| option_view(o)) =~= before.map_values(
            |o: VodQualityOption| option_view(o),
        ).push(option_view(nq)));
        assert(metadata.qualities@.take(i + 1).map_values(|o: VodQualityOption| option_view(o))
            =~= metadata.qualities@.take(i as int).map_values(|o: VodQualityOption| option_view(o)).push(
            option_view(*q),
        ));
        i += 1;
    }
    assert(metadata.qualities@.take(metadata.qualities.len() as int) =~= metadata.qualities@);
    VodAnalysisView {
        vod_url: owned(vod_url),
        title: owned(metadata.title.as_str()),
        streamer: owned(metadata.streamer.as_str()),
        streamer_id: owned(metadata.streamer_id.as_str()),
        part_count: 1,
        qualities,
        parts: vec![VodPartInfo { part: 1, duration_seconds: metadata.duration_seconds }],
    }
}

// ---------------------------------------------------------------------------
// Finished jobs
// ---------------------------------------------------------------------------

/// How many finished jobs are remembered.
pub const TERMINAL_CACHE_LIMIT: usize = 32;

/// The outcome of the latest job with the id among the entries.
pub open spec fn latest<V>(entries: Seq<(Seq<char>, V)>, id: Seq<char>) -> Option<V>
    decreases entries.len(),
{
    if entries.len() == 0 {
        None
    } else if entries.last().0 == id {
        Some(entries.last().1)
    } else {
        latest(entries.drop_last(), id)
    }
}

/// The outcomes of the last finished jobs, oldest first, by job id.
pub struct TerminalCache<V> {
    entries: std::collections::VecDeque<(String, V)>,
}

impl<V> TerminalCache<V> {
    pub closed spec fn view(&self) -> Seq<(Seq<char>, V)> {
        self.entries@.map_values(|e: (String, V)| (e.0@, e.1))
    }

    /// At most `TERMINAL_CACHE_LIMIT` jobs are remembered.
    #[verifier::type_invariant]
    spec fn bounded(self) -> bool {
        self.entries@.len() <= TERMINAL_CACHE_LIMIT
    }

    pub fn new() -> (r: Self)
        ensures
            r@ == Seq::<(Seq<char>, V)>::empty(),
    {
        let r = TerminalCache { entries: std::collections::VecDeque::new() };
        assert(r@ =~= Seq::<(Seq<char>, V)>::empty());
        r
    }

    /// Remembers a finished job, forgetting the oldest one first when the
    /// limit is reached.
    pub fn push(&mut self, id: String, outcome: V)
        ensures
            final(self)@ == crate::backend::keep_last(old(self)@.push((id@, outcome)), TERMINAL_CACHE_LIMIT as nat),
            final(self)@.len() <= TERMINAL_CACHE_LIMIT,
    {
        proof {
            use_type_invariant(&*self);
        }
        broadcast use vstd::std_specs::vecdeque::axiom_spec_len;
        let ghost all = self@.push((id@, outcome));
        let mut entries: std::collections::VecDeque<(String, V)> = std::collections::VecDeque::new();
        std::mem::swap(&mut entries, &mut self.entries);
        let ghost before = entries@;
        assert(before.map_values(|e: (String, V)| (e.0@, e.1)) == old(self)@);
        if entries.len() >= TERMINAL_CACHE_LIMIT {
            let _ = entries.pop_front();
            assert(entries@ =~= before.drop_first());
        }
        entries.push_back((id, outcome));
        proof {
            let v = entries@.map_values(|e: (String, V)| (e.0@, e.1));
            if before.len() >= TERMINAL_CACHE_LIMIT {
                assert(v =~= all.drop_first());
            } else {
                assert(v =~= all);
            }
            assert(v =~= crate::backend::keep_last(all, TERMINAL_CACHE_LIMIT as nat));
        }
        self.entries = entries;
    }

    /// The outcome of the latest remembered job with the id.
    pub fn find(&self, id: &str) -> (r: Option<&V>)
        ensures
            match latest(self@, id@) {
                Some(v) => r matches Some(x) && *x == v,
                None => r is None,
            },
    {
        broadcast use vstd::std_specs::vecdeque::axiom_spec_len;
        let ghost all = self@;
        let mut i: usize = self.entries.len();
        assert(all.take(i as int) =~= all);
        while i > 0
            invariant
                i <= self.entries@.len(),
                all == self@,
                latest(all, id@) == latest(all.take(i as int), id@),
            decreases i,
        {
            assert(all.take(i as int).drop_last() =~= all.take(i - 1));
            assert(all.take(i as int).last() == all[i - 1]);
            let entry = &self.entries[i - 1];
            if str_eq(entry.0.as_str(), id) {
                return Some(&entry.1);
            }
            i -= 1;
        }
        None
    }
}

/// The job just remembered is the one found for its id.
pub proof fn law_terminal_latest_wins<V>(entries: Seq<(Seq<char>, V)>, id: Seq<char>, outcome: V)
    ensures
        latest(crate::backend::keep_last(entries.push((id, outcome)), TERMINAL_CACHE_LIMIT as nat), id) == Some(
            outcome,
        ),
        crate::backend::keep_last(entries.push((id, outcome)), TERMINAL_CACHE_LIMIT as nat).len()
            <= TERMINAL_CACHE_LIMIT,
{
    let k = crate::backend::keep_last(entries.push((id, outcome)), TERMINAL_CACHE_LIMIT as nat);
    assert(k.last() == (id, outcome));
}


// ---------------------------------------------------------------------------
// Ending a job
// ---------------------------------------------------------------------------

pub open spec fn cancelled_message() -> Seq<char> {
    "CHZZK VOD 작업이 취소되었습니다."@
}

/// The state and message a job ends with when its run did not finish it:
/// a cancelled job is `CANCELLED`, a failed one `FAILED` with its error
/// redacted (`None` as message when the pattern did not compile); a job
/// that ended well keeps what its run set.
pub fn finished_job(cancelled: bool, error: Option<&str>) -> (r: Option<(String, Option<String>)>)
    ensures
        cancelled ==> (r matches Some((s, Some(m))) && s@ == "CANCELLED"@ && m@ == cancelled_message()),
        !cancelled && error is None ==> r is None,
        !cancelled && error is Some ==> (r matches Some((s, m)) && s@ == "FAILED"@ && opt_seq(m) == regex_replace(
            cookie_pattern(),
            error->0@,
            redaction(),
        )),
{
    if cancelled {
        Some((owned("CANCELLED"), Some(owned("CHZZK VOD 작업이 취소되었습니다."))))
    } else {
        match error {
            Some(e) => Some((owned("FAILED"), redact(e))),
            None => None,
        }
    }
}

// ---------------------------------------------------------------------------
// The file a download left
// ---------------------------------------------------------------------------

/// The index of the last `.` of a name, or -1.
pub open spec fn last_dot(s: Seq<char>) -> int
    decreases s.len(),
{
    if s.len() == 0 {
        -1
    } else if s.last() == '.' {
        s.len() - 1
    } else {
        last_dot(s.drop_last())
    }
}

/// `Path::file_stem` of a file name: the part before the last `.`, or the
/// whole name when it has no `.` but the first.
pub open spec fn file_stem(name: Seq<char>) -> Seq<char> {
    if last_dot(name) <= 0 {
        name
    } else {
        name.take(last_dot(name))
    }
}

/// `Path::extension` of a file name, empty when it has none.
pub open spec fn file_ext(name: Seq<char>) -> Seq<char> {
    if last_dot(name) <= 0 {
        Seq::empty()
    } else {
        name.skip(last_dot(name) + 1)
    }
}

/// A file that may be the one yt-dlp finished: its stem starts with the
/// expected stem and its extension is `mp4`, `mkv` or `webm`, in any case.
pub open spec fn finished_candidate(expected_stem: Seq<char>, name: Seq<char>, is_file: bool) -> bool {
    let ext = crate::text::lower_seq(file_ext(name));
    is_file && crate::text::starts_with(file_stem(name), expected_stem) && (ext == "mp4"@ || ext == "mkv"@ || ext
        == "webm"@)
}

pub(crate) fn last_dot_exec(v: &[char]) -> (r: usize)
    ensures
        r == last_dot(v@) + 1,
        r <= v.len(),
{
    let mut i: usize = v.len();
    assert(v@.take(i as int) =~= v@);
    while i > 0
        invariant
            i <= v.len(),
            last_dot(v@) == last_dot(v@.take(i as int)),
        decreases i,
    {
        assert(v@.take(i as int).last() == v@[i - 1]);
        if v[i - 1] == '.' {
            return i;
        }
        assert(v@.take(i as int).drop_last() =~= v@.take(i - 1));
        i -= 1;
    }
    0
}

pub(crate) fn stem_and_ext(name: &str) -> (r: (Vec<char>, Vec<char>))
    ensures
        r.0@ == file_stem(name@),
        r.1@ == file_ext(name@),
{
    let v = chars_of(name);
    let d = last_dot_exec(v.as_slice());
    if d <= 1 {
        (v, Vec::new())
    } else {
        let stem = crate::text::slice_vec(v.as_slice(), 0, d - 1);
        let ext = crate::text::slice_vec(v.as_slice(), d, v.len());
        assert(stem@ =~= v@.take(d - 1));
        assert(ext@ =~= v@.skip(d as int));
        (stem, ext)
    }
}

fn is_finished_candidate(expected_stem: &[char], name: &str, is_file: bool) -> (r: bool)
    ensures
        r == finished_candidate(expected_stem@, name@, is_file),
{
    if !is_file {
        return false;
    }
    let (stem, ext) = stem_and_ext(name);
    if !crate::text::starts_with_chars(stem.as_slice(), expected_stem) {
        return false;
    }
    let lower = string_of(crate::text::lower_chars(ext.as_slice()).as_slice());
    str_eq(lower.as_str(), "mp4") || str_eq(lower.as_str(), "mkv") || str_eq(lower.as_str(), "webm")
}

/// Which of the entries of the download folder (name and whether it is a
/// file) yt-dlp finished, when the expected file is not there: the first
/// in name order of the candidates.
pub fn finished_output_choice(expected_name: &str, entries: &[(String, bool)]) -> (r: Option<usize>)
    ensures
        match r {
            Some(i) => i < entries.len() && finished_candidate(file_stem(expected_name@), entries@[i as int].0@, entries@[i as int].1)
                && forall|j: int|
                0 <= j < entries.len() && finished_candidate(file_stem(expected_name@), #[trigger] entries@[j].0@, entries@[j].1)
                    ==> !crate::text::text_lt(entries@[j].0@, entries@[i as int].0@),
            None => forall|j: int|
                0 <= j < entries.len() ==> !finished_candidate(file_stem(expected_name@), #[trigger] entries@[j].0@, entries@[j].1),
        },
{
    let (expected_stem, _) = stem_and_ext(expected_name);
    let ghost st = file_stem(expected_name@);
    let mut best: Option<usize> = None;
    let mut i: usize = 0;
    while i < entries.len()
        invariant
            i <= entries.len(),
            expected_stem@ == st,
            match best {
                Some(b) => b < i && finished_candidate(st, entries@[b as int].0@, entries@[b as int].1) && forall|j: int|
                    0 <= j < i && finished_candidate(st, #[trigger] entries@[j].0@, entries@[j].1) ==> !crate::text::text_lt(
                        entries@[j].0@,
                        entries@[b as int].0@,
                    ),
                None => forall|j: int| 0 <= j < i ==> !finished_candidate(st, #[trigger] entries@[j].0@, entries@[j].1),
            },
        decreases entries.len() - i,
    {
        let (name, is_file) = &entries[i];
        if is_finished_candidate(expected_stem.as_slice(), name.as_str(), *is_file) {
            match best {
                Some(b) => {
                    if crate::text::str_lt(name.as_str(), entries[b].0.as_str()) {
                        proof {
                            assert forall|j: int|
                                0 <= j < i + 1 && finished_candidate(st, #[trigger] entries@[j].0@, entries@[j].1)
                                    implies !crate::text::text_lt(entries@[j].0@, entries@[i as int].0@) by {
                                if j < i {
                                    crate::text::lemma_text_lt_asymmetric(entries@[j].0@, entries@[i as int].0@);
                                    if crate::text::text_lt(entries@[j].0@, entries@[i as int].0@) {
                                        crate::text::lemma_text_lt_transitive(
                                            entries@[j].0@,
                                            entries@[i as int].0@,
                                            entries@[b as int].0@,
                                        );
                                    }
                                } else {
                                    crate::text::lemma_text_lt_asymmetric(entries@[j].0@, entries@[j].0@);
                                }
                            }
                        }
                        best = Some(i);
                    }
                },
                None => {
                    proof {
                        crate::text::lemma_text_lt_asymmetric(entries@[i as int].0@, entries@[i as int].0@);
                    }
                    best = Some(i);
                },
            }
        }
        i += 1;
    }
    best
}


// ---------------------------------------------------------------------------
// Job history
// ---------------------------------------------------------------------------

/// The kind a job is stored under in the VOD history: by its state, and a
/// job of another state that left a file counts as a download.
pub open spec fn job_kind_spec(state: Seq<char>, has_output: bool) -> Seq<char> {
    if state == "READY"@ || state == "ANALYZING"@ {
        "ANALYZE"@
    } else if state == "COMPLETED"@ || state == "DOWNLOADING"@ || state == "REFRESHING"@ || state == "MERGING"@ {
        "DOWNLOAD"@
    } else if has_output {
        "DOWNLOAD"@
    } else {
        "JOB"@
    }
}

pub fn vod_job_kind(state: &str, has_output: bool) -> (r: &'static str)
    ensures
        r@ == job_kind_spec(state@, has_output),
{
    if str_eq(state, "READY") || str_eq(state, "ANALYZING") {
        "ANALYZE"
    } else if str_eq(state, "COMPLETED") || str_eq(state, "DOWNLOADING") || str_eq(state, "REFRESHING") || str_eq(
        state,
        "MERGING",
    ) {
        "DOWNLOAD"
    } else if has_output {
        "DOWNLOAD"
    } else {
        "JOB"
    }
}


// ---------------------------------------------------------------------------
// Which platform's VOD job is shown
// ---------------------------------------------------------------------------

/// The platform whose VOD job runs, SOOP's first; none when both are idle.
pub open spec fn running_platform_spec(soop_running: bool, chzzk_running: bool) -> Option<PlatformId> {
    if soop_running {
        Some(PlatformId::Soop)
    } else if chzzk_running {
        Some(PlatformId::Chzzk)
    } else {
        None
    }
}

pub fn running_platform(soop_running: bool, chzzk_running: bool) -> (r: Option<PlatformId>)
    ensures
        r == running_platform_spec(soop_running, chzzk_running),
{
    if soop_running {
        Some(PlatformId::Soop)
    } else if chzzk_running {
        Some(PlatformId::Chzzk)
    } else {
        None
    }
}

/// The platform a status request or a cancel is about: the running one,
/// else the one last selected.
pub fn vod_target_platform(soop_running: bool, chzzk_running: bool, selected: PlatformId) -> (r: PlatformId)
    ensures
        r == match running_platform_spec(soop_running, chzzk_running) {
            Some(p) => p,
            None => selected,
        },
{
    match running_platform(soop_running, chzzk_running) {
        Some(p) => p,
        None => selected,
    }
}


// ---------------------------------------------------------------------------
// yt-dlp commands
// ---------------------------------------------------------------------------

fn push_text(v: &mut Vec<String>, s: &str)
    ensures
        crate::tools::texts_view(final(v)@) == crate::tools::texts_view(old(v)@).push(s@),
{
    let ghost before = crate::tools::texts_view(v@);
    v.push(owned(s));
    assert(crate::tools::texts_view(v@) =~= before.push(s@));
}

pub open spec fn opt_str_view(o: Option<&str>) -> Option<Seq<char>> {
    match o {
        Some(s) => Some(s@),
        None => None,
    }
}

/// `--cookies FILE` when there is a cookie file.
pub open spec fn cookie_args(cookie_file: Option<Seq<char>>) -> Seq<Seq<char>> {
    match cookie_file {
        Some(c) => seq!["--cookies"@, c],
        None => Seq::empty(),
    }
}

/// The arguments that make yt-dlp print the metadata of a VOD.
pub open spec fn metadata_args_spec(cookie_file: Option<Seq<char>>, url: Seq<char>) -> Seq<Seq<char>> {
    seq!["--dump-single-json"@, "--skip-download"@, "--no-playlist"@, "--no-warnings"@] + cookie_args(cookie_file)
        + seq![url]
}

pub fn metadata_args(cookie_file: Option<&str>, vod_url: &str) -> (r: Vec<String>)
    ensures
        crate::tools::texts_view(r@) == metadata_args_spec(opt_str_view(cookie_file), vod_url@),
{
    let mut v: Vec<String> = Vec::new();
    push_text(&mut v, "--dump-single-json");
    push_text(&mut v, "--skip-download");
    push_text(&mut v, "--no-playlist");
    push_text(&mut v, "--no-warnings");
    if let Some(c) = cookie_file {
        push_text(&mut v, "--cookies");
        push_text(&mut v, c);
    }
    push_text(&mut v, vod_url);
    assert(crate::tools::texts_view(v@) =~= metadata_args_spec(opt_str_view(cookie_file), vod_url@));
    v
}

/// The arguments of a yt-dlp download: progress lines marked for the
/// reader, the format selector, an MP4 merge to `output`, the cookie file,
/// FFmpeg's location when known, and the URL.
pub open spec fn download_args_spec(
    selector: Seq<char>,
    output: Seq<char>,
    cookie_file: Option<Seq<char>>,
    ffmpeg: Option<Seq<char>>,
    url: Seq<char>,
) -> Seq<Seq<char>> {
    seq![
        "--no-playlist"@,
        "--newline"@,
        "--progress"@,
        "--progress-template"@,
        "download:"@ + progress_prefix() + "%(progress._percent_str)s"@,
        "-f"@,
        selector,
        "--merge-output-format"@,
        "mp4"@,
        "-o"@,
        output,
    ] + cookie_args(cookie_file) + match ffmpeg {
        Some(f) => seq!["--ffmpeg-location"@, f],
        None => Seq::empty(),
    } + seq![url]
}

pub fn download_args(quality: &str, output: &str, cookie_file: Option<&str>, ffmpeg: Option<&str>, vod_url: &str) -> (r:
    Vec<String>)
    ensures
        crate::tools::texts_view(r@) == download_args_spec(
            selector_spec(
                match regex_group(height_pattern(), trim(quality@), 1) {
                    Some(Some(h)) => Some(h),
                    _ => None,
                },
            ),
            output@,
            opt_str_view(cookie_file),
            opt_str_view(ffmpeg),
            vod_url@,
        ),
{
    let selector = format_selector(trim_str(quality).as_str());
    let mut template: Vec<char> = Vec::new();
    push_str(&mut template, "download:");
    push_str(&mut template, "__CHZZK_PROGRESS__");
    push_str(&mut template, "%(progress._percent_str)s");
    proof {
        reveal_strlit("__CHZZK_PROGRESS__");
    }
    assert(template@ =~= "download:"@ + progress_prefix() + "%(progress._percent_str)s"@);
    let template = string_of(template.as_slice());
    let mut v: Vec<String> = Vec::new();
    push_text(&mut v, "--no-playlist");
    push_text(&mut v, "--newline");
    push_text(&mut v, "--progress");
    push_text(&mut v, "--progress-template");
    push_text(&mut v, template.as_str());
    push_text(&mut v, "-f");
    push_text(&mut v, selector.as_str());
    push_text(&mut v, "--merge-output-format");
    push_text(&mut v, "mp4");
    push_text(&mut v, "-o");
    push_text(&mut v, output);
    if let Some(c) = cookie_file {
        push_text(&mut v, "--cookies");
        push_text(&mut v, c);
    }
    if let Some(f) = ffmpeg {
        push_text(&mut v, "--ffmpeg-location");
        push_text(&mut v, f);
    }
    push_text(&mut v, vod_url);
    let ghost want = download_args_spec(
        selector@,
        output@,
        opt_str_view(cookie_file),
        opt_str_view(ffmpeg),
        vod_url@,
    );
    assert(crate::tools::texts_view(v@) =~= want);
    v
}

/// What a failed metadata read adds to its error, by the CHZZK login
/// state: how to log in, that the login is incomplete, or that it may
/// have expired or lack access.
pub fn metadata_failure_hint(state: crate::chzzk::ChzzkAuthState) -> (r: &'static str)
    ensures
        r@ == match state {
            crate::chzzk::ChzzkAuthState::Missing => "연령 제한/로그인 전용 VOD라면 설정 > CHZZK 인증에서 NID_AUT/NID_SES를 저장하세요."@,
            crate::chzzk::ChzzkAuthState::Partial => "CHZZK 인증정보가 일부만 설정되어 있습니다. NID_AUT/NID_SES를 모두 저장하세요."@,
            crate::chzzk::ChzzkAuthState::Configured => "CHZZK 인증 쿠키가 만료되었거나 이 VOD를 볼 권한이 없을 수 있습니다."@,
        },
{
    match state {
        crate::chzzk::ChzzkAuthState::Missing => "연령 제한/로그인 전용 VOD라면 설정 > CHZZK 인증에서 NID_AUT/NID_SES를 저장하세요.",
        crate::chzzk::ChzzkAuthState::Partial => "CHZZK 인증정보가 일부만 설정되어 있습니다. NID_AUT/NID_SES를 모두 저장하세요.",
        crate::chzzk::ChzzkAuthState::Configured => "CHZZK 인증 쿠키가 만료되었거나 이 VOD를 볼 권한이 없을 수 있습니다.",
    }
}

/// The program a VOD download runs: a configured path (anything but blank
/// or `AUTO`) when it is a file and nothing otherwise; with no configured
/// path, the first bundled candidate that is a file, else the one found
/// on `PATH`.
pub open spec fn vod_tool_choice_spec(
    configured: Seq<char>,
    configured_is_file: bool,
    candidates: Seq<(String, bool)>,
    on_path: Option<Seq<char>>,
) -> Option<Seq<char>>
    decreases candidates.len(),
{
    if trim(configured).len() > 0 && !eq_ignore_case(trim(configured), "AUTO"@) {
        if configured_is_file {
            Some(trim(configured))
        } else {
            None
        }
    } else if candidates.len() == 0 {
        on_path
    } else if candidates[0].1 {
        Some(candidates[0].0@)
    } else {
        vod_tool_choice_spec(configured, configured_is_file, candidates.drop_first(), on_path)
    }
}

pub fn vod_tool_choice(configured: &str, configured_is_file: bool, candidates: &[(String, bool)], on_path: Option<String>) -> (r:
    Option<String>)
    ensures
        opt_seq(r) == vod_tool_choice_spec(configured@, configured_is_file, candidates@, opt_seq(on_path)),
{
    let t = trim_str(configured);
    if !t.as_str().is_empty() && !str_eq_ignore_case(t.as_str(), "AUTO") {
        if configured_is_file {
            return Some(t);
        } else {
            return None;
        }
    }
    let mut i: usize = 0;
    assert(candidates@.skip(0) =~= candidates@);
    while i < candidates.len()
        invariant
            i <= candidates.len(),
            !(trim(configured@).len() > 0 && !eq_ignore_case(trim(configured@), "AUTO"@)),
            vod_tool_choice_spec(configured@, configured_is_file, candidates@, opt_seq(on_path))
                == vod_tool_choice_spec(configured@, configured_is_file, candidates@.skip(i as int), opt_seq(on_path)),
        decreases candidates.len() - i,
    {
        assert(candidates@.skip(i as int).drop_first() =~= candidates@.skip(i + 1));
        assert(candidates@.skip(i as int)[0] == candidates@[i as int]);
        if candidates[i].1 {
            return Some(owned(candidates[i].0.as_str()));
        }
        i += 1;
    }
    assert(candidates@.skip(i as int).len() == 0);
    on_path
}


// ---------------------------------------------------------------------------
// Choosing a free file name
// ---------------------------------------------------------------------------

/// What choosing a file name came to, given which candidates exist.
#[derive(Debug, Clone, PartialEq, Eq)]
pub enum NameChoice {
    /// The first candidate that does not exist, and its name.
    Free { attempt: u64, name: String },
    /// Every candidate looked at exists, and there are more to look at.
    NeedFacts,
    /// Every candidate exists: too many collisions.
    Exhausted,
}

/// Whether `attempt` is the first of the first `limit` candidates that
/// does not exist, `taken[i]` saying whether candidate `i` exists.
pub open spec fn first_free(taken: Seq<bool>, limit: nat, attempt: nat) -> bool {
    &&& attempt < taken.len()
    &&& attempt < limit
    &&& !taken[attempt as int]
    &&& forall|j: int| 0 <= j < attempt ==> #[trigger] taken[j]
}

/// Every candidate below `n` exists.
pub open spec fn all_taken(taken: Seq<bool>, n: nat) -> bool {
    forall|j: int| 0 <= j < n && j < taken.len() ==> #[trigger] taken[j]
}

/// The choice among `limit` candidates named by `candidate`: the first
/// free one; else more facts are needed while fewer than `limit` are
/// known; else they are exhausted.  The chosen name never names a file
/// that exists.
pub open spec fn choice_spec(
    r: NameChoice,
    taken: Seq<bool>,
    limit: nat,
    candidate: spec_fn(nat) -> Option<Seq<char>>,
) -> bool {
    match r {
        NameChoice::Free { attempt, name } => first_free(taken, limit, attempt as nat) && candidate(
            attempt as nat,
        ) == Some(name@),
        NameChoice::NeedFacts => taken.len() < limit && all_taken(taken, taken.len()),
        NameChoice::Exhausted => taken.len() >= limit && all_taken(taken, limit),
    }
}

/// The first of the first `limit` entries of `taken` that is `false`.
pub fn first_free_slot(taken: &[bool], limit: u64) -> (r: Option<u64>)
    ensures
        match r {
            Some(i) => first_free(taken@, limit as nat, i as nat),
            None => all_taken(taken@, limit as nat),
        },
{
    let mut i: usize = 0;
    while i < taken.len() && (i as u64) < limit
        invariant
            i <= taken.len(),
            i <= limit,
            forall|j: int| 0 <= j < i ==> #[trigger] taken@[j],
        decreases taken.len() - i,
    {
        if !taken[i] {
            return Some(i as u64);
        }
        i += 1;
    }
    None
}

/// The VOD file for a base name and extension (see `collision_candidate`),
/// given which candidates exist.
pub fn choose_collision_name(base: &str, ext: &str, taken: &[bool]) -> (r: NameChoice)
    ensures
        choice_spec(r, taken@, 9999, |a: nat| collision_candidate(base@, ext@, a)),
{
    match first_free_slot(taken, 9999) {
        Some(i) => match collision_name(base, ext, i) {
            Some(name) => NameChoice::Free { attempt: i, name },
            None => NameChoice::Exhausted,
        },
        None => if taken.len() >= 9999 {
            NameChoice::Exhausted
        } else {
            NameChoice::NeedFacts
        },
    }
}

} // verus!
