//! Streaming platforms known to the archive: their names, capabilities,
//! account shapes and the routing of VOD URLs.
use crate::text::{
    trim_str,
    opt_seq,
    digit_chars, all_digits,
    slice_vec,
    chars_eq, chars_of, chars_eq_ignore_case, contains, contains_chars, eq_ignore_case, is_alnum,
    is_digit, is_hex_digit, string_of, trim, trim_chars, upper_chars, upper_seq,
};
use vstd::prelude::*;

verus! {

/// A streaming platform. Legacy data without a platform is SOOP.
#[derive(Debug, Clone, Copy, PartialEq, Eq, Structural, Hash)]
pub enum PlatformId {
    Soop,
    Chzzk,
}

impl Default for PlatformId {
    fn default() -> (r: Self)
        ensures
            r == PlatformId::Soop,
    {
        PlatformId::Soop
    }
}

/// What a platform supports.
#[derive(Debug, Clone, Copy, PartialEq, Eq, Structural)]
pub struct PlatformCapabilities {
    pub channel_lookup: bool,
    pub live: bool,
    pub vod: bool,
}

/// Why a platform name was refused.
#[derive(Debug, Clone, PartialEq, Eq)]
pub enum PlatformError {
    /// The upper-cased, trimmed name that is not a known platform.
    Unsupported(String),
}

/// Why a channel account was refused.
#[derive(Debug, Clone, Copy, PartialEq, Eq, Structural)]
pub enum AccountError {
    Empty,
    InvalidFormat,
}

/// Why a VOD URL was refused.
#[derive(Debug, Clone, Copy, PartialEq, Eq, Structural)]
pub enum VodUrlError {
    /// The URL does not parse.
    Malformed,
    /// No platform with VOD support accepts the URL.
    Unsupported,
}

pub open spec fn soop_name() -> Seq<char> {
    seq!['S', 'O', 'O', 'P']
}

pub open spec fn chzzk_name() -> Seq<char> {
    seq!['C', 'H', 'Z', 'Z', 'K']
}

impl PlatformId {
    /// Canonical upper-case name stored in the database.
    pub open spec fn spec_name(self) -> Seq<char> {
        match self {
            PlatformId::Soop => soop_name(),
            PlatformId::Chzzk => chzzk_name(),
        }
    }

    /// Container extension of LIVE recordings.
    pub open spec fn spec_live_extension(self) -> Seq<char> {
        match self {
            PlatformId::Soop => seq!['t', 's'],
            PlatformId::Chzzk => seq!['m', 'p', '4'],
        }
    }

    pub fn as_str(self) -> (s: &'static str)
        ensures
            s@ == self.spec_name(),
    {
        match self {
            PlatformId::Soop => {
                let s = "SOOP";
                proof {
                    reveal_strlit("SOOP");
                }
                s
            },
            PlatformId::Chzzk => {
                let s = "CHZZK";
                proof {
                    reveal_strlit("CHZZK");
                }
                s
            },
        }
    }

    pub fn live_output_extension(self) -> (s: &'static str)
        ensures
            s@ == self.spec_live_extension(),
    {
        match self {
            PlatformId::Soop => {
                let s = "ts";
                proof {
                    reveal_strlit("ts");
                }
                s
            },
            PlatformId::Chzzk => {
                let s = "mp4";
                proof {
                    reveal_strlit("mp4");
                }
                s
            },
        }
    }

    /// The platform's display name, which is its canonical name.
    pub fn display_name(self) -> (s: &'static str)
        ensures
            s@ == self.spec_name(),
    {
        self.as_str()
    }

    pub open spec fn capabilities_spec(self) -> PlatformCapabilities {
        PlatformCapabilities { channel_lookup: true, live: true, vod: true }
    }

    /// The two platforms support channel lookup, LIVE and VOD.
    pub fn capabilities(self) -> (c: PlatformCapabilities)
        ensures
            c == self.capabilities_spec(),
    {
        PlatformCapabilities { channel_lookup: true, live: true, vod: true }
    }
}

/// The platform assumed for data that names none.
pub fn default_platform() -> (p: PlatformId)
    ensures
        p == PlatformId::Soop,
{
    PlatformId::Soop
}

/// The platform a stored or typed name denotes: blank and `SOOP` mean
/// SOOP, `CHZZK` means CHZZK, ignoring surrounding white space and case.
pub open spec fn platform_of_name(name: Seq<char>) -> Option<PlatformId> {
    let key = upper_seq(trim(name));
    if key.len() == 0 || key == soop_name() {
        Some(PlatformId::Soop)
    } else if key == chzzk_name() {
        Some(PlatformId::Chzzk)
    } else {
        None
    }
}

/// Reads a platform name (`PlatformId::from_str`).
pub fn parse_platform(value: &str) -> (r: Result<PlatformId, PlatformError>)
    ensures
        r matches Ok(p) ==> platform_of_name(value@) == Some(p),
        r matches Err(PlatformError::Unsupported(k)) ==> platform_of_name(value@).is_none()
            && k@ == upper_seq(trim(value@)),
        r is Err <==> platform_of_name(value@).is_none(),
{
    let v = chars_of(value);
    let t = trim_chars(v.as_slice());
    let key = upper_chars(t.as_slice());
    let soop = chars_of("SOOP");
    let chzzk = chars_of("CHZZK");
    proof {
        reveal_strlit("SOOP");
        reveal_strlit("CHZZK");
        assert(soop@ =~= soop_name());
        assert(chzzk@ =~= chzzk_name());
    }
    if key.len() == 0 || chars_eq(key.as_slice(), soop.as_slice()) {
        Ok(PlatformId::Soop)
    } else if chars_eq(key.as_slice(), chzzk.as_slice()) {
        Ok(PlatformId::Chzzk)
    } else {
        Err(PlatformError::Unsupported(string_of(key.as_slice())))
    }
}

/// A stored platform name; unreadable names fall back to SOOP.
pub fn stored_platform(value: &str) -> (p: PlatformId)
    ensures
        p == (match platform_of_name(value@) {
            Some(q) => q,
            None => PlatformId::Soop,
        }),
{
    match parse_platform(value) {
        Ok(p) => p,
        Err(_) => PlatformId::Soop,
    }
}

impl core::str::FromStr for PlatformId {
    type Err = PlatformError;

    fn from_str(value: &str) -> (r: Result<Self, Self::Err>)
        ensures
            r matches Ok(p) ==> platform_of_name(value@) == Some(p),
            r matches Err(PlatformError::Unsupported(k)) ==> platform_of_name(value@).is_none()
                && k@ == upper_seq(trim(value@)),
            r is Err <==> platform_of_name(value@).is_none(),
    {
        parse_platform(value)
    }
}

// ---------------------------------------------------------------------------
// Accounts
// ---------------------------------------------------------------------------

pub open spec fn soop_account_char(c: char) -> bool {
    is_alnum(c) || c == '_' || c == '-'
}

/// The account check of each platform: SOOP takes the account as given;
/// CHZZK trims it and wants a 32-digit hexadecimal channel id.
pub open spec fn account_check(platform: PlatformId, account: Seq<char>) -> Result<(), AccountError> {
    match platform {
        PlatformId::Soop => if account.len() == 0 {
            Err(AccountError::Empty)
        } else if !(forall|i: int| 0 <= i < account.len() ==> soop_account_char(#[trigger] account[i])) {
            Err(AccountError::InvalidFormat)
        } else {
            Ok(())
        },
        PlatformId::Chzzk => {
            let t = trim(account);
            if t.len() == 0 {
                Err(AccountError::Empty)
            } else if !(t.len() == 32 && forall|i: int| 0 <= i < t.len() ==> is_hex_digit(#[trigger] t[i])) {
                Err(AccountError::InvalidFormat)
            } else {
                Ok(())
            }
        },
    }
}

pub fn validate_account(platform: PlatformId, account: &str) -> (r: Result<(), AccountError>)
    ensures
        r == account_check(platform, account@),
{
    let v = chars_of(account);
    match platform {
        PlatformId::Soop => {
            if v.len() == 0 {
                return Err(AccountError::Empty);
            }
            let mut i: usize = 0;
            while i < v.len()
                invariant
                    platform == PlatformId::Soop,
                    i <= v.len(),
                    v@ == account@,
                    forall|j: int| 0 <= j < i ==> soop_account_char(#[trigger] v@[j]),
                decreases v.len() - i,
            {
                let c = v[i];
                if !(('0' <= c && c <= '9') || ('a' <= c && c <= 'z') || ('A' <= c && c <= 'Z')
                    || c == '_' || c == '-') {
                    assert(!soop_account_char(account@[i as int]));
                    assert(i < account@.len());
                    return Err(AccountError::InvalidFormat);
                }
                i += 1;
            }
            Ok(())
        },
        PlatformId::Chzzk => {
            let t = trim_chars(v.as_slice());
            if t.len() == 0 {
                return Err(AccountError::Empty);
            }
            if t.len() != 32 {
                return Err(AccountError::InvalidFormat);
            }
            let mut i: usize = 0;
            while i < t.len()
                invariant
                    platform == PlatformId::Chzzk,
                    t.len() == 32,
                    i <= t.len(),
                    t@ == trim(account@),
                    forall|j: int| 0 <= j < i ==> is_hex_digit(#[trigger] t@[j]),
                decreases t.len() - i,
            {
                let c = t[i];
                if !(('0' <= c && c <= '9') || ('a' <= c && c <= 'f') || ('A' <= c && c <= 'F')) {
                    assert(!is_hex_digit(trim(account@)[i as int]));
                    assert(i < trim(account@).len());
                    return Err(AccountError::InvalidFormat);
                }
                i += 1;
            }
            Ok(())
        },
    }
}


// ---------------------------------------------------------------------------
// URLs
// ---------------------------------------------------------------------------

/// The parts of a parsed URL that routing reads.
pub struct UrlParts {
    pub scheme: String,
    pub host: Option<String>,
    pub path: String,
}

/// What routing reads of a parsed URL, as plain text.
pub struct UrlView {
    pub scheme: Seq<char>,
    pub host: Option<Seq<char>>,
    pub path: Seq<char>,
}

impl View for UrlParts {
    type V = UrlView;

    open spec fn view(&self) -> UrlView {
        UrlView { scheme: self.scheme@, host: opt_seq(self.host), path: self.path@ }
    }
}

/// The scheme, host and path that `url::Url::parse` finds in a text, or
/// `None` where it refuses the text.
pub uninterp spec fn url_parse(raw: Seq<char>) -> Option<UrlView>;

/// Calls `url::Url::parse` and reads `scheme()`, `host_str()` and `path()`
/// of the result.  The contract only ties the result to the text through
/// the name `url_parse`: the URL standard is not restated here.
#[verifier::external_body]
pub(crate) fn parse_url(raw: &str) -> (r: Option<UrlParts>)
    ensures
        match r {
            Some(p) => url_parse(raw@) == Some(p@),
            None => url_parse(raw@).is_none(),
        },
{
    match url::Url::parse(raw) {
        Ok(u) => Some(UrlParts {
            scheme: u.scheme().to_string(),
            host: match u.host_str() {
                Some(h) => Some(h.to_string()),
                None => None,
            },
            path: u.path().to_string(),
        }),
        Err(_) => None,
    }
}

pub open spec fn is_sooplive_host(h: Seq<char>) -> bool {
    h == seq!['v', 'o', 'd', '.', 's', 'o', 'o', 'p', 'l', 'i', 'v', 'e', '.', 'c', 'o', 'm'] || h
        == seq!['w', 'w', 'w', '.', 's', 'o', 'o', 'p', 'l', 'i', 'v', 'e', '.', 'c', 'o', 'm']
        || h == seq!['s', 'o', 'o', 'p', 'l', 'i', 'v', 'e', '.', 'c', 'o', 'm']
}

pub open spec fn player_marker() -> Seq<char> {
    seq!['/', 'p', 'l', 'a', 'y', 'e', 'r', '/']
}

pub open spec fn station_video_marker() -> Seq<char> {
    seq!['/', 's', 't', 'a', 't', 'i', 'o', 'n', '/', 'v', 'i', 'd', 'e', 'o', '/']
}

/// A SOOP VOD page: a SOOP host and a player or station-video path.
pub open spec fn soop_accepts(u: UrlView) -> bool {
    &&& u.host matches Some(h) && is_sooplive_host(h)
    &&& contains(u.path, player_marker()) || contains(u.path, station_video_marker())
}

pub open spec fn chzzk_host() -> Seq<char> {
    seq!['c', 'h', 'z', 'z', 'k', '.', 'n', 'a', 'v', 'e', 'r', '.', 'c', 'o', 'm']
}

pub open spec fn video_word() -> Seq<char> {
    seq!['v', 'i', 'd', 'e', 'o']
}

/// Number of leading `/` characters.
pub open spec fn lead_slashes(s: Seq<char>) -> nat
    decreases s.len(),
{
    if s.len() > 0 && s[0] == '/' {
        1 + lead_slashes(s.drop_first())
    } else {
        0
    }
}

/// Number of trailing `/` characters.
pub open spec fn trail_slashes(s: Seq<char>) -> nat
    decreases s.len(),
{
    if s.len() > 0 && s.last() == '/' {
        1 + trail_slashes(s.drop_last())
    } else {
        0
    }
}

/// The video number of a CHZZK VOD path, whose non-empty `/`-separated
/// segments are exactly `video` and a run of digits.
pub open spec fn chzzk_video_number(path: Seq<char>) -> Option<Seq<char>> {
    let a = lead_slashes(path);
    let rest = path.skip(a as int);
    if a == 0 || !(rest.len() >= 5 && rest.take(5) == video_word()) {
        None
    } else {
        let r2 = rest.skip(5);
        let b = lead_slashes(r2);
        let tail = r2.skip(b as int);
        let id = tail.take(tail.len() - trail_slashes(tail));
        if b == 0 || id.len() == 0 || !all_digits(id) {
            None
        } else {
            Some(id)
        }
    }
}

pub open spec fn is_http_scheme(s: Seq<char>) -> bool {
    s == seq!['h', 't', 't', 'p', 's'] || s == seq!['h', 't', 't', 'p']
}

/// A CHZZK VOD page: http(s), the CHZZK host, and a video path.
pub open spec fn chzzk_video_id(u: UrlView) -> Option<Seq<char>> {
    if is_http_scheme(u.scheme) && (u.host matches Some(h) && eq_ignore_case(h, chzzk_host())) {
        chzzk_video_number(u.path)
    } else {
        None
    }
}

pub open spec fn chzzk_accepts(u: UrlView) -> bool {
    chzzk_video_id(u).is_some()
}

/// Which platform's VOD pages a URL belongs to, SOOP tried first.
pub open spec fn vod_route(raw: Seq<char>) -> Result<PlatformId, VodUrlError> {
    match url_parse(raw) {
        None => Err(VodUrlError::Malformed),
        Some(u) => parsed_route(u),
    }
}

/// The platform of a parsed URL: SOOP for its VOD pages, else CHZZK for
/// its VOD pages, else none.
pub open spec fn parsed_route(u: UrlView) -> Result<PlatformId, VodUrlError> {
    if soop_accepts(u) {
        Ok(PlatformId::Soop)
    } else if chzzk_accepts(u) {
        Ok(PlatformId::Chzzk)
    } else {
        Err(VodUrlError::Unsupported)
    }
}

fn lead_slash_count(v: &[char], from: usize) -> (n: usize)
    requires
        from <= v.len(),
    ensures
        from + n <= v.len(),
        n == lead_slashes(v@.skip(from as int)),
{
    let mut i = from;
    while i < v.len() && v[i] == '/'
        invariant
            from <= i <= v.len(),
            lead_slashes(v@.skip(from as int)) == (i - from) + lead_slashes(v@.skip(i as int)),
        decreases v.len() - i,
    {
        assert(v@.skip(i as int).drop_first() =~= v@.skip(i + 1));
        i += 1;
    }
    i - from
}

fn trail_slash_count(v: &[char], from: usize, to: usize) -> (n: usize)
    requires
        from <= to <= v.len(),
    ensures
        n <= to - from,
        n == trail_slashes(v@.subrange(from as int, to as int)),
{
    let mut j = to;
    while j > from && v[j - 1] == '/'
        invariant
            from <= j <= to,
            to <= v.len(),
            trail_slashes(v@.subrange(from as int, to as int)) == (to - j) + trail_slashes(
                v@.subrange(from as int, j as int),
            ),
        decreases j,
    {
        assert(v@.subrange(from as int, j as int).drop_last() =~= v@.subrange(
            from as int,
            j - 1,
        ));
        j -= 1;
    }
    to - j
}

/// The video number of a CHZZK VOD path.
pub fn video_number(path: &str) -> (r: Option<String>)
    ensures
        opt_seq(r) == chzzk_video_number(path@),
{
    let v = chars_of(path);
    let a = lead_slash_count(v.as_slice(), 0);
    assert(v@.skip(0) =~= v@);
    let word = chars_of("video");
    proof {
        reveal_strlit("video");
        assert(word@ =~= video_word());
    }
    if a == 0 || v.len() - a < 5 {
        return None;
    }
    let head = slice_vec(v.as_slice(), a, a + 5);
    assert(head@ =~= v@.skip(a as int).take(5));
    if !chars_eq(head.as_slice(), word.as_slice()) {
        return None;
    }
    let b = lead_slash_count(v.as_slice(), a + 5);
    assert(v@.skip(a as int).skip(5) =~= v@.skip(a + 5));
    let start = a + 5 + b;
    assert(v@.skip(a + 5).skip(b as int) =~= v@.subrange(start as int, v.len() as int));
    let t = trail_slash_count(v.as_slice(), start, v.len());
    let end = v.len() - t;
    let id = slice_vec(v.as_slice(), start, end);
    assert(id@ =~= v@.subrange(start as int, v.len() as int).take(
        v.len() - start - t,
    ));
    if b == 0 || id.len() == 0 || !digit_chars(id.as_slice()) {
        return None;
    }
    Some(string_of(id.as_slice()))
}

fn sooplive_host(h: &str) -> (r: bool)
    ensures
        r == is_sooplive_host(h@),
{
    let v = chars_of(h);
    let a = chars_of("vod.sooplive.com");
    let b = chars_of("www.sooplive.com");
    let c = chars_of("sooplive.com");
    proof {
        reveal_strlit("vod.sooplive.com");
        reveal_strlit("www.sooplive.com");
        reveal_strlit("sooplive.com");
        assert(a@ =~= seq!['v', 'o', 'd', '.', 's', 'o', 'o', 'p', 'l', 'i', 'v', 'e', '.', 'c', 'o', 'm']);
        assert(b@ =~= seq!['w', 'w', 'w', '.', 's', 'o', 'o', 'p', 'l', 'i', 'v', 'e', '.', 'c', 'o', 'm']);
        assert(c@ =~= seq!['s', 'o', 'o', 'p', 'l', 'i', 'v', 'e', '.', 'c', 'o', 'm']);
    }
    chars_eq(v.as_slice(), a.as_slice()) || chars_eq(v.as_slice(), b.as_slice()) || chars_eq(
        v.as_slice(),
        c.as_slice(),
    )
}

/// Whether a parsed URL is a SOOP VOD page (see `soop_accepts`).
pub fn soop_url_accepted(u: &UrlParts) -> (r: bool)
    ensures
        r == soop_accepts(u@),
{
    let host_ok = match &u.host {
        Some(h) => sooplive_host(h.as_str()),
        None => false,
    };
    if !host_ok {
        return false;
    }
    let p = chars_of(u.path.as_str());
    let m1 = chars_of("/player/");
    let m2 = chars_of("/station/video/");
    proof {
        reveal_strlit("/player/");
        reveal_strlit("/station/video/");
        assert(m1@ =~= player_marker());
        assert(m2@ =~= station_video_marker());
    }
    contains_chars(p.as_slice(), m1.as_slice()) || contains_chars(p.as_slice(), m2.as_slice())
}

/// The video number of a parsed CHZZK VOD URL (see `chzzk_video_id`).
pub fn chzzk_url_video_id(u: &UrlParts) -> (r: Option<String>)
    ensures
        opt_seq(r) == chzzk_video_id(u@),
{
    let scheme = chars_of(u.scheme.as_str());
    let https = chars_of("https");
    let http = chars_of("http");
    proof {
        reveal_strlit("https");
        reveal_strlit("http");
        assert(https@ =~= seq!['h', 't', 't', 'p', 's']);
        assert(http@ =~= seq!['h', 't', 't', 'p']);
    }
    if !(chars_eq(scheme.as_slice(), https.as_slice()) || chars_eq(
        scheme.as_slice(),
        http.as_slice(),
    )) {
        return None;
    }
    let host_ok = match &u.host {
        Some(h) => {
            let hv = chars_of(h.as_str());
            let ch = chars_of("chzzk.naver.com");
            proof {
                reveal_strlit("chzzk.naver.com");
                assert(ch@ =~= chzzk_host());
            }
            chars_eq_ignore_case(hv.as_slice(), ch.as_slice())
        },
        None => false,
    };
    if !host_ok {
        return None;
    }
    video_number(u.path.as_str())
}

/// The platform whose VOD pages include a parsed URL (see `parsed_route`).
pub fn route_parsed_url(u: &UrlParts) -> (r: Result<PlatformId, VodUrlError>)
    ensures
        r == parsed_route(u@),
{
    if PlatformId::Soop.capabilities().vod && soop_url_accepted(u) {
        Ok(PlatformId::Soop)
    } else if PlatformId::Chzzk.capabilities().vod && chzzk_url_video_id(u).is_some() {
        Ok(PlatformId::Chzzk)
    } else {
        Err(VodUrlError::Unsupported)
    }
}

/// The platform whose VOD pages include this URL (`detect_vod_platform`).
pub fn detect_vod_platform(raw_url: &str) -> (r: Result<PlatformId, VodUrlError>)
    ensures
        r == vod_route(raw_url@),
{
    match parse_url(raw_url) {
        None => Err(VodUrlError::Malformed),
        Some(u) => route_parsed_url(&u),
    }
}

/// The VOD provider for a URL, refusing platforms without VOD support.
pub fn vod_platform(raw_url: &str) -> (r: Result<PlatformId, VodUrlError>)
    ensures
        r == vod_route(raw_url@),
{
    let p = detect_vod_platform(raw_url)?;
    if !p.capabilities().vod {
        return Err(VodUrlError::Unsupported);
    }
    Ok(p)
}

/// The number of a CHZZK VOD URL (`video_id`).
pub fn chzzk_vod_id(raw_url: &str) -> (r: Option<String>)
    ensures
        opt_seq(r) == (match url_parse(raw_url@) {
            Some(u) => chzzk_video_id(u),
            None => None,
        }),
{
    match parse_url(raw_url) {
        Some(u) => chzzk_url_video_id(&u),
        None => None,
    }
}


// ---------------------------------------------------------------------------
// Channel lookups
// ---------------------------------------------------------------------------

/// What a SOOP station-status answer carries: `RESULT`, `DATA.user_id`,
/// `DATA.user_nick` and the legacy `station_name` (each when present with
/// the right JSON type).
#[derive(Debug, Clone, Default)]
pub struct SoopStationStatus {
    pub result: Option<i64>,
    pub user_id: Option<String>,
    pub user_nick: Option<String>,
    pub station_name: Option<String>,
}

/// What a CHZZK channel answer carries: `code`, whether `content` is
/// present, and its `channelId` and `channelName`.
#[derive(Debug, Clone, Default)]
pub struct ChzzkChannelInfo {
    pub code: Option<i64>,
    pub has_content: bool,
    pub channel_id: Option<String>,
    pub channel_name: Option<String>,
}

/// Why a channel lookup answer gave no name.
#[derive(Debug, Clone, PartialEq, Eq)]
pub enum LookupError {
    /// The platform knows no such account.
    NotFound,
    /// The answer has no channel object.
    NoContent,
    /// The answer is about another account, whose trimmed id is given.
    OtherAccount(String),
    /// The answer names no channel.
    NoName,
}

pub open spec fn opt_text_or_empty(o: Option<String>) -> Seq<char> {
    match o {
        Some(s) => s@,
        None => Seq::empty(),
    }
}

/// The channel name a SOOP station answer gives for `account`.
pub open spec fn soop_channel_name(account: Seq<char>, v: SoopStationStatus) -> Result<Seq<char>, LookupError> {
    let returned = trim(opt_text_or_empty(v.user_id));
    let name = trim(match v.user_nick {
        Some(n) => n@,
        None => opt_text_or_empty(v.station_name),
    });
    if (match v.result {
        Some(r) => r,
        None => 0,
    }) == 0 {
        Err(LookupError::NotFound)
    } else if returned.len() > 0 && !eq_ignore_case(returned, account) {
        Err(LookupError::OtherAccount(arbitrary()))
    } else if name.len() == 0 {
        Err(LookupError::NoName)
    } else {
        Ok(name)
    }
}

fn opt_or_empty(o: &Option<String>) -> (r: String)
    ensures
        r@ == opt_text_or_empty(*o),
{
    match o {
        Some(s) => s.as_str().to_owned(),
        None => String::new(),
    }
}

/// Reads a SOOP station answer (`SoopProvider::parse_channel_name`).
pub fn parse_soop_channel_name(account: &str, value: &SoopStationStatus) -> (r: Result<String, LookupError>)
    ensures
        match soop_channel_name(account@, *value) {
            Ok(name) => r matches Ok(n) && n@ == name,
            Err(LookupError::OtherAccount(_)) => r matches Err(LookupError::OtherAccount(id))
                && id@ == trim(opt_text_or_empty(value.user_id)),
            Err(e) => r == Err::<String, LookupError>(e),
        },
{
    let result = match value.result {
        Some(r) => r,
        None => 0,
    };
    if result == 0 {
        return Err(LookupError::NotFound);
    }
    let raw_id = opt_or_empty(&value.user_id);
    let returned = trim_str(raw_id.as_str());
    if !returned.as_str().is_empty() && !crate::text::str_eq_ignore_case(returned.as_str(), account) {
        return Err(LookupError::OtherAccount(returned));
    }
    let raw_name = match &value.user_nick {
        Some(n) => n.as_str().to_owned(),
        None => opt_or_empty(&value.station_name),
    };
    let name = trim_str(raw_name.as_str());
    if name.as_str().is_empty() {
        return Err(LookupError::NoName);
    }
    Ok(name)
}

/// The channel name a CHZZK channel answer gives for `account`.
pub open spec fn chzzk_channel_name(account: Seq<char>, v: ChzzkChannelInfo) -> Result<Seq<char>, LookupError> {
    let returned = trim(opt_text_or_empty(v.channel_id));
    let name = trim(opt_text_or_empty(v.channel_name));
    if v.code != Some(200i64) {
        Err(LookupError::NotFound)
    } else if !v.has_content {
        Err(LookupError::NoContent)
    } else if returned.len() > 0 && !eq_ignore_case(returned, trim(account)) {
        Err(LookupError::OtherAccount(arbitrary()))
    } else if name.len() == 0 {
        Err(LookupError::NoName)
    } else {
        Ok(name)
    }
}

/// Reads a CHZZK channel answer (`ChzzkProvider::parse_channel_name`).
pub fn parse_chzzk_channel_name(account: &str, value: &ChzzkChannelInfo) -> (r: Result<String, LookupError>)
    ensures
        match chzzk_channel_name(account@, *value) {
            Ok(name) => r matches Ok(n) && n@ == name,
            Err(LookupError::OtherAccount(_)) => r matches Err(LookupError::OtherAccount(id))
                && id@ == trim(opt_text_or_empty(value.channel_id)),
            Err(e) => r == Err::<String, LookupError>(e),
        },
{
    if !(value.code == Some(200i64)) {
        return Err(LookupError::NotFound);
    }
    if !value.has_content {
        return Err(LookupError::NoContent);
    }
    let raw_id = opt_or_empty(&value.channel_id);
    let returned = trim_str(raw_id.as_str());
    let acct = trim_str(account);
    if !returned.as_str().is_empty() && !crate::text::str_eq_ignore_case(returned.as_str(), acct.as_str()) {
        return Err(LookupError::OtherAccount(returned));
    }
    let raw_name = opt_or_empty(&value.channel_name);
    let name = trim_str(raw_name.as_str());
    if name.as_str().is_empty() {
        return Err(LookupError::NoName);
    }
    Ok(name)
}

} // verus!
