//! CHZZK authentication cookies, LIVE probe interpretation and stream
//! resolution, and the reading of channel lookups of both platforms.
use crate::live::{HttpCookie, StreamInput};
use crate::text::{
    chars_of, eq_ignore_case, format_i64, opt_seq, owned, push_str, signed_decimal, str_eq,
    str_eq_ignore_case, string_of, trim, trim_str,
};
use vstd::prelude::*;

verus! {

pub open spec fn nid_aut_name() -> Seq<char> {
    seq!['N', 'I', 'D', '_', 'A', 'U', 'T']
}

pub open spec fn nid_ses_name() -> Seq<char> {
    seq!['N', 'I', 'D', '_', 'S', 'E', 'S']
}

pub open spec fn naver_domain() -> Seq<char> {
    seq!['.', 'n', 'a', 'v', 'e', 'r', '.', 'c', 'o', 'm']
}

/// The NAVER login cookies that restricted CHZZK content needs.
#[derive(Debug, Clone, Default)]
pub struct ChzzkAuth {
    nid_aut: String,
    nid_ses: String,
}

/// How much of the CHZZK authentication is stored.
#[derive(Debug, Clone, Copy, PartialEq, Eq, Structural)]
pub enum ChzzkAuthState {
    Missing,
    Partial,
    Configured,
}

impl ChzzkAuth {
    pub closed spec fn aut(&self) -> Seq<char> {
        self.nid_aut@
    }

    pub closed spec fn ses(&self) -> Seq<char> {
        self.nid_ses@
    }

    pub open spec fn spec_state(&self) -> ChzzkAuthState {
        if self.aut().len() == 0 && self.ses().len() == 0 {
            ChzzkAuthState::Missing
        } else if self.aut().len() == 0 || self.ses().len() == 0 {
            ChzzkAuthState::Partial
        } else {
            ChzzkAuthState::Configured
        }
    }

    /// Authentication from the two decrypted cookie values.
    pub fn from_plain(nid_aut: &str, nid_ses: &str) -> (a: Self)
        ensures
            a.aut() == nid_aut@,
            a.ses() == nid_ses@,
    {
        ChzzkAuth { nid_aut: nid_aut.to_owned(), nid_ses: nid_ses.to_owned() }
    }

    /// The authentication from the two stored cookies as read back (see
    /// `security::unprotect_secret`): the first cookie that could not be
    /// read gives the error, `NID_AUT` first.
    pub fn load(nid_aut: Result<String, String>, nid_ses: Result<String, String>) -> (r: Result<Self, String>)
        ensures
            match nid_aut {
                Err(e) => r matches Err(m) && m@ == e@,
                Ok(a) => match nid_ses {
                    Err(e) => r matches Err(m) && m@ == e@,
                    Ok(s) => r matches Ok(auth) && auth.aut() == a@ && auth.ses() == s@,
                },
            },
    {
        let a = match nid_aut {
            Err(e) => {
                return Err(e);
            },
            Ok(a) => a,
        };
        match nid_ses {
            Err(e) => Err(e),
            Ok(s) => Ok(ChzzkAuth { nid_aut: a, nid_ses: s }),
        }
    }

    /// Both cookies are stored.
    pub fn configured(&self) -> (r: bool)
        ensures
            r == (self.aut().len() > 0 && self.ses().len() > 0),
    {
        !self.nid_aut.as_str().is_empty() && !self.nid_ses.as_str().is_empty()
    }

    /// Exactly one of the two cookies is stored.
    pub fn partial(&self) -> (r: bool)
        ensures
            r == ((self.aut().len() == 0) != (self.ses().len() == 0)),
    {
        self.nid_aut.as_str().is_empty() != self.nid_ses.as_str().is_empty()
    }

    pub fn state(&self) -> (r: ChzzkAuthState)
        ensures
            r == self.spec_state(),
    {
        let aut_empty = self.nid_aut.as_str().is_empty();
        let ses_empty = self.nid_ses.as_str().is_empty();
        if aut_empty && ses_empty {
            ChzzkAuthState::Missing
        } else if aut_empty || ses_empty {
            ChzzkAuthState::Partial
        } else {
            ChzzkAuthState::Configured
        }
    }

    /// The `Cookie` header: each stored cookie as `NAME=value`, joined by
    /// `; `, or `None` when neither is stored.
    pub open spec fn spec_cookie_header(&self) -> Option<Seq<char>> {
        let aut = nid_aut_name() + seq!['='] + self.aut();
        let ses = nid_ses_name() + seq!['='] + self.ses();
        if self.aut().len() > 0 && self.ses().len() > 0 {
            Some(aut + seq![';', ' '] + ses)
        } else if self.aut().len() > 0 {
            Some(aut)
        } else if self.ses().len() > 0 {
            Some(ses)
        } else {
            None
        }
    }

    pub fn cookie_header(&self) -> (r: Option<String>)
        ensures
            opt_seq(r) == self.spec_cookie_header(),
    {
        let has_aut = !self.nid_aut.as_str().is_empty();
        let has_ses = !self.nid_ses.as_str().is_empty();
        if !has_aut && !has_ses {
            return None;
        }
        let mut v: Vec<char> = Vec::new();
        proof {
            reveal_strlit("NID_AUT=");
            reveal_strlit("NID_SES=");
            reveal_strlit("; ");
        }
        if has_aut {
            push_str(&mut v, "NID_AUT=");
            push_str(&mut v, self.nid_aut.as_str());
        }
        if has_aut && has_ses {
            push_str(&mut v, "; ");
        }
        if has_ses {
            push_str(&mut v, "NID_SES=");
            push_str(&mut v, self.nid_ses.as_str());
        }
        assert(Some(v@) =~= self.spec_cookie_header()) by {
            let aut = nid_aut_name() + seq!['='] + self.aut();
            let ses = nid_ses_name() + seq!['='] + self.ses();
            assert("NID_AUT="@ =~= nid_aut_name() + seq!['=']);
            assert("NID_SES="@ =~= nid_ses_name() + seq!['=']);
            if has_aut && has_ses {
                assert(v@ =~= aut + seq![';', ' '] + ses);
            } else if has_aut {
                assert(v@ =~= aut);
            } else {
                assert(v@ =~= ses);
            }
        }
        Some(string_of(v.as_slice()))
    }

    /// The cookies handed to Streamlink: each stored one for `.naver.com`,
    /// marked secure, `NID_AUT` first.
    pub open spec fn spec_streamlink_cookies(&self) -> Seq<(Seq<char>, Seq<char>, Seq<char>, bool)> {
        let aut = (naver_domain(), nid_aut_name(), self.aut(), true);
        let ses = (naver_domain(), nid_ses_name(), self.ses(), true);
        if self.aut().len() > 0 && self.ses().len() > 0 {
            seq![aut, ses]
        } else if self.aut().len() > 0 {
            seq![aut]
        } else if self.ses().len() > 0 {
            seq![ses]
        } else {
            seq![]
        }
    }

    pub fn streamlink_cookies(&self) -> (r: Vec<HttpCookie>)
        ensures
            r@.map_values(|c: HttpCookie| c.spec_tuple()) == self.spec_streamlink_cookies(),
    {
        let mut cookies: Vec<HttpCookie> = Vec::new();
        proof {
            reveal_strlit(".naver.com");
            reveal_strlit("NID_AUT");
            reveal_strlit("NID_SES");
        }
        if !self.nid_aut.as_str().is_empty() {
            cookies.push(
                HttpCookie {
                    domain: ".naver.com".to_owned(),
                    name: "NID_AUT".to_owned(),
                    value: self.nid_aut.as_str().to_owned(),
                    secure: true,
                },
            );
        }
        if !self.nid_ses.as_str().is_empty() {
            cookies.push(
                HttpCookie {
                    domain: ".naver.com".to_owned(),
                    name: "NID_SES".to_owned(),
                    value: self.nid_ses.as_str().to_owned(),
                    secure: true,
                },
            );
        }
        assert(".naver.com"@ =~= naver_domain());
        assert("NID_AUT"@ =~= nid_aut_name());
        assert("NID_SES"@ =~= nid_ses_name());
        assert(cookies@.map_values(|c: HttpCookie| c.spec_tuple())
            =~= self.spec_streamlink_cookies());
        cookies
    }

    /// The text of the cookie file a VOD download hands to yt-dlp: none
    /// without login, refused with half a login or with a cookie value
    /// that holds a line break or tab; else both cookies, one line each.
    pub open spec fn spec_vod_cookie_text(&self) -> Result<Option<Seq<char>>, VodCookieError> {
        match self.spec_state() {
            ChzzkAuthState::Missing => Ok(None),
            ChzzkAuthState::Partial => Err(VodCookieError::PartialLogin),
            ChzzkAuthState::Configured => if crate::recorder::has_line_break_or_tab(self.aut())
                || crate::recorder::has_line_break_or_tab(self.ses()) {
                Err(VodCookieError::InvalidCookie)
            } else {
                Ok(Some(crate::recorder::cookie_file_header() + vod_cookie_line(nid_aut_name(), self.aut())
                    + vod_cookie_line(nid_ses_name(), self.ses())))
            },
        }
    }

    pub fn vod_cookie_text(&self) -> (r: Result<Option<String>, VodCookieError>)
        ensures
            match self.spec_vod_cookie_text() {
                Ok(None) => r matches Ok(None),
                Ok(Some(t)) => r matches Ok(Some(x)) && x@ == t,
                Err(e) => r == Err::<Option<String>, VodCookieError>(e),
            },
    {
        match self.state() {
            ChzzkAuthState::Missing => Ok(None),
            ChzzkAuthState::Partial => Err(VodCookieError::PartialLogin),
            ChzzkAuthState::Configured => {
                let a = chars_of(self.nid_aut.as_str());
                let b = chars_of(self.nid_ses.as_str());
                if crate::recorder::line_break_or_tab(a.as_slice()) || crate::recorder::line_break_or_tab(b.as_slice()) {
                    return Err(VodCookieError::InvalidCookie);
                }
                let mut v: Vec<char> = Vec::new();
                push_str(&mut v, "# Netscape HTTP Cookie File\n");
                push_vod_cookie_line(&mut v, "NID_AUT", self.nid_aut.as_str());
                push_vod_cookie_line(&mut v, "NID_SES", self.nid_ses.as_str());
                proof {
                    reveal_strlit("NID_AUT");
                    reveal_strlit("NID_SES");
                    assert("NID_AUT"@ =~= nid_aut_name());
                    assert("NID_SES"@ =~= nid_ses_name());
                }
                assert(v@ =~= crate::recorder::cookie_file_header() + vod_cookie_line(nid_aut_name(), self.aut())
                    + vod_cookie_line(nid_ses_name(), self.ses()));
                Ok(Some(string_of(v.as_slice())))
            },
        }
    }
}

/// Why no cookie file could be written for a VOD download.
#[derive(Debug, Clone, Copy, PartialEq, Eq, Structural)]
pub enum VodCookieError {
    /// Only one of `NID_AUT` and `NID_SES` is stored.
    PartialLogin,
    /// A cookie value holds a line break or tab.
    InvalidCookie,
}

/// One cookie line of the VOD cookie file: `.naver.com`, all subdomains,
/// path `/`, secure, the far expiry, name and value.
pub open spec fn vod_cookie_line(name: Seq<char>, value: Seq<char>) -> Seq<char> {
    naver_domain() + "\tTRUE\t/\tTRUE\t"@ + signed_decimal(crate::recorder::COOKIE_FILE_EXPIRES_UNIX as int)
        + seq!['\t'] + name + seq!['\t'] + value + seq!['\n']
}

fn push_vod_cookie_line(v: &mut Vec<char>, name: &str, value: &str)
    ensures
        final(v)@ == old(v)@ + vod_cookie_line(name@, value@),
{
    let ghost before = v@;
    push_str(v, ".naver.com");
    push_str(v, "\tTRUE\t/\tTRUE\t");
    let e = format_i64(crate::recorder::COOKIE_FILE_EXPIRES_UNIX);
    push_str(v, e.as_str());
    v.push('\t');
    push_str(v, name);
    v.push('\t');
    push_str(v, value);
    v.push('\n');
    proof {
        reveal_strlit(".naver.com");
    }
    assert(".naver.com"@ =~= naver_domain());
    assert(v@ =~= before + vod_cookie_line(name@, value@));
}

} // verus!

verus! {

/// Why a CHZZK request was refused or could not be read.
#[derive(Debug, Clone, PartialEq, Eq)]
pub enum ChzzkError {
    /// The live-detail API answered with another code than 200.
    Api { code: i64, message: String },
    /// An OPEN broadcast carries no live id.
    MissingLiveId,
    /// An OPEN public broadcast carries no playback data.
    PlaybackMissing,
    /// Only one of the two NAVER cookies is stored (while probing).
    PartialCookies,
    /// Both cookies are stored, yet the restricted broadcast is refused.
    CookiesRejected,
    /// Only one of the two NAVER cookies is stored (while resolving).
    PartialCookiesForStream,
    /// A restricted broadcast needs the NAVER cookies.
    CookiesRequired,
}

impl ChzzkError {
    /// The message shown to the user.
    pub open spec fn message_spec(&self) -> Seq<char> {
        match self {
            ChzzkError::Api { code, message } => "CHZZK live-detail API 오류: code="@ + signed_decimal(*code as int)
                + " message="@ + message@,
            ChzzkError::MissingLiveId => "CHZZK LIVE response has no liveId"@,
            ChzzkError::PlaybackMissing => "CHZZK 방송은 OPEN 상태이지만 재생 정보를 받지 못했습니다."@,
            ChzzkError::PartialCookies => "CHZZK NID_AUT/NID_SES 중 하나만 설정되어 있습니다. 두 값을 모두 다시 저장하세요."@,
            ChzzkError::CookiesRejected => "CHZZK 인증 쿠키가 만료되었거나 이 제한 방송을 재생할 권한이 없습니다. NID_AUT/NID_SES를 확인하세요."@,
            ChzzkError::PartialCookiesForStream => "CHZZK NID_AUT/NID_SES 중 하나만 설정되어 있습니다."@,
            ChzzkError::CookiesRequired => "이 CHZZK 제한 방송에는 NID_AUT/NID_SES 인증이 필요합니다."@,
        }
    }

    pub fn message(&self) -> (r: String)
        ensures
            r@ == self.message_spec(),
    {
        match self {
            ChzzkError::Api { code, message } => {
                let mut v: Vec<char> = Vec::new();
                push_str(&mut v, "CHZZK live-detail API 오류: code=");
                let c = format_i64(*code);
                push_str(&mut v, c.as_str());
                push_str(&mut v, " message=");
                push_str(&mut v, message.as_str());
                assert(v@ =~= "CHZZK live-detail API 오류: code="@ + signed_decimal(*code as int) + " message="@
                    + message@);
                string_of(v.as_slice())
            },
            ChzzkError::MissingLiveId => owned("CHZZK LIVE response has no liveId"),
            ChzzkError::PlaybackMissing => owned("CHZZK 방송은 OPEN 상태이지만 재생 정보를 받지 못했습니다."),
            ChzzkError::PartialCookies => owned("CHZZK NID_AUT/NID_SES 중 하나만 설정되어 있습니다. 두 값을 모두 다시 저장하세요."),
            ChzzkError::CookiesRejected => owned("CHZZK 인증 쿠키가 만료되었거나 이 제한 방송을 재생할 권한이 없습니다. NID_AUT/NID_SES를 확인하세요."),
            ChzzkError::PartialCookiesForStream => owned("CHZZK NID_AUT/NID_SES 중 하나만 설정되어 있습니다."),
            ChzzkError::CookiesRequired => owned("이 CHZZK 제한 방송에는 NID_AUT/NID_SES 인증이 필요합니다."),
        }
    }
}

/// A CHZZK broadcast that is on air.
#[derive(Debug, Clone)]
pub struct ChzzkBroadcast {
    pub live_id: String,
    pub channel_name: String,
    pub title: String,
    pub adult: bool,
    pub requires_auth: bool,
}

/// The outcome of one CHZZK LIVE check.
#[derive(Debug, Clone)]
pub enum ChzzkProbe {
    Offline,
    AuthRequired,
    Live(ChzzkBroadcast),
}

/// A CHZZK stream handed to Streamlink's plugin.
#[derive(Debug, Clone)]
pub struct ChzzkResolvedStream {
    pub quality: String,
    pub input: StreamInput,
}

/// The fields of the `content` object of a live-detail answer.
#[derive(Debug, Clone, Default)]
pub struct LiveContent {
    pub status: Option<String>,
    /// `liveId` when it is a number.
    pub live_id_number: Option<i64>,
    /// `liveId` when it is a string.
    pub live_id_text: Option<String>,
    pub channel_name: Option<String>,
    pub live_title: Option<String>,
    pub adult: Option<bool>,
    pub membership_benefit_type: Option<String>,
    /// `livePlaybackJson` when it is a string.
    pub live_playback_json: Option<String>,
}

/// A live-detail answer: its `code`, its `message` and its `content`
/// (absent or `null` both reading as `None`).
#[derive(Debug, Clone, Default)]
pub struct LiveDetail {
    pub code: Option<i64>,
    pub message: Option<String>,
    pub content: Option<LiveContent>,
}

/// How an unauthenticated or refused restricted broadcast is reported.
pub open spec fn auth_failure_spec(state: ChzzkAuthState) -> Result<(), ChzzkError> {
    match state {
        ChzzkAuthState::Missing => Ok(()),
        ChzzkAuthState::Partial => Err(ChzzkError::PartialCookies),
        ChzzkAuthState::Configured => Err(ChzzkError::CookiesRejected),
    }
}

/// A refused restricted broadcast: `AuthRequired` when no cookie is stored,
/// an error naming the partial or rejected cookies otherwise.
pub fn auth_failure(auth: &ChzzkAuth) -> (r: Result<ChzzkProbe, ChzzkError>)
    ensures
        match auth_failure_spec(auth.spec_state()) {
            Ok(()) => r matches Ok(ChzzkProbe::AuthRequired),
            Err(e) => r == Err::<ChzzkProbe, ChzzkError>(e),
        },
{
    match auth.state() {
        ChzzkAuthState::Missing => Ok(ChzzkProbe::AuthRequired),
        ChzzkAuthState::Partial => Err(ChzzkError::PartialCookies),
        ChzzkAuthState::Configured => Err(ChzzkError::CookiesRejected),
    }
}

pub open spec fn open_word() -> Seq<char> {
    seq!['O', 'P', 'E', 'N']
}

pub open spec fn member_only_word() -> Seq<char> {
    seq!['M', 'E', 'M', 'B', 'E', 'R', '_', 'O', 'N', 'L', 'Y']
}

/// The live id: a number in decimal, else the text, if not empty.
pub open spec fn live_id_of(c: LiveContent) -> Option<Seq<char>> {
    let raw = match c.live_id_number {
        Some(n) => Some(signed_decimal(n as int)),
        None => opt_seq(c.live_id_text),
    };
    match raw {
        Some(t) => if t.len() > 0 {
            Some(t)
        } else {
            None
        },
        None => None,
    }
}

pub open spec fn content_requires_auth(c: LiveContent) -> bool {
    (c.adult == Some(true)) || (match c.membership_benefit_type {
        Some(t) => eq_ignore_case(t@, member_only_word()),
        None => false,
    })
}

pub open spec fn playback_available(c: LiveContent) -> bool {
    match c.live_playback_json {
        Some(t) => t@.len() > 0,
        None => false,
    }
}

pub open spec fn opt_or(o: Option<String>, d: Seq<char>) -> Seq<char> {
    match o {
        Some(s) => s@,
        None => d,
    }
}

/// The classification of a live-detail answer, with the broadcast's id,
/// trimmed channel name (the channel id when absent) and trimmed title.
pub enum ProbeOutcome {
    Offline,
    AuthFailure,
    Live { id: Seq<char>, channel_name: Seq<char>, title: Seq<char>, adult: bool, requires_auth: bool },
    Fails(ChzzkError),
}

pub open spec fn probe_outcome(channel_id: Seq<char>, d: LiveDetail) -> ProbeOutcome {
    if d.code != Some(200i64) {
        ProbeOutcome::Fails(
            ChzzkError::Api {
                code: match d.code {
                    Some(c) => c,
                    None => 0,
                },
                message: arbitrary(),
            },
        )
    } else {
        match d.content {
            None => ProbeOutcome::Offline,
            Some(c) => if !(c.status matches Some(s) && s@ == open_word()) {
                ProbeOutcome::Offline
            } else {
                match live_id_of(c) {
                    None => ProbeOutcome::Fails(ChzzkError::MissingLiveId),
                    Some(id) => if !playback_available(c) {
                        if content_requires_auth(c) {
                            ProbeOutcome::AuthFailure
                        } else {
                            ProbeOutcome::Fails(ChzzkError::PlaybackMissing)
                        }
                    } else {
                        ProbeOutcome::Live {
                            id,
                            channel_name: trim(opt_or(c.channel_name, channel_id)),
                            title: trim(opt_or(c.live_title, Seq::empty())),
                            adult: c.adult == Some(true),
                            requires_auth: content_requires_auth(c),
                        }
                    },
                }
            }
        }
    }
}

fn opt_or_str(o: &Option<String>, d: &str) -> (r: String)
    ensures
        r@ == opt_or(*o, d@),
{
    match o {
        Some(s) => s.as_str().to_owned(),
        None => d.to_owned(),
    }
}

/// Interprets a live-detail answer (`parse_probe_content`).
#[verifier::spinoff_prover]
pub fn parse_probe_content(channel_id: &str, detail: &LiveDetail, auth: &ChzzkAuth) -> (r: Result<
    ChzzkProbe,
    ChzzkError,
>)
    ensures
        match probe_outcome(channel_id@, *detail) {
            ProbeOutcome::Offline => r matches Ok(ChzzkProbe::Offline),
            ProbeOutcome::AuthFailure => match auth_failure_spec(auth.spec_state()) {
                Ok(()) => r matches Ok(ChzzkProbe::AuthRequired),
                Err(e) => r == Err::<ChzzkProbe, ChzzkError>(e),
            },
            ProbeOutcome::Live { id, channel_name, title, adult, requires_auth } => r matches Ok(
                ChzzkProbe::Live(b),
            ) && b.live_id@ == id && b.channel_name@ == channel_name && b.title@ == title
                && b.adult == adult && b.requires_auth == requires_auth,
            ProbeOutcome::Fails(ChzzkError::Api { code, message: _ }) => r matches Err(
                ChzzkError::Api { code: c, message: m },
            ) && c == code && m@ == opt_or(
                detail.message,
                "unknown response"@,
            ),
            ProbeOutcome::Fails(e) => r == Err::<ChzzkProbe, ChzzkError>(e),
        },
{
    if !(detail.code == Some(200i64)) {
        let code = match detail.code {
            Some(c) => c,
            None => 0,
        };
        return Err(ChzzkError::Api { code, message: opt_or_str(&detail.message, "unknown response") });
    }
    let c = match &detail.content {
        None => return Ok(ChzzkProbe::Offline),
        Some(c) => c,
    };
    let is_open = match &c.status {
        Some(s) => {
            proof {
                reveal_strlit("OPEN");
                assert("OPEN"@ =~= open_word());
            }
            str_eq(s.as_str(), "OPEN")
        },
        None => false,
    };
    if !is_open {
        return Ok(ChzzkProbe::Offline);
    }
    let raw: Option<String> = match c.live_id_number {
        Some(n) => Some(format_i64(n)),
        None => match &c.live_id_text {
            Some(t) => Some(t.as_str().to_owned()),
            None => None,
        },
    };
    let live_id = match raw {
        Some(t) => {
            if t.as_str().is_empty() {
                return Err(ChzzkError::MissingLiveId);
            }
            t
        },
        None => return Err(ChzzkError::MissingLiveId),
    };
    let adult = match c.adult {
        Some(a) => a,
        None => false,
    };
    let membership_only = match &c.membership_benefit_type {
        Some(t) => {
            proof {
                reveal_strlit("MEMBER_ONLY");
                assert("MEMBER_ONLY"@ =~= member_only_word());
            }
            str_eq_ignore_case(t.as_str(), "MEMBER_ONLY")
        },
        None => false,
    };
    let requires_auth = adult || membership_only;
    let playback = match &c.live_playback_json {
        Some(t) => !t.as_str().is_empty(),
        None => false,
    };
    if !playback {
        if requires_auth {
            return auth_failure(auth);
        }
        return Err(ChzzkError::PlaybackMissing);
    }
    let name_raw = opt_or_str(&c.channel_name, channel_id);
    let title_raw = opt_or_str(&c.live_title, "");
    proof {
        reveal_strlit("");
    }
    Ok(
        ChzzkProbe::Live(
            ChzzkBroadcast {
                live_id,
                channel_name: trim_str(name_raw.as_str()),
                title: trim_str(title_raw.as_str()),
                adult,
                requires_auth,
            },
        ),
    )
}

pub open spec fn chzzk_live_page(channel_id: Seq<char>) -> Seq<char> {
    "https://chzzk.naver.com/live/"@ + trim(channel_id)
}

/// The Streamlink input of a CHZZK broadcast: the channel's LIVE page,
/// with the NAVER cookies only for restricted broadcasts, which need both.
pub fn resolve_stream_with_auth(channel_id: &str, live: &ChzzkBroadcast, auth: &ChzzkAuth) -> (r:
    Result<ChzzkResolvedStream, ChzzkError>)
    ensures
        live.requires_auth && auth.spec_state() == ChzzkAuthState::Partial ==> r == Err::<
            ChzzkResolvedStream,
            ChzzkError,
        >(ChzzkError::PartialCookiesForStream),
        live.requires_auth && auth.spec_state() == ChzzkAuthState::Missing ==> r == Err::<
            ChzzkResolvedStream,
            ChzzkError,
        >(ChzzkError::CookiesRequired),
        !live.requires_auth || auth.spec_state() == ChzzkAuthState::Configured ==> (r matches Ok(
            s,
        ) && s.quality@ == "best"@ && (s.input matches StreamInput::PluginUrl {
            url,
            cookies,
            start_at_zero,
        } && url@ == chzzk_live_page(channel_id@) && start_at_zero && cookies@.map_values(
            |c: HttpCookie| c.spec_tuple(),
        ) == (if live.requires_auth {
            auth.spec_streamlink_cookies()
        } else {
            Seq::empty()
        }))),
{
    if live.requires_auth && !auth.configured() {
        match auth.state() {
            ChzzkAuthState::Partial => return Err(ChzzkError::PartialCookiesForStream),
            _ => return Err(ChzzkError::CookiesRequired),
        }
    }
    let mut url: Vec<char> = Vec::new();
    push_str(&mut url, "https://chzzk.naver.com/live/");
    let id = trim_str(channel_id);
    push_str(&mut url, id.as_str());
    let cookies = if live.requires_auth {
        auth.streamlink_cookies()
    } else {
        let v: Vec<HttpCookie> = Vec::new();
        assert(v@.map_values(|c: HttpCookie| c.spec_tuple()) =~= Seq::empty());
        v
    };
    Ok(
        ChzzkResolvedStream {
            quality: "best".to_owned(),
            input: StreamInput::PluginUrl { url: string_of(url.as_slice()), cookies, start_at_zero: true },
        },
    )
}

} // verus!
