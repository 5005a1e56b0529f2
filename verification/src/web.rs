//! Decisions of the web server around its requests: feature flags from the
//! environment, the management token, how a request is authorized, and the
//! tool check of the diagnostics page.
use crate::text::{
    byte_len, chars_eq, chars_of, eq_ignore_case, lower_chars, lower_seq, owned, starts_with,
    starts_with_chars, string_of, slice_vec, trim, trim_chars,
};
use vstd::prelude::*;

verus! {

/// An environment flag is on when its trimmed, lower-cased value is `1`,
/// `y`, `yes`, `true` or `on`.
pub open spec fn flag_on(value: Option<Seq<char>>) -> bool {
    match value {
        Some(v) => {
            let t = lower_seq(trim(v));
            t == "1"@ || t == "y"@ || t == "yes"@ || t == "true"@ || t == "on"@
        },
        None => false,
    }
}

fn is_text(v: &[char], t: &str) -> (r: bool)
    ensures
        r == (v@ == t@),
{
    chars_eq(v, chars_of(t).as_slice())
}

pub fn env_flag(value: Option<&str>) -> (r: bool)
    ensures
        r == flag_on(
            match value {
                Some(v) => Some(v@),
                None => None,
            },
        ),
{
    match value {
        Some(v) => {
            let t = lower_chars(trim_chars(chars_of(v).as_slice()).as_slice());
            is_text(t.as_slice(), "1") || is_text(t.as_slice(), "y") || is_text(t.as_slice(), "yes") || is_text(
                t.as_slice(),
                "true",
            ) || is_text(t.as_slice(), "on")
        },
        None => false,
    }
}

/// Why a management token was refused.
#[derive(Debug, Clone, Copy, PartialEq, Eq, Structural)]
pub enum TokenError {
    /// The trimmed token is shorter than 24 bytes.
    TooShort,
}

/// A management token (from the environment or the token file): trimmed,
/// and at least 24 bytes long.
pub fn management_token(raw: &str) -> (r: Result<String, TokenError>)
    ensures
        byte_len(trim(raw@)) < 24 ==> r == Err::<String, TokenError>(TokenError::TooShort),
        byte_len(trim(raw@)) >= 24 ==> (r matches Ok(t) && t@ == trim(raw@)),
{
    let t = trim_chars(chars_of(raw).as_slice());
    if !crate::text::byte_len_above(t.as_slice(), 23) {
        return Err(TokenError::TooShort);
    }
    Ok(string_of(t.as_slice()))
}

/// The token of an `Authorization: Bearer <token>` header.
pub open spec fn bearer_spec(header: Option<Seq<char>>) -> Option<Seq<char>> {
    match header {
        Some(h) => if starts_with(h, "Bearer "@) {
            Some(h.skip(7))
        } else {
            None
        },
        None => None,
    }
}

pub fn bearer_token(header: Option<&str>) -> (r: Option<String>)
    ensures
        crate::text::opt_seq(r) == bearer_spec(
            match header {
                Some(h) => Some(h@),
                None => None,
            },
        ),
{
    proof {
        reveal_strlit("Bearer ");
    }
    match header {
        Some(h) => {
            let v = chars_of(h);
            if starts_with_chars(v.as_slice(), chars_of("Bearer ").as_slice()) {
                let rest = slice_vec(v.as_slice(), 7, v.len());
                assert(rest@ =~= v@.skip(7));
                Some(string_of(rest.as_slice()))
            } else {
                None
            }
        },
        None => None,
    }
}

/// How a management request is authorized.
#[derive(Debug, Clone, Copy, PartialEq, Eq, Structural)]
pub enum AuthorizeStep {
    /// Allowed without more checks.
    Allowed,
    /// A recovery token was given and it is wrong.
    InvalidToken,
    /// The browser session decides.
    CheckSession,
}

/// A direct local request passes; a bearer token passes when it is the
/// management token and fails otherwise; without one, the session decides.
pub fn authorize_step(local_bypass: bool, authorization: Option<&str>, token: &str) -> (r: AuthorizeStep)
    ensures
        local_bypass ==> r == AuthorizeStep::Allowed,
        !local_bypass ==> r == match bearer_spec(
            match authorization {
                Some(h) => Some(h@),
                None => None,
            },
        ) {
            Some(t) => if t == token@ {
                AuthorizeStep::Allowed
            } else {
                AuthorizeStep::InvalidToken
            },
            None => AuthorizeStep::CheckSession,
        },
{
    if local_bypass {
        return AuthorizeStep::Allowed;
    }
    match bearer_token(authorization) {
        Some(t) => {
            if chars_eq(chars_of(t.as_str()).as_slice(), chars_of(token).as_slice()) {
                AuthorizeStep::Allowed
            } else {
                AuthorizeStep::InvalidToken
            }
        },
        None => AuthorizeStep::CheckSession,
    }
}

/// What the diagnostics page says of a tool.
#[derive(Debug, Clone)]
pub struct ToolDiagnosis {
    /// The configured value, trimmed.
    pub configured: String,
    pub found: bool,
    pub resolved: Option<String>,
}

/// A tool on the diagnostics page: a configured path (not blank, not
/// `AUTO`) decides by whether it is a file; else the first candidate that
/// is a file; else where `PATH` has the binary; else not found.
pub open spec fn diagnosis_spec(
    configured: Seq<char>,
    configured_is_file: bool,
    candidates: Seq<(Seq<char>, bool)>,
    on_path: Option<Seq<char>>,
) -> (bool, Option<Seq<char>>) {
    let c = trim(configured);
    if c.len() > 0 && !eq_ignore_case(c, "AUTO"@) {
        (configured_is_file, if configured_is_file { Some(c) } else { None })
    } else if exists|i: int| 0 <= i < candidates.len() && (#[trigger] candidates[i]).1 {
        let i = choose|i: int|
            0 <= i < candidates.len() && (#[trigger] candidates[i]).1 && forall|j: int| 0 <= j < i ==> !candidates[j].1;
        (true, Some(candidates[i].0))
    } else {
        match on_path {
            Some(p) => (true, Some(p)),
            None => (false, None),
        }
    }
}

pub open spec fn candidates_view(c: Seq<(String, bool)>) -> Seq<(Seq<char>, bool)> {
    c.map_values(|p: (String, bool)| (p.0@, p.1))
}

pub fn diagnose_tool(configured: &str, configured_is_file: bool, candidates: &[(String, bool)], on_path: Option<String>) -> (r:
    ToolDiagnosis)
    ensures
        r.configured@ == trim(configured@),
        (r.found, crate::text::opt_seq(r.resolved)) == diagnosis_spec(
            configured@,
            configured_is_file,
            candidates_view(candidates@),
            crate::text::opt_seq(on_path),
        ),
{
    let c = string_of(trim_chars(chars_of(configured).as_slice()).as_slice());
    let cv = chars_of(c.as_str());
    let auto = crate::text::chars_eq_ignore_case(cv.as_slice(), chars_of("AUTO").as_slice());
    if cv.len() > 0 && !auto {
        let resolved = if configured_is_file { Some(owned(c.as_str())) } else { None };
        return ToolDiagnosis { configured: c, found: configured_is_file, resolved };
    }
    let ghost cs = candidates_view(candidates@);
    let mut i: usize = 0;
    while i < candidates.len()
        invariant
            i <= candidates.len(),
            cs == candidates_view(candidates@),
            c@ == trim(configured@),
            !(trim(configured@).len() > 0 && !eq_ignore_case(trim(configured@), "AUTO"@)),
            forall|j: int| 0 <= j < i ==> !(#[trigger] cs[j]).1,
        decreases candidates.len() - i,
    {
        assert(cs[i as int] == (candidates@[i as int].0@, candidates@[i as int].1));
        if candidates[i].1 {
            let p = owned(candidates[i].0.as_str());
            proof {
                let k = choose|k: int| 0 <= k < cs.len() && (#[trigger] cs[k]).1 && forall|j: int| 0 <= j < k ==> !cs[j].1;
                if k < i {
                } else if k > i {
                    assert(!cs[i as int].1);
                }
            }
            return ToolDiagnosis { configured: c, found: true, resolved: Some(p) };
        }
        i += 1;
    }
    match on_path {
        Some(p) => ToolDiagnosis { configured: c, found: true, resolved: Some(p) },
        None => ToolDiagnosis { configured: c, found: false, resolved: None },
    }
}

} // verus!
