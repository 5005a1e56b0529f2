//! The native file and folder picker: who may open it (a direct loopback
//! browser session only), which requests are accepted, and how the picker's
//! base64 output is read back.
use crate::security::{base64_standard_decode, text_from_utf8};
use crate::text::{
    byte_len, byte_len_above, chars_of, lower_chars, lower_seq, starts_with,
    starts_with_chars, chars_eq, string_of, trim, trim_chars, eq_ignore_case,
    chars_eq_ignore_case,
};
use vstd::prelude::*;
use vstd::utf8::{decode_utf8, valid_utf8};

verus! {

/// Whether the server listens on a loopback address only.
pub open spec fn loopback_bind(bind: Seq<char>) -> bool {
    let b = lower_seq(bind);
    starts_with(b, "127.0.0.1:"@) || starts_with(b, "[::1]:"@) || starts_with(b, "localhost:"@)
}

/// Whether the `Host` header names the loopback address directly.
pub open spec fn direct_host(host: Seq<char>) -> bool {
    let h = lower_seq(trim(host));
    h == "localhost"@ || starts_with(h, "localhost:"@) || h == "127.0.0.1"@ || starts_with(h, "127.0.0.1:"@)
        || h == "[::1]"@ || starts_with(h, "[::1]:"@)
}

/// The headers a reverse proxy adds.
pub open spec fn proxy_header(name: Seq<char>) -> bool {
    eq_ignore_case(name, "forwarded"@) || eq_ignore_case(name, "x-forwarded-for"@) || eq_ignore_case(
        name,
        "x-forwarded-host"@,
    ) || eq_ignore_case(name, "x-real-ip"@)
}

/// Whether a request may open the native picker: the server is bound to
/// loopback, the `Host` header (empty when missing or unreadable) names
/// loopback, and no proxy header is present.
pub open spec fn direct_local_spec(bind: Seq<char>, host: Seq<char>, names: Seq<String>) -> bool {
    loopback_bind(bind) && direct_host(host) && !exists|i: int| 0 <= i < names.len() && proxy_header(#[trigger] names[i]@)
}

fn starts_with_str(h: &[char], p: &str) -> (r: bool)
    ensures
        r == starts_with(h@, p@),
{
    let pv = chars_of(p);
    starts_with_chars(h, pv.as_slice())
}

fn is_str(h: &[char], p: &str) -> (r: bool)
    ensures
        r == (h@ == p@),
{
    let pv = chars_of(p);
    chars_eq(h, pv.as_slice())
}

fn names_proxy(name: &str) -> (r: bool)
    ensures
        r == proxy_header(name@),
{
    let v = chars_of(name);
    let a = chars_of("forwarded");
    let b = chars_of("x-forwarded-for");
    let c = chars_of("x-forwarded-host");
    let d = chars_of("x-real-ip");
    chars_eq_ignore_case(v.as_slice(), a.as_slice()) || chars_eq_ignore_case(v.as_slice(), b.as_slice())
        || chars_eq_ignore_case(v.as_slice(), c.as_slice()) || chars_eq_ignore_case(v.as_slice(), d.as_slice())
}

/// Whether the request comes straight from a browser on this machine (see
/// `direct_local_spec`); `header_names` are the names of all its headers.
pub fn direct_local_request_allowed(bind: &str, host: &str, header_names: &[String]) -> (r: bool)
    ensures
        r == direct_local_spec(bind@, host@, header_names@),
{
    let b = lower_chars(chars_of(bind).as_slice());
    if !(starts_with_str(b.as_slice(), "127.0.0.1:") || starts_with_str(b.as_slice(), "[::1]:")
        || starts_with_str(b.as_slice(), "localhost:")) {
        return false;
    }
    let h = lower_chars(trim_chars(chars_of(host).as_slice()).as_slice());
    let direct = is_str(h.as_slice(), "localhost") || starts_with_str(h.as_slice(), "localhost:") || is_str(
        h.as_slice(),
        "127.0.0.1",
    ) || starts_with_str(h.as_slice(), "127.0.0.1:") || is_str(h.as_slice(), "[::1]")
        || starts_with_str(h.as_slice(), "[::1]:");
    if !direct {
        return false;
    }
    let mut i: usize = 0;
    while i < header_names.len()
        invariant
            i <= header_names.len(),
            forall|j: int| 0 <= j < i ==> !proxy_header(#[trigger] header_names@[j]@),
        decreases header_names.len() - i,
    {
        if names_proxy(header_names[i].as_str()) {
            return false;
        }
        i += 1;
    }
    true
}

// ---------------------------------------------------------------------------
// Requests
// ---------------------------------------------------------------------------

/// What the picker is asked to show.
#[derive(Debug, Clone, Copy, PartialEq, Eq, Structural)]
pub enum PickerKind {
    Folder,
    File,
}

/// Which files the file picker lists.
#[derive(Debug, Clone, Copy, PartialEq, Eq, Structural)]
pub enum PickerFilter {
    All,
    Exe,
    Cookie,
}

/// Why a picker request was refused, or the picker failed.
#[derive(Debug, Clone, Copy, PartialEq, Eq, Structural)]
pub enum PickerError {
    /// The kind is not `folder` or `file`.
    BadKind,
    /// The filter is not `all`, `exe` or `cookie`.
    BadFilter,
    /// The initial path holds NUL or is over 4096 bytes.
    BadInitialPath,
    /// The picker's output is not base64.
    OutputNotBase64,
    /// The decoded path is not UTF-8.
    PathNotUtf8,
}

impl PickerError {
    pub fn message(self) -> (r: &'static str)
        ensures
            r@ == match self {
                PickerError::BadKind => "kind must be folder or file"@,
                PickerError::BadFilter => "filter must be all, exe or cookie"@,
                PickerError::BadInitialPath => "initial_path is invalid or too long"@,
                PickerError::OutputNotBase64 => "picker output decode failed"@,
                PickerError::PathNotUtf8 => "picker path decode failed"@,
            },
    {
        match self {
            PickerError::BadKind => "kind must be folder or file",
            PickerError::BadFilter => "filter must be all, exe or cookie",
            PickerError::BadInitialPath => "initial_path is invalid or too long",
            PickerError::OutputNotBase64 => "picker output decode failed",
            PickerError::PathNotUtf8 => "picker path decode failed",
        }
    }
}

/// An accepted picker request.
#[derive(Debug, Clone)]
pub struct PickerRequest {
    pub kind: PickerKind,
    pub filter: PickerFilter,
    /// Where the picker starts; empty for its default.
    pub initial_path: String,
}

pub open spec fn kind_of(k: Seq<char>) -> Option<PickerKind> {
    if k == "folder"@ {
        Some(PickerKind::Folder)
    } else if k == "file"@ {
        Some(PickerKind::File)
    } else {
        None
    }
}

pub open spec fn filter_of(f: Seq<char>) -> Option<PickerFilter> {
    if f == "all"@ {
        Some(PickerFilter::All)
    } else if f == "exe"@ {
        Some(PickerFilter::Exe)
    } else if f == "cookie"@ {
        Some(PickerFilter::Cookie)
    } else {
        None
    }
}

/// The initial path a request asks for: trimmed, and empty for `AUTO` (any
/// case).
pub open spec fn initial_of(raw: Seq<char>) -> Seq<char> {
    if eq_ignore_case(trim(raw), "AUTO"@) {
        Seq::empty()
    } else {
        trim(raw)
    }
}

/// The checks of a picker request, in order: the trimmed kind (missing is
/// empty), the trimmed filter (missing is `all`), the initial path.
pub open spec fn picker_check(kind: Seq<char>, filter: Seq<char>, initial: Seq<char>) -> Result<
    (PickerKind, PickerFilter, Seq<char>),
    PickerError,
> {
    match kind_of(trim(kind)) {
        None => Err(PickerError::BadKind),
        Some(k) => match filter_of(trim(filter)) {
            None => Err(PickerError::BadFilter),
            Some(f) => {
                let p = initial_of(initial);
                if byte_len(p) > 4096 || p.contains('\0') {
                    Err(PickerError::BadInitialPath)
                } else {
                    Ok((k, f, p))
                }
            },
        },
    }
}

pub open spec fn opt_or(o: Option<&str>, d: Seq<char>) -> Seq<char> {
    match o {
        Some(s) => s@,
        None => d,
    }
}

/// Checks a picker request (see `picker_check`).
pub fn picker_request(kind: Option<&str>, filter: Option<&str>, initial_path: Option<&str>) -> (r: Result<
    PickerRequest,
    PickerError,
>)
    ensures
        match picker_check(opt_or(kind, Seq::empty()), opt_or(filter, "all"@), opt_or(initial_path, Seq::empty())) {
            Ok((k, f, p)) => r matches Ok(q) && q.kind == k && q.filter == f && q.initial_path@ == p,
            Err(e) => r == Err::<PickerRequest, PickerError>(e),
        },
{
    proof {
        reveal_strlit("");
    }
    let ks: &str = match kind {
        Some(s) => s,
        None => "",
    };
    assert(ks@ == opt_or(kind, Seq::empty()));
    let k = trim_chars(chars_of(ks).as_slice());
    let kind_v = if is_str(k.as_slice(), "folder") {
        PickerKind::Folder
    } else if is_str(k.as_slice(), "file") {
        PickerKind::File
    } else {
        return Err(PickerError::BadKind);
    };
    let fs: &str = match filter {
        Some(s) => s,
        None => "all",
    };
    assert(fs@ == opt_or(filter, "all"@));
    let f = trim_chars(chars_of(fs).as_slice());
    let filter_v = if is_str(f.as_slice(), "all") {
        PickerFilter::All
    } else if is_str(f.as_slice(), "exe") {
        PickerFilter::Exe
    } else if is_str(f.as_slice(), "cookie") {
        PickerFilter::Cookie
    } else {
        return Err(PickerError::BadFilter);
    };
    let ps: &str = match initial_path {
        Some(s) => s,
        None => "",
    };
    assert(ps@ == opt_or(initial_path, Seq::empty()));
    let t = trim_chars(chars_of(ps).as_slice());
    let auto = chars_of("AUTO");
    let p: Vec<char> = if chars_eq_ignore_case(t.as_slice(), auto.as_slice()) {
        Vec::new()
    } else {
        t
    };
    if byte_len_above(p.as_slice(), 4096) || crate::text::has_char(p.as_slice(), '\0') {
        return Err(PickerError::BadInitialPath);
    }
    Ok(PickerRequest { kind: kind_v, filter: filter_v, initial_path: string_of(p.as_slice()) })
}

// ---------------------------------------------------------------------------
// Output
// ---------------------------------------------------------------------------

/// What the picker's output selects: nothing when the trimmed output is
/// empty (cancelled) or the decoded path trims to empty; otherwise the
/// trimmed path that the base64 output decodes to.
pub open spec fn selection_spec(output: Seq<char>) -> Result<Option<Seq<char>>, PickerError> {
    let o = trim(output);
    if o.len() == 0 {
        Ok(None)
    } else {
        match base64_standard_decode(o) {
            None => Err(PickerError::OutputNotBase64),
            Some(bytes) => if !valid_utf8(bytes) {
                Err(PickerError::PathNotUtf8)
            } else {
                let p = trim(decode_utf8(bytes));
                if p.len() == 0 {
                    Ok(None)
                } else {
                    Ok(Some(p))
                }
            },
        }
    }
}

/// Reads the picker's output (see `selection_spec`).
pub fn picker_selection(output: &str) -> (r: Result<Option<String>, PickerError>)
    ensures
        match selection_spec(output@) {
            Ok(None) => r matches Ok(None),
            Ok(Some(p)) => r matches Ok(Some(s)) && s@ == p,
            Err(e) => r == Err::<Option<String>, PickerError>(e),
        },
{
    let o = string_of(trim_chars(chars_of(output).as_slice()).as_slice());
    if o.as_str().is_empty() {
        return Ok(None);
    }
    let bytes = match crate::security::base64_decode(o.as_str()) {
        Some(b) => b,
        None => {
            return Err(PickerError::OutputNotBase64);
        },
    };
    let text = match text_from_utf8(bytes) {
        Some(t) => t,
        None => {
            return Err(PickerError::PathNotUtf8);
        },
    };
    let p = trim_chars(chars_of(text.as_str()).as_slice());
    if p.len() == 0 {
        Ok(None)
    } else {
        Ok(Some(string_of(p.as_slice())))
    }
}

} // verus!
