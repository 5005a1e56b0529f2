//! Browser login rules: user names and passwords, the session cookie,
//! password hash texts, hex, constant-time comparison, and the limiter
//! that blocks a user and client after repeated failures.
use crate::keyed::Keyed;
use crate::text::{split_on, split_once_spec, split_text, split_once, starts_with};
use crate::text::{
    byte_len, char_width, chars_of, contains, decimal, eq_ignore_case, format_i64, format_u64,
    has_line_break_or_nul, is_alnum, lemma_byte_len_bounds, line_break_or_nul, lower_seq, owned,
    parse_u64, parse_u64_spec, push_char, push_chars, push_str, signed_decimal, str_eq,
    str_eq_ignore_case, string_of, to_lower, trim, trim_chars, trim_str,
};
use vstd::prelude::*;

verus! {

/// Why a login input was refused.
#[derive(Debug, Clone, Copy, PartialEq, Eq, Structural)]
pub enum AuthError {
    /// A user name of fewer than 3 or more than 32 bytes (trimmed).
    UsernameLength,
    /// A user name with a character other than letters, digits, `.`, `_`
    /// and `-`.
    UsernameChars,
    /// A password of fewer than 12 or more than 128 bytes.
    PasswordLength,
    /// A password with a line break or a NUL.
    PasswordNotSingleLine,
    /// Hex text of odd length.
    HexLength,
    /// Hex text with a character that is no hex digit.
    HexChar,
    /// A password hash whose iteration count is no number.
    BadIterations,
}

impl AuthError {
    /// The message shown for the refusal.
    pub open spec fn message_spec(&self) -> Seq<char> {
        match self {
            AuthError::UsernameLength => "username must be 3 to 32 characters"@,
            AuthError::UsernameChars => "username may contain only letters, numbers, dot, underscore and hyphen"@,
            AuthError::PasswordLength => "password must be 12 to 128 characters"@,
            AuthError::PasswordNotSingleLine => "password must be a single line"@,
            AuthError::HexLength => "invalid hex length"@,
            AuthError::HexChar => "invalid hex character"@,
            AuthError::BadIterations => "invalid password hash iterations"@,
        }
    }

    pub fn message(&self) -> (r: &'static str)
        ensures
            r@ == self.message_spec(),
    {
        match self {
            AuthError::UsernameLength => "username must be 3 to 32 characters",
            AuthError::UsernameChars => "username may contain only letters, numbers, dot, underscore and hyphen",
            AuthError::PasswordLength => "password must be 12 to 128 characters",
            AuthError::PasswordNotSingleLine => "password must be a single line",
            AuthError::HexLength => "invalid hex length",
            AuthError::HexChar => "invalid hex character",
            AuthError::BadIterations => "invalid password hash iterations",
        }
    }
}

pub open spec fn username_char(c: char) -> bool {
    is_alnum(c) || c == '.' || c == '_' || c == '-'
}

/// A user name: 3 to 32 bytes once trimmed, of letters, digits, `.`, `_`
/// and `-`.
pub open spec fn username_check(value: Seq<char>) -> Result<(), AuthError> {
    let t = trim(value);
    if byte_len(t) < 3 || byte_len(t) > 32 {
        Err(AuthError::UsernameLength)
    } else if !(forall|i: int| 0 <= i < t.len() ==> username_char(#[trigger] t[i])) {
        Err(AuthError::UsernameChars)
    } else {
        Ok(())
    }
}

pub fn validate_username(value: &str) -> (r: Result<(), AuthError>)
    ensures
        r == username_check(value@),
{
    let t = trim_str(value);
    let v = chars_of(t.as_str());
    proof {
        lemma_byte_len_bounds(t@);
    }
    if v.len() > 32 || t.as_str().len() < 3 || t.as_str().len() > 32 {
        return Err(AuthError::UsernameLength);
    }
    let mut i: usize = 0;
    while i < v.len()
        invariant
            i <= v.len(),
            v@ == t@,
            t@ == trim(value@),
            3 <= byte_len(t@) <= 32,
            forall|j: int| 0 <= j < i ==> username_char(#[trigger] v@[j]),
        decreases v.len() - i,
    {
        let c = v[i];
        if !(('0' <= c && c <= '9') || ('a' <= c && c <= 'z') || ('A' <= c && c <= 'Z') || c == '.'
            || c == '_' || c == '-') {
            assert(!username_char(t@[i as int]));
            return Err(AuthError::UsernameChars);
        }
        i += 1;
    }
    Ok(())
}

/// A password: 12 to 128 bytes, on one line.
pub open spec fn password_check(value: Seq<char>) -> Result<(), AuthError> {
    if byte_len(value) < 12 || byte_len(value) > 128 {
        Err(AuthError::PasswordLength)
    } else if has_line_break_or_nul(value) {
        Err(AuthError::PasswordNotSingleLine)
    } else {
        Ok(())
    }
}

pub fn validate_password(value: &str) -> (r: Result<(), AuthError>)
    ensures
        r == password_check(value@),
{
    let v = chars_of(value);
    proof {
        lemma_byte_len_bounds(value@);
    }
    if v.len() > 128 || value.len() < 12 || value.len() > 128 {
        return Err(AuthError::PasswordLength);
    }
    if line_break_or_nul(v.as_slice()) {
        return Err(AuthError::PasswordNotSingleLine);
    }
    Ok(())
}

/// Compares two byte strings in time that depends only on their lengths.
pub fn constant_time_eq(left: &[u8], right: &[u8]) -> (r: bool)
    ensures
        r == (left@ == right@),
{
    if left.len() != right.len() {
        return false;
    }
    let mut diff: u8 = 0;
    let mut i: usize = 0;
    while i < left.len()
        invariant
            i <= left.len(),
            left.len() == right.len(),
            (diff == 0) == (forall|j: int| 0 <= j < i ==> left@[j] == right@[j]),
        decreases left.len() - i,
    {
        let a = left[i];
        let b = right[i];
        let d = diff;
        assert(((d | (a ^ b)) == 0) == (d == 0 && a == b)) by (bit_vector);
        diff = d | (a ^ b);
        i += 1;
    }
    assert(left@ =~= right@ <==> forall|j: int| 0 <= j < left.len() ==> left@[j] == right@[j]);
    diff == 0
}

// ---------------------------------------------------------------------------
// Hex
// ---------------------------------------------------------------------------

pub open spec fn hex_digit(n: nat) -> char {
    if n < 10 {
        (('0' as nat) + n) as char
    } else {
        (('a' as nat) + n - 10) as char
    }
}

/// Lower-case hex, two digits per byte.
pub open spec fn hex_spec(bytes: Seq<u8>) -> Seq<char>
    decreases bytes.len(),
{
    if bytes.len() == 0 {
        Seq::empty()
    } else {
        hex_spec(bytes.drop_last()) + seq![hex_digit((bytes.last() / 16) as nat), hex_digit((bytes.last() % 16) as nat)]
    }
}

/// The value of a hex digit of either case.
pub open spec fn hex_value_spec(c: char) -> Option<u8> {
    if '0' <= c && c <= '9' {
        Some(((c as u32) - ('0' as u32)) as u8)
    } else if 'a' <= c && c <= 'f' {
        Some(((c as u32) - ('a' as u32) + 10) as u8)
    } else if 'A' <= c && c <= 'F' {
        Some(((c as u32) - ('A' as u32) + 10) as u8)
    } else {
        None
    }
}

/// The bytes of hex text: pairs of digits, high digit first.
pub open spec fn unhex(s: Seq<char>) -> Seq<u8>
    decreases s.len(),
{
    if s.len() < 2 {
        Seq::empty()
    } else {
        unhex(s.drop_last().drop_last()) + seq![
            (hex_value_spec(s[s.len() - 2]).unwrap() * 16 + hex_value_spec(s.last()).unwrap()) as u8,
        ]
    }
}

pub open spec fn all_hex(s: Seq<char>) -> bool {
    forall|i: int| 0 <= i < s.len() ==> (#[trigger] hex_value_spec(s[i])).is_some()
}

/// Decoding hex text: even byte length, then hex digits only.
pub open spec fn hex_decode_spec(s: Seq<char>) -> Result<Seq<u8>, AuthError> {
    if byte_len(s) % 2 != 0 {
        Err(AuthError::HexLength)
    } else if !all_hex(s) {
        Err(AuthError::HexChar)
    } else {
        Ok(unhex(s))
    }
}

pub fn hex_value(c: char) -> (r: Result<u8, AuthError>)
    ensures
        match hex_value_spec(c) {
            Some(v) => r == Ok::<u8, AuthError>(v),
            None => r == Err::<u8, AuthError>(AuthError::HexChar),
        },
{
    if '0' <= c && c <= '9' {
        Ok(((c as u32) - ('0' as u32)) as u8)
    } else if 'a' <= c && c <= 'f' {
        Ok(((c as u32) - ('a' as u32) + 10) as u8)
    } else if 'A' <= c && c <= 'F' {
        Ok(((c as u32) - ('A' as u32) + 10) as u8)
    } else {
        Err(AuthError::HexChar)
    }
}

fn hex_char(n: u8) -> (c: char)
    requires
        n < 16,
    ensures
        c == hex_digit(n as nat),
{
    if n < 10 {
        ((48u8 + n) as char)
    } else {
        ((87u8 + n) as char)
    }
}

pub fn hex_encode(bytes: &[u8]) -> (r: String)
    ensures
        r@ == hex_spec(bytes@),
{
    let mut out: Vec<char> = Vec::new();
    let mut i: usize = 0;
    while i < bytes.len()
        invariant
            i <= bytes.len(),
            out@ == hex_spec(bytes@.take(i as int)),
        decreases bytes.len() - i,
    {
        let b = bytes[i];
        assert(bytes@.take(i + 1).drop_last() =~= bytes@.take(i as int));
        out.push(hex_char(b / 16));
        out.push(hex_char(b % 16));
        i += 1;
    }
    assert(bytes@.take(bytes.len() as int) =~= bytes@);
    string_of(out.as_slice())
}

proof fn lemma_ascii_bytes(s: Seq<char>)
    requires
        forall|i: int| 0 <= i < s.len() ==> (#[trigger] s[i] as u32) < 0x80,
    ensures
        byte_len(s) == s.len(),
    decreases s.len(),
{
    if s.len() > 0 {
        assert((s[0] as u32) < 0x80);
        assert(char_width(s[0]) == 1);
        lemma_ascii_bytes(s.drop_first());
    }
}

pub fn hex_decode(value: &str) -> (r: Result<Vec<u8>, AuthError>)
    ensures
        match hex_decode_spec(value@) {
            Ok(b) => r matches Ok(v) && v@ == b,
            Err(e) => r == Err::<Vec<u8>, AuthError>(e),
        },
{
    if crate::text::byte_len_odd(value) {
        return Err(AuthError::HexLength);
    }
    let v = chars_of(value);
    let mut k: usize = 0;
    while k < v.len()
        invariant
            k <= v.len(),
            v@ == value@,
            byte_len(value@) % 2 == 0,
            forall|j: int| 0 <= j < k ==> (#[trigger] hex_value_spec(v@[j])).is_some(),
        decreases v.len() - k,
    {
        match hex_value(v[k]) {
            Err(e) => {
                return Err(e);
            },
            Ok(_) => {},
        }
        k += 1;
    }
    proof {
        assert forall|i: int| 0 <= i < v@.len() implies (#[trigger] v@[i] as u32) < 0x80 by {
            assert(hex_value_spec(v@[i]).is_some());
        }
        lemma_ascii_bytes(value@);
    }
    let mut out: Vec<u8> = Vec::new();
    let mut i: usize = 0;
    while i + 1 < v.len()
        invariant
            i <= v.len(),
            i % 2 == 0,
            v.len() % 2 == 0,
            v@ == value@,
            all_hex(v@),
            out@ == unhex(v@.take(i as int)),
        decreases v.len() - i,
    {
        let hi = match hex_value(v[i]) {
            Ok(x) => x,
            Err(e) => {
                return Err(e);
            },
        };
        let lo = match hex_value(v[i + 1]) {
            Ok(x) => x,
            Err(e) => {
                return Err(e);
            },
        };
        assert(v@.take(i + 2).drop_last().drop_last() =~= v@.take(i as int));
        assert(hi < 16 && lo < 16);
        out.push(hi * 16 + lo);
        i += 2;
    }
    assert(v@.take(v.len() as int) =~= v@);
    Ok(out)
}

/// Hex takes two characters per byte.
pub proof fn lemma_hex_len(bytes: Seq<u8>)
    ensures
        hex_spec(bytes).len() == 2 * bytes.len(),
    decreases bytes.len(),
{
    if bytes.len() > 0 {
        lemma_hex_len(bytes.drop_last());
    }
}

proof fn lemma_hex_round_trip(bytes: Seq<u8>)
    ensures
        all_hex(hex_spec(bytes)),
        hex_spec(bytes).len() == 2 * bytes.len(),
        unhex(hex_spec(bytes)) == bytes,
    decreases bytes.len(),
{
    if bytes.len() > 0 {
        lemma_hex_round_trip(bytes.drop_last());
        let h = hex_spec(bytes);
        let prev = hex_spec(bytes.drop_last());
        let b = bytes.last();
        assert(h.drop_last().drop_last() =~= prev);
        assert(hex_value_spec(hex_digit((b / 16) as nat)) == Some(b / 16));
        assert(hex_value_spec(hex_digit((b % 16) as nat)) == Some(b % 16));
        assert((b / 16) * 16 + b % 16 == b);
        assert(bytes.drop_last().push(b) =~= bytes);
        assert forall|i: int| 0 <= i < h.len() implies (#[trigger] hex_value_spec(h[i])).is_some() by {
            if i < prev.len() {
                assert(h[i] == prev[i]);
            }
        }
    }
}

/// Hex decoding gives back the bytes that were encoded.
pub proof fn law_hex_round_trip(bytes: Seq<u8>)
    ensures
        hex_decode_spec(hex_spec(bytes)) == Ok::<Seq<u8>, AuthError>(bytes),
{
    lemma_hex_round_trip(bytes);
    assert forall|i: int| 0 <= i < hex_spec(bytes).len() implies (#[trigger] hex_spec(bytes)[i] as u32) < 0x80 by {
        assert(hex_value_spec(hex_spec(bytes)[i]).is_some());
    }
    lemma_ascii_bytes(hex_spec(bytes));
}

// ---------------------------------------------------------------------------
// Cookies and request headers
// ---------------------------------------------------------------------------

/// The session cookie's name.
pub open spec fn session_cookie_name() -> Seq<char> {
    "soop_session"@
}

/// `hours * 3600`, saturating.
pub open spec fn max_age(hours: i64) -> int {
    let m = hours * 3600;
    if m > i64::MAX {
        i64::MAX as int
    } else if m < i64::MIN {
        i64::MIN as int
    } else {
        m
    }
}

pub open spec fn secure_suffix(secure: bool) -> Seq<char> {
    if secure {
        "; Secure"@
    } else {
        Seq::empty()
    }
}

/// The `Set-Cookie` value of a session that lasts `hours`.
pub fn session_cookie(value: &str, hours: i64, secure: bool) -> (r: String)
    ensures
        r@ == session_cookie_name() + seq!['='] + value@ + "; Path=/; HttpOnly; SameSite=Strict; Max-Age="@
            + signed_decimal(max_age(hours)) + secure_suffix(secure),
{
    let age: i64 = match hours.checked_mul(3600) {
        Some(m) => m,
        None => if hours > 0 {
            i64::MAX
        } else {
            i64::MIN
        },
    };
    let mut v: Vec<char> = Vec::new();
    push_str(&mut v, "soop_session");
    v.push('=');
    push_str(&mut v, value);
    push_str(&mut v, "; Path=/; HttpOnly; SameSite=Strict; Max-Age=");
    push_str(&mut v, format_i64(age).as_str());
    if secure {
        push_str(&mut v, "; Secure");
    }
    assert(v@ =~= session_cookie_name() + seq!['='] + value@ + "; Path=/; HttpOnly; SameSite=Strict; Max-Age="@
        + signed_decimal(max_age(hours)) + secure_suffix(secure));
    string_of(v.as_slice())
}

/// The `Set-Cookie` value that ends the session.
pub fn clear_session_cookie(secure: bool) -> (r: String)
    ensures
        r@ == session_cookie_name() + "=; Path=/; HttpOnly; SameSite=Strict; Max-Age=0"@ + secure_suffix(secure),
{
    let mut v: Vec<char> = Vec::new();
    push_str(&mut v, "soop_session");
    push_str(&mut v, "=; Path=/; HttpOnly; SameSite=Strict; Max-Age=0");
    if secure {
        push_str(&mut v, "; Secure");
    }
    assert(v@ =~= session_cookie_name() + "=; Path=/; HttpOnly; SameSite=Strict; Max-Age=0"@ + secure_suffix(secure));
    string_of(v.as_slice())
}

/// The value of the first `name=value` pair named `name` (both trimmed).
pub open spec fn cookie_in(parts: Seq<Seq<char>>, name: Seq<char>) -> Option<Seq<char>>
    decreases parts.len(),
{
    if parts.len() == 0 {
        None
    } else {
        match split_once_spec(trim(parts[0]), '=') {
            Some((k, v)) => if trim(k) == name {
                Some(trim(v))
            } else {
                cookie_in(parts.drop_first(), name)
            },
            None => cookie_in(parts.drop_first(), name),
        }
    }
}

/// The cookie named `name` in the first `Cookie` header that has it.
pub open spec fn cookie_in_headers(headers: Seq<Seq<char>>, name: Seq<char>) -> Option<Seq<char>>
    decreases headers.len(),
{
    if headers.len() == 0 {
        None
    } else {
        match cookie_in(split_on(headers[0], ';'), name) {
            Some(v) => Some(v),
            None => cookie_in_headers(headers.drop_first(), name),
        }
    }
}

pub open spec fn texts(v: Seq<String>) -> Seq<Seq<char>> {
    v.map_values(|s: String| s@)
}

fn cookie_in_header(header: &str, name: &str) -> (r: Option<String>)
    ensures
        opt_seq_of(r) == cookie_in(split_on(header@, ';'), name@),
{
    let parts = split_text(header, ';');
    let ghost ps = texts(parts@);
    let mut i: usize = 0;
    assert(ps.skip(0) =~= ps);
    while i < parts.len()
        invariant
            i <= parts.len(),
            ps == texts(parts@),
            ps == split_on(header@, ';'),
            cookie_in(ps, name@) == cookie_in(ps.skip(i as int), name@),
        decreases parts.len() - i,
    {
        assert(ps.skip(i as int).drop_first() =~= ps.skip(i + 1));
        assert(ps.skip(i as int)[0] == parts@[i as int]@);
        let t = trim_str(parts[i].as_str());
        match split_once(t.as_str(), '=') {
            Some((k, v)) => {
                let kt = trim_str(k.as_str());
                if str_eq(kt.as_str(), name) {
                    return Some(trim_str(v.as_str()));
                }
            },
            None => {},
        }
        i += 1;
    }
    assert(ps.skip(i as int) =~= Seq::<Seq<char>>::empty());
    None
}

pub open spec fn opt_seq_of(o: Option<String>) -> Option<Seq<char>> {
    match o {
        Some(s) => Some(s@),
        None => None,
    }
}

/// The cookie named `name` among the `Cookie` header values.
pub fn cookie_value(headers: &[String], name: &str) -> (r: Option<String>)
    ensures
        opt_seq_of(r) == cookie_in_headers(texts(headers@), name@),
{
    let ghost hs = texts(headers@);
    let mut i: usize = 0;
    assert(hs.skip(0) =~= hs);
    while i < headers.len()
        invariant
            i <= headers.len(),
            hs == texts(headers@),
            cookie_in_headers(hs, name@) == cookie_in_headers(hs.skip(i as int), name@),
        decreases headers.len() - i,
    {
        assert(hs.skip(i as int).drop_first() =~= hs.skip(i + 1));
        assert(hs.skip(i as int)[0] == headers@[i as int]@);
        match cookie_in_header(headers[i].as_str(), name) {
            Some(v) => {
                return Some(v);
            },
            None => {},
        }
        i += 1;
    }
    assert(hs.skip(i as int) =~= Seq::<Seq<char>>::empty());
    None
}

/// Whether a proxy says the request came over HTTPS: an
/// `X-Forwarded-Proto` part equal to `https` (case ignored), or a
/// `Forwarded` part equal to `proto=https` (the header lower-cased).
pub open spec fn https_spec(forwarded_proto: Option<Seq<char>>, forwarded: Option<Seq<char>>) -> bool {
    (match forwarded_proto {
        Some(p) => proto_says_https(p),
        None => false,
    }) || (match forwarded {
        Some(f) => forwarded_says_https(f),
        None => false,
    })
}

pub open spec fn proto_says_https(p: Seq<char>) -> bool {
    exists|i: int| 0 <= i < split_on(p, ',').len() && eq_ignore_case(trim(#[trigger] split_on(p, ',')[i]), "https"@)
}

pub open spec fn forwarded_says_https(f: Seq<char>) -> bool {
    exists|i: int|
        0 <= i < split_on(lower_seq(f), ';').len() && trim(#[trigger] split_on(lower_seq(f), ';')[i]) == "proto=https"@
}

fn any_https_part(text: &str) -> (r: bool)
    ensures
        r == proto_says_https(text@),
{
    let parts = split_text(text, ',');
    let ghost ps = texts(parts@);
    let mut i: usize = 0;
    while i < parts.len()
        invariant
            i <= parts.len(),
            ps == texts(parts@),
            ps == split_on(text@, ','),
            forall|j: int| 0 <= j < i ==> !eq_ignore_case(trim(#[trigger] ps[j]), "https"@),
        decreases parts.len() - i,
    {
        assert(ps[i as int] == parts@[i as int]@);
        let t = trim_str(parts[i].as_str());
        if str_eq_ignore_case(t.as_str(), "https") {
            return true;
        }
        i += 1;
    }
    false
}

fn any_proto_part(text: &str) -> (r: bool)
    ensures
        r == forwarded_says_https(text@),
{
    let lower = to_lower(text);
    let parts = split_text(lower.as_str(), ';');
    let ghost ps = texts(parts@);
    let mut i: usize = 0;
    while i < parts.len()
        invariant
            i <= parts.len(),
            ps == texts(parts@),
            ps == split_on(lower_seq(text@), ';'),
            forall|j: int| 0 <= j < i ==> trim(#[trigger] ps[j]) != "proto=https"@,
        decreases parts.len() - i,
    {
        assert(ps[i as int] == parts@[i as int]@);
        let t = trim_str(parts[i].as_str());
        if str_eq(t.as_str(), "proto=https") {
            return true;
        }
        i += 1;
    }
    false
}

pub open spec fn opt_str_view(o: Option<&str>) -> Option<Seq<char>> {
    match o {
        Some(s) => Some(s@),
        None => None,
    }
}

/// Whether the request came over HTTPS through a proxy, from the
/// `X-Forwarded-Proto` and `Forwarded` headers.
pub fn request_is_https(forwarded_proto: Option<&str>, forwarded: Option<&str>) -> (r: bool)
    ensures
        r == https_spec(opt_str_view(forwarded_proto), opt_str_view(forwarded)),
{
    let a = match forwarded_proto {
        Some(p) => any_https_part(p),
        None => false,
    };
    if a {
        return true;
    }
    match forwarded {
        Some(f) => any_proto_part(f),
        None => false,
    }
}

/// The key that login failures are counted under: the user name (trimmed,
/// lower-cased), `|`, and the client: the first `X-Forwarded-For` entry,
/// else `X-Real-IP`, else `local`, trimmed.
pub open spec fn failure_key_spec(username: Seq<char>, forwarded_for: Option<Seq<char>>, real_ip: Option<Seq<char>>) -> Seq<char> {
    let client = match forwarded_for {
        Some(f) => split_on(f, ',')[0],
        None => match real_ip {
            Some(r) => r,
            None => "local"@,
        },
    };
    lower_seq(trim(username)) + seq!['|'] + trim(client)
}

proof fn lemma_split_nonempty(s: Seq<char>, c: char)
    ensures
        split_on(s, c).len() >= 1,
{
}

pub fn login_failure_key(username: &str, forwarded_for: Option<&str>, real_ip: Option<&str>) -> (r: String)
    ensures
        r@ == failure_key_spec(username@, opt_str_view(forwarded_for), opt_str_view(real_ip)),
{
    let client: String = match forwarded_for {
        Some(f) => {
            let parts = split_text(f, ',');
            proof {
                lemma_split_nonempty(f@, ',');
                assert(texts(parts@).len() == parts@.len());
            }
            assert(texts(parts@)[0] == parts@[0]@);
            owned(parts[0].as_str())
        },
        None => match real_ip {
            Some(r) => owned(r),
            None => owned("local"),
        },
    };
    let user = to_lower(trim_str(username).as_str());
    let c = trim_str(client.as_str());
    let mut v: Vec<char> = Vec::new();
    push_str(&mut v, user.as_str());
    v.push('|');
    push_str(&mut v, c.as_str());
    assert(v@ =~= failure_key_spec(username@, opt_str_view(forwarded_for), opt_str_view(real_ip)));
    string_of(v.as_slice())
}

/// The session id and secret of a session cookie value `ID.SECRET`: split
/// at the first `.`, each part non-empty and at most 160 bytes.
pub open spec fn session_parts_spec(value: Seq<char>) -> Option<(Seq<char>, Seq<char>)> {
    match split_once_spec(value, '.') {
        Some((id, secret)) => if id.len() == 0 || secret.len() == 0 || byte_len(id) > 160 || byte_len(secret)
            > 160 {
            None
        } else {
            Some((id, secret))
        },
        None => None,
    }
}

pub fn parse_session_cookie(value: &str) -> (r: Option<(String, String)>)
    ensures
        match session_parts_spec(value@) {
            Some((a, b)) => r matches Some((x, y)) && x@ == a && y@ == b,
            None => r is None,
        },
{
    match split_once(value, '.') {
        Some((id, secret)) => {
            let iv = chars_of(id.as_str());
            let sv = chars_of(secret.as_str());
            if iv.len() == 0 || sv.len() == 0 || crate::text::byte_len_above(iv.as_slice(), 160)
                || crate::text::byte_len_above(sv.as_slice(), 160) {
                None
            } else {
                Some((id, secret))
            }
        },
        None => None,
    }
}

/// A request's CSRF token is accepted when it is given and equals the
/// session's token byte for byte.
pub fn csrf_accepted(supplied: &str, expected: &str) -> (r: bool)
    ensures
        r == (supplied@.len() > 0 && supplied@ == expected@),
{
    if supplied.is_empty() {
        return false;
    }
    let a = supplied.as_bytes();
    let b = expected.as_bytes();
    let same = constant_time_eq(a, b);
    proof {
        broadcast use vstd::utf8::encode_utf8_decode_utf8;
        assert(vstd::utf8::decode_utf8(vstd::utf8::encode_utf8(supplied@)) == supplied@);
        assert(vstd::utf8::decode_utf8(vstd::utf8::encode_utf8(expected@)) == expected@);
    }
    same
}

// ---------------------------------------------------------------------------
// Password hash texts
// ---------------------------------------------------------------------------

/// A stored password hash, taken apart.
#[derive(Debug, Clone)]
pub struct PasswordHash {
    pub iterations: u64,
    pub salt: Vec<u8>,
    pub expected: Vec<u8>,
}

/// How a stored hash text reads: `pbkdf2-sha256$v1$ITER$SALT$HASH` with
/// 100000 to 2000000 iterations, a salt of at least 16 bytes and a hash of
/// 32 bytes, in hex.  `Ok(None)` for a text of another shape; an error
/// for an iteration count or hex that does not parse.
pub open spec fn hash_text_spec(encoded: Seq<char>) -> Result<Option<(u64, Seq<u8>, Seq<u8>)>, AuthError> {
    let parts = split_on(encoded, '$');
    if parts.len() != 5 || parts[0] != "pbkdf2-sha256"@ || parts[1] != "v1"@ {
        Ok(None)
    } else {
        match parse_u64_spec(parts[2]) {
            None => Err(AuthError::BadIterations),
            Some(iter) => if iter < 100_000 || iter > 2_000_000 {
                Ok(None)
            } else {
                match hex_decode_spec(parts[3]) {
                    Err(e) => Err(e),
                    Ok(salt) => match hex_decode_spec(parts[4]) {
                        Err(e) => Err(e),
                        Ok(expected) => if salt.len() < 16 || expected.len() != 32 {
                            Ok(None)
                        } else {
                            Ok(Some((iter, salt, expected)))
                        },
                    },
                }
            },
        }
    }
}

pub fn parse_password_hash(encoded: &str) -> (r: Result<Option<PasswordHash>, AuthError>)
    ensures
        match hash_text_spec(encoded@) {
            Err(e) => r == Err::<Option<PasswordHash>, AuthError>(e),
            Ok(None) => r matches Ok(None),
            Ok(Some((i, s, x))) => r matches Ok(Some(h)) && h.iterations == i && h.salt@ == s && h.expected@ == x,
        },
{
    let parts = split_text(encoded, '$');
    let ghost ps = texts(parts@);
    assert(ps.len() == parts@.len());
    if parts.len() != 5 {
        return Ok(None);
    }
    assert(ps[0] == parts@[0]@ && ps[1] == parts@[1]@ && ps[2] == parts@[2]@ && ps[3] == parts@[3]@ && ps[4]
        == parts@[4]@);
    if !str_eq(parts[0].as_str(), "pbkdf2-sha256") || !str_eq(parts[1].as_str(), "v1") {
        return Ok(None);
    }
    let iterations = match parse_u64(parts[2].as_str()) {
        None => {
            return Err(AuthError::BadIterations);
        },
        Some(n) => n,
    };
    if iterations < 100_000 || iterations > 2_000_000 {
        return Ok(None);
    }
    let salt = hex_decode(parts[3].as_str())?;
    let expected = hex_decode(parts[4].as_str())?;
    if salt.len() < 16 || expected.len() != 32 {
        return Ok(None);
    }
    Ok(Some(PasswordHash { iterations, salt, expected }))
}

/// The stored text of a password hash.
pub fn encode_password_hash(iterations: u64, salt: &[u8], derived: &[u8]) -> (r: String)
    ensures
        r@ == encoded_hash_spec(iterations, salt@, derived@),
{
    let mut v: Vec<char> = Vec::new();
    push_str(&mut v, "pbkdf2-sha256$v1$");
    push_str(&mut v, format_u64(iterations).as_str());
    v.push('$');
    push_str(&mut v, hex_encode(salt).as_str());
    v.push('$');
    push_str(&mut v, hex_encode(derived).as_str());
    assert(v@ =~= "pbkdf2-sha256$v1$"@ + decimal(iterations as nat) + seq!['$'] + hex_spec(salt@) + seq!['$']
        + hex_spec(derived@));
    string_of(v.as_slice())
}

/// The text of a stored hash as `encode_password_hash` writes it.
pub open spec fn encoded_hash_spec(iterations: u64, salt: Seq<u8>, derived: Seq<u8>) -> Seq<char> {
    "pbkdf2-sha256$v1$"@ + decimal(iterations as nat) + seq!['$'] + hex_spec(salt) + seq!['$'] + hex_spec(derived)
}

proof fn lemma_no_dollar_in_hex(bytes: Seq<u8>)
    ensures
        !hex_spec(bytes).contains('$'),
{
    lemma_hex_round_trip(bytes);
    let h = hex_spec(bytes);
    if h.contains('$') {
        let i = choose|i: int| 0 <= i < h.len() && h[i] == '$';
        assert(hex_value_spec(h[i]).is_some());
    }
}

/// A hash written with an accepted iteration count, salt and hash length
/// reads back as the same three values: the stored text of a password is
/// one that verification accepts to check against.
pub proof fn law_password_hash_text_round_trip(iterations: u64, salt: Seq<u8>, derived: Seq<u8>)
    requires
        100_000 <= iterations <= 2_000_000,
        salt.len() >= 16,
        derived.len() == 32,
    ensures
        hash_text_spec(encoded_hash_spec(iterations, salt, derived)) == Ok::<
            Option<(u64, Seq<u8>, Seq<u8>)>,
            AuthError,
        >(Some((iterations, salt, derived))),
{
    reveal_strlit("pbkdf2-sha256$v1$");
    let a = "pbkdf2-sha256"@;
    let b = "v1"@;
    reveal_strlit("pbkdf2-sha256");
    reveal_strlit("v1");
    let d = decimal(iterations as nat);
    let hs = hex_spec(salt);
    let hd = hex_spec(derived);
    assert("pbkdf2-sha256$v1$"@ =~= a + seq!['$'] + b + seq!['$']);
    assert(!a.contains('$')) by {
        if a.contains('$') {
            let i = choose|i: int| 0 <= i < a.len() && a[i] == '$';
        }
    }
    assert(!b.contains('$')) by {
        if b.contains('$') {
            let i = choose|i: int| 0 <= i < b.len() && b[i] == '$';
        }
    }
    crate::text::lemma_decimal_digits(iterations as nat);
    assert(!d.contains('$')) by {
        if d.contains('$') {
            let i = choose|i: int| 0 <= i < d.len() && d[i] == '$';
            assert(crate::text::is_digit(d[i]));
        }
    }
    lemma_no_dollar_in_hex(salt);
    lemma_no_dollar_in_hex(derived);
    let text = encoded_hash_spec(iterations, salt, derived);
    let tail3 = hs + seq!['$'] + hd;
    let tail2 = d + seq!['$'] + tail3;
    let tail1 = b + seq!['$'] + tail2;
    assert(text =~= a + seq!['$'] + tail1);
    crate::text::lemma_split_after(a, tail1, '$');
    crate::text::lemma_split_after(b, tail2, '$');
    crate::text::lemma_split_after(d, tail3, '$');
    crate::text::lemma_split_after(hs, hd, '$');
    crate::text::lemma_split_whole(hd, '$');
    let parts = split_on(text, '$');
    assert(parts =~= seq![a, b, d, hs, hd]);
    crate::text::law_u64_decimal_round_trip(iterations);
    law_hex_round_trip(salt);
    law_hex_round_trip(derived);
    lemma_hex_len(salt);
    lemma_hex_len(derived);
}

// ---------------------------------------------------------------------------
// Login failures
// ---------------------------------------------------------------------------

/// Failures are counted within this window (milliseconds).
pub open spec fn login_window() -> u64 {
    600_000
}

/// A blocked key stays blocked this long (milliseconds).
pub open spec fn login_block() -> u64 {
    900_000
}

/// This many failures within the window block the key.
pub open spec fn login_max_failures() -> u32 {
    5
}

/// The failures counted under one key.  Times are milliseconds of the
/// runtime's monotonic clock.
#[derive(Debug, Clone, Copy, PartialEq, Eq, Structural)]
pub struct FailureState {
    pub window_started: u64,
    pub failures: u32,
    pub blocked_until: Option<u64>,
}

/// `now - since`, or zero when `since` is later.
pub open spec fn elapsed(now: u64, since: u64) -> int {
    if now >= since {
        now - since
    } else {
        0
    }
}

/// Looking at a key's failures at `now`: whether it is blocked, and the
/// state afterwards (an expired block, or a window older than the window
/// length, starts a new window with no failures).
pub open spec fn check_step(s: FailureState, now: u64) -> (bool, FailureState) {
    match s.blocked_until {
        Some(until) if now < until => (true, s),
        _ => {
            let s1 = if s.blocked_until is Some {
                FailureState { window_started: now, failures: 0, blocked_until: None }
            } else {
                s
            };
            if elapsed(now, s1.window_started) > login_window() {
                (false, FailureState { window_started: now, failures: 0, ..s1 })
            } else {
                (false, s1)
            }
        },
    }
}

/// Counting a failure at `now`: a window older than the window length
/// starts anew; the failure is added (saturating); at the limit the key
/// is blocked for the block length.
pub open spec fn failure_step(prev: Option<FailureState>, now: u64) -> FailureState {
    let s0 = match prev {
        Some(s) => s,
        None => FailureState { window_started: now, failures: 0, blocked_until: None },
    };
    let s1 = if elapsed(now, s0.window_started) > login_window() {
        FailureState { window_started: now, failures: 0, blocked_until: None }
    } else {
        s0
    };
    let f = if s1.failures == u32::MAX {
        u32::MAX
    } else {
        (s1.failures + 1) as u32
    };
    FailureState {
        failures: f,
        blocked_until: if f >= login_max_failures() {
            Some(
                if now + login_block() > u64::MAX {
                    u64::MAX
                } else {
                    (now + login_block()) as u64
                },
            )
        } else {
            s1.blocked_until
        },
        ..s1
    }
}

/// Login failures by key (user name and client).
pub struct LoginLimiter {
    failures: Keyed<FailureState>,
}

impl View for LoginLimiter {
    type V = Map<Seq<char>, FailureState>;

    closed spec fn view(&self) -> Map<Seq<char>, FailureState> {
        self.failures@
    }
}

impl LoginLimiter {
    pub fn new() -> (r: Self)
        ensures
            r@ == Map::<Seq<char>, FailureState>::empty(),
    {
        LoginLimiter { failures: Keyed::new() }
    }

    /// Whether logins under the key are blocked at `now`.
    pub fn login_blocked(&mut self, key: &str, now: u64) -> (r: bool)
        ensures
            old(self)@.dom().contains(key@) ==> {
                let (b, s) = check_step(old(self)@[key@], now);
                r == b && final(self)@ == old(self)@.insert(key@, s)
            },
            !old(self)@.dom().contains(key@) ==> !r && final(self)@ == old(self)@,
    {
        let s: FailureState = match self.failures.get(key) {
            None => {
                return false;
            },
            Some(s) => *s,
        };
        match s.blocked_until {
            Some(until) => {
                if now < until {
                    proof {
                        assert(old(self)@.insert(key@, s) =~= old(self)@);
                    }
                    return true;
                }
            },
            None => {},
        }
        let s1 = if s.blocked_until.is_some() {
            FailureState { window_started: now, failures: 0, blocked_until: None }
        } else {
            s
        };
        let since = if now >= s1.window_started {
            now - s1.window_started
        } else {
            0
        };
        let s2 = if since > 600_000 {
            FailureState { window_started: now, failures: 0, ..s1 }
        } else {
            s1
        };
        self.failures.set(key, s2);
        false
    }

    /// Counts a failed login under the key at `now`.
    pub fn record_login_failure(&mut self, key: &str, now: u64)
        ensures
            final(self)@ == old(self)@.insert(
                key@,
                failure_step(
                    if old(self)@.dom().contains(key@) {
                        Some(old(self)@[key@])
                    } else {
                        None
                    },
                    now,
                ),
            ),
    {
        let s0: FailureState = match self.failures.get(key) {
            Some(s) => *s,
            None => FailureState { window_started: now, failures: 0, blocked_until: None },
        };
        let since = if now >= s0.window_started {
            now - s0.window_started
        } else {
            0
        };
        let s1 = if since > 600_000 {
            FailureState { window_started: now, failures: 0, blocked_until: None }
        } else {
            s0
        };
        let f = s1.failures.saturating_add(1);
        let s2 = FailureState {
            failures: f,
            blocked_until: if f >= 5 {
                Some(now.saturating_add(900_000))
            } else {
                s1.blocked_until
            },
            ..s1
        };
        self.failures.set(key, s2);
    }

    /// Forgets the failures under the key (after a successful login).
    pub fn clear_login_failures(&mut self, key: &str)
        ensures
            final(self)@ == old(self)@.remove(key@),
    {
        self.failures.remove(key);
    }
}

/// Five failures, each within the window of the first, block the key from
/// the fifth one on for the block length.
pub proof fn law_five_failures_block(t: Seq<u64>, later: u64)
    requires
        t.len() == 5,
        forall|i: int, j: int| 0 <= i <= j < 5 ==> t[i] <= t[j],
        t[4] - t[0] <= login_window(),
        t[4] <= later < t[4] + login_block(),
        t[4] + login_block() <= u64::MAX,
    ensures
        ({
            let s1 = failure_step(None, t[0]);
            let s2 = failure_step(Some(s1), t[1]);
            let s3 = failure_step(Some(s2), t[2]);
            let s4 = failure_step(Some(s3), t[3]);
            let s5 = failure_step(Some(s4), t[4]);
            check_step(s5, later).0
        }),
{
    assert(t[0] <= t[1] && t[1] <= t[2] && t[2] <= t[3] && t[3] <= t[4]);
    let s1 = failure_step(None, t[0]);
    assert(s1.failures == 1 && s1.window_started == t[0] && s1.blocked_until.is_none());
    let s2 = failure_step(Some(s1), t[1]);
    assert(s2.failures == 2 && s2.window_started == t[0] && s2.blocked_until.is_none());
    let s3 = failure_step(Some(s2), t[2]);
    assert(s3.failures == 3 && s3.window_started == t[0] && s3.blocked_until.is_none());
    let s4 = failure_step(Some(s3), t[3]);
    assert(s4.failures == 4 && s4.window_started == t[0] && s4.blocked_until.is_none());
    let s5 = failure_step(Some(s4), t[4]);
    assert(s5.failures == 5);
    assert(s5.blocked_until matches Some(u) && later < u);
}

/// A key with no failures counted is never blocked.
pub proof fn law_cleared_key_not_blocked(m: Map<Seq<char>, FailureState>, key: Seq<char>)
    ensures
        !m.remove(key).dom().contains(key),
{
}

/// A block ends: once its time has passed the key is no longer blocked
/// and starts over with no failures.
pub proof fn law_block_expires(s: FailureState, now: u64)
    requires
        s.blocked_until matches Some(until) && now >= until,
    ensures
        !check_step(s, now).0,
        check_step(s, now).1.failures == 0,
        check_step(s, now).1.blocked_until.is_none(),
{
}

} // verus!
