//! Stored secrets: which stored values are protected, what a stored value
//! stands for (a plain value, a DPAPI cipher, or a reference into the native
//! credential store), and which new secrets may be protected.
use crate::text::{
    chars_of, line_break_or_nul, lower_chars, lower_seq, push_str, slice_vec, starts_with,
    starts_with_chars, string_of, trim, trim_chars, has_line_break_or_nul,
};
use vstd::prelude::*;
use vstd::utf8::{decode_utf8, valid_utf8};

verus! {

/// The prefix of a value protected with Windows DPAPI.
pub const DPAPI_PREFIX: &'static str = "dpapi:v1:";

/// The prefix of a reference into the native credential store.
pub const NATIVE_SECRET_PREFIX: &'static str = "native-secret:v1:";

pub open spec fn dpapi_prefix() -> Seq<char> {
    "dpapi:v1:"@
}

pub open spec fn native_prefix() -> Seq<char> {
    "native-secret:v1:"@
}

// ---------------------------------------------------------------------------
// Outside calls
// ---------------------------------------------------------------------------

/// What the standard base64 engine (with padding) decodes a text to, `None`
/// when it is not valid base64.
pub uninterp spec fn base64_standard_decode(text: Seq<char>) -> Option<Seq<u8>>;

/// The character of a 6-bit value in the standard base64 alphabet.
pub open spec fn base64_digit(n: nat) -> char {
    if n < 26 {
        ((('A' as nat) + n) as u32) as char
    } else if n < 52 {
        ((('a' as nat) + n - 26) as u32) as char
    } else if n < 62 {
        ((('0' as nat) + n - 52) as u32) as char
    } else if n == 62 {
        '+'
    } else {
        '/'
    }
}

/// What the standard base64 engine (RFC 4648 alphabet, with padding)
/// encodes bytes to: each three bytes become four characters, and a last
/// one or two bytes become two or three characters padded with `=`.
pub open spec fn base64_standard_encode(b: Seq<u8>) -> Seq<char>
    decreases b.len(),
{
    if b.len() == 0 {
        Seq::empty()
    } else if b.len() == 1 {
        seq![base64_digit((b[0] / 4) as nat), base64_digit(((b[0] % 4) * 16) as nat), '=', '=']
    } else if b.len() == 2 {
        seq![
            base64_digit((b[0] / 4) as nat),
            base64_digit(((b[0] % 4) * 16 + b[1] / 16) as nat),
            base64_digit(((b[1] % 16) * 4) as nat),
            '=',
        ]
    } else {
        seq![
            base64_digit((b[0] / 4) as nat),
            base64_digit(((b[0] % 4) * 16 + b[1] / 16) as nat),
            base64_digit(((b[1] % 16) * 4 + b[2] / 64) as nat),
            base64_digit((b[2] % 64) as nat),
        ] + base64_standard_encode(b.skip(3))
    }
}

/// 36 characters: hex digits in groups of 8-4-4-4-12 joined by `-`.
pub open spec fn uuid_hyphenated(t: Seq<char>) -> bool {
    t.len() == 36 && forall|i: int|
        0 <= i < 36 ==> if i == 8 || i == 13 || i == 18 || i == 23 {
            t[i] == '-'
        } else {
            crate::text::is_hex_digit(#[trigger] t[i])
        }
}

/// The texts `uuid::Uuid::parse_str` accepts: 32 hex digits; the
/// hyphenated form; the hyphenated form in braces; or `urn:uuid:` (in any
/// ASCII case) before the hyphenated form.
pub open spec fn uuid_text(t: Seq<char>) -> bool {
    ||| (t.len() == 32 && forall|i: int| 0 <= i < 32 ==> crate::text::is_hex_digit(#[trigger] t[i]))
    ||| uuid_hyphenated(t)
    ||| (t.len() == 38 && t[0] == '{' && t[37] == '}' && uuid_hyphenated(t.subrange(1, 37)))
    ||| (t.len() == 45 && lower_seq(t.take(9)) == "urn:uuid:"@ && uuid_hyphenated(t.skip(9)))
}

/// Calls `base64::Engine::decode` on the `STANDARD` engine; the contract
/// names the outcome for the text.
#[verifier::external_body]
pub(crate) fn base64_decode(text: &str) -> (r: Option<Vec<u8>>)
    ensures
        match r {
            Some(b) => base64_standard_decode(text@) == Some(b@),
            None => base64_standard_decode(text@) is None,
        },
{
    match base64::Engine::decode(&base64::engine::general_purpose::STANDARD, text) {
        Ok(b) => Some(b),
        Err(_) => None,
    }
}

/// A character of the standard base64 alphabet or its padding.
pub open spec fn base64_char(c: char) -> bool {
    ('A' <= c && c <= 'Z') || ('a' <= c && c <= 'z') || ('0' <= c && c <= '9') || c == '+' || c == '/' || c == '='
}

/// Calls `base64::Engine::encode` on the `STANDARD` engine; the contract
/// states the encoding (see `base64_standard_encode`), that it uses only
/// the alphabet `A-Z a-z 0-9 + /` and `=`, and that the same engine
/// decodes it back to the bytes.
#[verifier::external_body]
fn base64_encode(bytes: &[u8]) -> (r: String)
    ensures
        r@ == base64_standard_encode(bytes@),
        forall|i: int| 0 <= i < r@.len() ==> base64_char(#[trigger] r@[i]),
        base64_standard_decode(r@) == Some(bytes@),
{
    base64::Engine::encode(&base64::engine::general_purpose::STANDARD, bytes)
}

/// Calls `uuid::Uuid::parse_str`; the contract states the forms it
/// accepts (see `uuid_text`).
#[verifier::external_body]
fn uuid_parses(text: &str) -> (r: bool)
    ensures
        r == uuid_text(text@),
{
    uuid::Uuid::parse_str(text).is_ok()
}

/// Calls `String::from_utf8`: `Some` exactly when the bytes are UTF-8, with
/// the characters they encode.
#[verifier::external_body]
pub(crate) fn text_from_utf8(bytes: Vec<u8>) -> (r: Option<String>)
    ensures
        r is Some <==> valid_utf8(bytes@),
        r matches Some(s) ==> s@ == decode_utf8(bytes@),
{
    match String::from_utf8(bytes) {
        Ok(s) => Some(s),
        Err(_) => None,
    }
}

// ---------------------------------------------------------------------------
// Reading stored values
// ---------------------------------------------------------------------------

/// Whether a stored value is protected: trimmed and lower-cased (ASCII), it
/// starts with one of the two prefixes.
pub open spec fn protected_spec(value: Seq<char>) -> bool {
    let n = lower_seq(trim(value));
    starts_with(n, dpapi_prefix()) || starts_with(n, native_prefix())
}

pub fn is_protected(value: &str) -> (r: bool)
    ensures
        r == protected_spec(value@),
{
    let v = chars_of(value);
    let t = trim_chars(v.as_slice());
    let n = lower_chars(t.as_slice());
    let d = chars_of("dpapi:v1:");
    let s = chars_of("native-secret:v1:");
    starts_with_chars(n.as_slice(), d.as_slice()) || starts_with_chars(n.as_slice(), s.as_slice())
}

/// Why a stored or new secret was refused.
#[derive(Debug, Clone, Copy, PartialEq, Eq, Structural)]
pub enum SecretError {
    /// A new secret holds a line break or NUL.
    NotSingleLine,
    /// A DPAPI value whose payload is not base64.
    DpapiPayloadNotBase64,
    /// A native reference that is not a UUID.
    NativeReferenceInvalid,
    /// DPAPI could not encrypt a new secret.
    EncryptFailed,
    /// The native credential store could not keep a new secret.
    StoreFailed,
    /// This operating system has no protected secret storage.
    Unsupported,
}

impl SecretError {
    /// The message for the secret named `name`.
    pub fn message(self, name: &str) -> (r: String)
        ensures
            r@ == match self {
                SecretError::NotSingleLine => "secret must be a single line"@,
                SecretError::DpapiPayloadNotBase64 => name@ + " DPAPI payload is not valid base64"@,
                SecretError::NativeReferenceInvalid => name@ + " native secret reference is invalid"@,
                SecretError::EncryptFailed => "DPAPI encrypt failed"@,
                SecretError::StoreFailed => "native secret store failed"@,
                SecretError::Unsupported => "native protected secret storage is unsupported on this operating system"@,
            },
    {
        match self {
            SecretError::NotSingleLine => crate::text::owned("secret must be a single line"),
            SecretError::DpapiPayloadNotBase64 => crate::text::concat2(name, " DPAPI payload is not valid base64"),
            SecretError::NativeReferenceInvalid => crate::text::concat2(name, " native secret reference is invalid"),
            SecretError::EncryptFailed => crate::text::owned("DPAPI encrypt failed"),
            SecretError::StoreFailed => crate::text::owned("native secret store failed"),
            SecretError::Unsupported => crate::text::owned(
                "native protected secret storage is unsupported on this operating system",
            ),
        }
    }
}

/// What a stored secret stands for.
#[derive(Debug, Clone)]
pub enum SecretSource {
    /// The secret itself (an empty value, or a plain value from before
    /// secrets were protected).
    Value(String),
    /// A DPAPI cipher, which only the Windows user who made it can decrypt.
    Dpapi(Vec<u8>),
    /// A UUID reference into the native credential store.
    Native(String),
}

pub enum SourceView {
    Value(Seq<char>),
    Dpapi(Seq<u8>),
    Native(Seq<char>),
}

impl SecretSource {
    pub open spec fn view(self) -> SourceView {
        match self {
            SecretSource::Value(s) => SourceView::Value(s@),
            SecretSource::Dpapi(b) => SourceView::Dpapi(b@),
            SecretSource::Native(s) => SourceView::Native(s@),
        }
    }
}

/// What a stored value stands for: the trimmed value when it is empty or
/// unprefixed; the base64-decoded payload after a DPAPI prefix; the trimmed
/// UUID after a native prefix (prefixes matched ignoring ASCII case).
pub open spec fn stored_secret(value: Seq<char>) -> Result<SourceView, SecretError> {
    let v = trim(value);
    let n = lower_seq(v);
    if v.len() == 0 {
        Ok(SourceView::Value(v))
    } else if starts_with(n, dpapi_prefix()) {
        match base64_standard_decode(v.skip(9)) {
            Some(cipher) => Ok(SourceView::Dpapi(cipher)),
            None => Err(SecretError::DpapiPayloadNotBase64),
        }
    } else if starts_with(n, native_prefix()) {
        let reference = trim(v.skip(17));
        if uuid_text(reference) {
            Ok(SourceView::Native(reference))
        } else {
            Err(SecretError::NativeReferenceInvalid)
        }
    } else {
        Ok(SourceView::Value(v))
    }
}

/// The UUID of a native reference, trimmed.
pub fn parse_native_reference(value: &str) -> (r: Result<String, SecretError>)
    ensures
        match r {
            Ok(s) => uuid_text(trim(value@)) && s@ == trim(value@),
            Err(e) => !uuid_text(trim(value@)) && e == SecretError::NativeReferenceInvalid,
        },
{
    let v = chars_of(value);
    let t = string_of(trim_chars(v.as_slice()).as_slice());
    if uuid_parses(t.as_str()) {
        Ok(t)
    } else {
        Err(SecretError::NativeReferenceInvalid)
    }
}

/// Reads a stored secret (see `stored_secret`); decrypting a DPAPI cipher
/// and looking a native reference up are left to the caller.
pub fn unprotect_secret(value: &str) -> (r: Result<SecretSource, SecretError>)
    ensures
        match stored_secret(value@) {
            Ok(v) => r matches Ok(s) && s.view() == v,
            Err(e) => r == Err::<SecretSource, SecretError>(e),
        },
{
    let raw = chars_of(value);
    let v = trim_chars(raw.as_slice());
    let n = lower_chars(v.as_slice());
    let d = chars_of("dpapi:v1:");
    let s = chars_of("native-secret:v1:");
    proof {
        reveal_strlit("dpapi:v1:");
        reveal_strlit("native-secret:v1:");
    }
    if v.len() == 0 {
        return Ok(SecretSource::Value(string_of(v.as_slice())));
    }
    if starts_with_chars(n.as_slice(), d.as_slice()) {
        let payload = string_of(slice_vec(v.as_slice(), 9, v.len()).as_slice());
        assert(payload@ =~= v@.skip(9));
        return match base64_decode(payload.as_str()) {
            Some(cipher) => Ok(SecretSource::Dpapi(cipher)),
            None => Err(SecretError::DpapiPayloadNotBase64),
        };
    }
    if starts_with_chars(n.as_slice(), s.as_slice()) {
        let rest = string_of(slice_vec(v.as_slice(), 17, v.len()).as_slice());
        assert(rest@ =~= v@.skip(17));
        return match parse_native_reference(rest.as_str()) {
            Ok(reference) => Ok(SecretSource::Native(reference)),
            Err(e) => Err(e),
        };
    }
    Ok(SecretSource::Value(string_of(v.as_slice())))
}

// ---------------------------------------------------------------------------
// Protecting new values
// ---------------------------------------------------------------------------

/// Whether a new secret needs protecting: refused when it holds a line break
/// or NUL, `false` when it is empty (stored as is), `true` otherwise.
pub fn secret_needs_protection(value: &str) -> (r: Result<bool, SecretError>)
    ensures
        has_line_break_or_nul(value@) ==> r == Err::<bool, SecretError>(SecretError::NotSingleLine),
        !has_line_break_or_nul(value@) ==> r == Ok::<bool, SecretError>(value@.len() > 0),
{
    let v = chars_of(value);
    if line_break_or_nul(v.as_slice()) {
        return Err(SecretError::NotSingleLine);
    }
    Ok(v.len() > 0)
}

pub open spec fn dpapi_value_spec(cipher: Seq<u8>) -> Seq<char> {
    dpapi_prefix() + base64_standard_encode(cipher)
}

pub open spec fn native_value_spec(reference: Seq<char>) -> Seq<char> {
    native_prefix() + reference
}

/// The stored form of a DPAPI cipher; reading it back gives the same
/// cipher, and it counts as protected.
pub fn dpapi_stored_value(cipher: &[u8]) -> (r: String)
    ensures
        r@ == dpapi_value_spec(cipher@),
        stored_secret(r@) == Ok::<SourceView, SecretError>(SourceView::Dpapi(cipher@)),
        protected_spec(r@),
{
    let mut v: Vec<char> = Vec::new();
    push_str(&mut v, "dpapi:v1:");
    let e = base64_encode(cipher);
    push_str(&mut v, e.as_str());
    proof {
        reveal_strlit("dpapi:v1:");
        let p = dpapi_prefix();
        let s = v@;
        assert(p =~= seq!['d', 'p', 'a', 'p', 'i', ':', 'v', '1', ':']);
        assert(s =~= p + e@);
        assert(s[0] == 'd');
        assert(crate::text::trim_start(s) == s);
        crate::text::lemma_trim_end_after(p, e@);
        if e@.len() > 0 {
            assert(base64_char(e@.last()));
            assert(!crate::text::is_ws(e@.last()));
        }
        assert(crate::text::trim_end(e@) == e@);
        assert(trim(s) == s);
        let n = lower_seq(s);
        assert(n.take(9) =~= p);
        assert(s.skip(9) =~= e@);
        law_dpapi_values_are_protected(cipher@);
    }
    string_of(v.as_slice())
}

/// The stored form of a reference into the native credential store.
pub fn native_stored_value(reference: &str) -> (r: String)
    ensures
        r@ == native_value_spec(reference@),
{
    let mut v: Vec<char> = Vec::new();
    push_str(&mut v, "native-secret:v1:");
    push_str(&mut v, reference);
    string_of(v.as_slice())
}

/// What protecting a new secret came to: the DPAPI cipher, or the reference
/// under which the native credential store now keeps it, or a failure of
/// either, or no protected storage on this operating system.
#[derive(Debug, Clone)]
pub enum ProtectOutcome {
    Encrypted(Vec<u8>),
    EncryptFailed,
    Stored(String),
    StoreFailed,
    Unsupported,
}

/// The value to store for a new secret, given what protecting it came to.
/// A secret with a line break or NUL is refused and an empty one is stored
/// as it is, whatever the outcome; any other is stored only in a protected
/// form, and a failed or missing store is an error, never the plain value.
pub fn protect_secret(value: &str, outcome: ProtectOutcome) -> (r: Result<String, SecretError>)
    ensures
        has_line_break_or_nul(value@) ==> r == Err::<String, SecretError>(SecretError::NotSingleLine),
        !has_line_break_or_nul(value@) && value@.len() == 0 ==> (r matches Ok(s) && s@ == Seq::<char>::empty()),
        !has_line_break_or_nul(value@) && value@.len() > 0 ==> match outcome {
            ProtectOutcome::Encrypted(c) => (r matches Ok(s) && s@ == dpapi_value_spec(c@)),
            ProtectOutcome::Stored(reference) => (r matches Ok(s) && s@ == native_value_spec(reference@)),
            ProtectOutcome::EncryptFailed => r == Err::<String, SecretError>(SecretError::EncryptFailed),
            ProtectOutcome::StoreFailed => r == Err::<String, SecretError>(SecretError::StoreFailed),
            ProtectOutcome::Unsupported => r == Err::<String, SecretError>(SecretError::Unsupported),
        },
        value@.len() > 0 ==> (r matches Ok(s) ==> protected_spec(s@)),
{
    match secret_needs_protection(value) {
        Err(e) => Err(e),
        Ok(false) => {
            let empty = crate::text::owned("");
            proof {
                reveal_strlit("");
            }
            Ok(empty)
        },
        Ok(true) => match outcome {
            ProtectOutcome::Encrypted(c) => Ok(dpapi_stored_value(c.as_slice())),
            ProtectOutcome::Stored(reference) => {
                let stored = native_stored_value(reference.as_str());
                proof {
                    law_native_values_are_protected(reference@);
                }
                Ok(stored)
            },
            ProtectOutcome::EncryptFailed => Err(SecretError::EncryptFailed),
            ProtectOutcome::StoreFailed => Err(SecretError::StoreFailed),
            ProtectOutcome::Unsupported => Err(SecretError::Unsupported),
        },
    }
}

/// Every value stored for a native reference counts as protected.
pub proof fn law_native_values_are_protected(reference: Seq<char>)
    ensures
        protected_spec(native_value_spec(reference)),
{
    reveal_strlit("native-secret:v1:");
    let p = native_prefix();
    let s = native_value_spec(reference);
    assert(p =~= seq!['n', 'a', 't', 'i', 'v', 'e', '-', 's', 'e', 'c', 'r', 'e', 't', ':', 'v', '1', ':']);
    assert(s[0] == 'n');
    assert(crate::text::trim_start(s) == s);
    crate::text::lemma_trim_end_after(p, reference);
    let t = trim(s);
    assert(t == p + crate::text::trim_end(reference));
    let n = lower_seq(t);
    assert(n.take(17) =~= p);
}

/// A reference stored as a native value reads back as the same native
/// reference, and the stored value counts as protected (for a UUID text
/// without white space, as the references this library stores are).
pub proof fn law_native_reference_round_trip(reference: Seq<char>)
    requires
        uuid_text(reference),
        forall|i: int| 0 <= i < reference.len() ==> !crate::text::is_ws(#[trigger] reference[i]),
    ensures
        stored_secret(native_value_spec(reference)) == Ok::<SourceView, SecretError>(SourceView::Native(reference)),
        protected_spec(native_value_spec(reference)),
{
    reveal_strlit("native-secret:v1:");
    reveal_strlit("dpapi:v1:");
    let p = native_prefix();
    let s = native_value_spec(reference);
    assert(p =~= seq!['n', 'a', 't', 'i', 'v', 'e', '-', 's', 'e', 'c', 'r', 'e', 't', ':', 'v', '1', ':']);
    assert(dpapi_prefix() =~= seq!['d', 'p', 'a', 'p', 'i', ':', 'v', '1', ':']);
    assert(s[0] == 'n');
    assert(crate::text::trim_start(s) == s);
    assert(s.last() == (if reference.len() > 0 { reference.last() } else { ':' }));
    assert(crate::text::trim_end(s) == s);
    assert(trim(s) == s);
    let n = lower_seq(s);
    assert(n.take(17) =~= p);
    assert(n[0] == 'n');
    assert(!starts_with(n, dpapi_prefix()));
    assert(s.skip(17) =~= reference);
    if reference.len() > 0 {
        assert(crate::text::trim_start(reference) == reference);
        assert(crate::text::trim_end(reference) == reference);
    }
    assert(trim(reference) == reference);
}

/// Every value stored for a DPAPI cipher counts as protected.
pub proof fn law_dpapi_values_are_protected(cipher: Seq<u8>)
    ensures
        protected_spec(dpapi_value_spec(cipher)),
{
    reveal_strlit("dpapi:v1:");
    let p = dpapi_prefix();
    let e = base64_standard_encode(cipher);
    let s = dpapi_value_spec(cipher);
    assert(p =~= seq!['d', 'p', 'a', 'p', 'i', ':', 'v', '1', ':']);
    assert(s[0] == 'd');
    assert(crate::text::trim_start(s) == s);
    crate::text::lemma_trim_end_after(p, e);
    let t = trim(s);
    assert(t == p + crate::text::trim_end(e));
    let n = lower_seq(t);
    assert(n.take(9) =~= p);
}

} // verus!
