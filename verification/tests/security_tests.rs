use stream_archive::picker::{direct_local_request_allowed, picker_request, picker_selection, PickerError, PickerFilter, PickerKind};
use stream_archive::security::{
    dpapi_stored_value, is_protected, native_stored_value, parse_native_reference, protect_secret, secret_needs_protection,
    ProtectOutcome,
    unprotect_secret, SecretError, SecretSource,
};
use stream_archive::soop_auth::{missing_credential, worker_verdict, WorkerVerdict};

#[test]
fn protected_prefixes_are_detected_case_insensitively() {
    assert!(is_protected("dpapi:v1:abc"));
    assert!(is_protected("DPAPI:V1:abc"));
    assert!(is_protected("native-secret:v1:123e4567-e89b-12d3-a456-426614174000"));
    assert!(is_protected("NATIVE-SECRET:V1:123e4567-e89b-12d3-a456-426614174000"));
    assert!(!is_protected("plain"));
}

#[test]
fn plaintext_legacy_value_is_passed_through() {
    match unprotect_secret("abc").unwrap() {
        SecretSource::Value(v) => assert_eq!(v, "abc"),
        other => panic!("unexpected {other:?}"),
    }
}

#[test]
fn native_reference_requires_uuid() {
    assert!(parse_native_reference("not-a-uuid").is_err());
    assert_eq!(
        parse_native_reference("123e4567-e89b-12d3-a456-426614174000").unwrap(),
        "123e4567-e89b-12d3-a456-426614174000"
    );
}

#[test]
fn stored_values_read_back_by_form() {
    assert!(matches!(unprotect_secret("   ").unwrap(), SecretSource::Value(v) if v.is_empty()));
    assert!(matches!(unprotect_secret("DPAPI:v1:AQID").unwrap(), SecretSource::Dpapi(c) if c == vec![1, 2, 3]));
    assert_eq!(unprotect_secret("dpapi:v1:***").unwrap_err(), SecretError::DpapiPayloadNotBase64);
    assert!(matches!(
        unprotect_secret(" native-secret:v1: 123e4567-e89b-12d3-a456-426614174000 ").unwrap(),
        SecretSource::Native(r) if r == "123e4567-e89b-12d3-a456-426614174000"
    ));
    assert_eq!(unprotect_secret("native-secret:v1:nope").unwrap_err(), SecretError::NativeReferenceInvalid);
    assert_eq!(SecretError::NativeReferenceInvalid.message("X"), "X native secret reference is invalid");
}

#[test]
fn new_secrets_and_their_stored_forms() {
    assert_eq!(secret_needs_protection("a\nb"), Err(SecretError::NotSingleLine));
    assert_eq!(secret_needs_protection(""), Ok(false));
    assert_eq!(secret_needs_protection("s"), Ok(true));
    assert_eq!(dpapi_stored_value(&[1, 2, 3]), "dpapi:v1:AQID");
    let stored = native_stored_value("123e4567-e89b-12d3-a456-426614174000");
    assert!(is_protected(&stored));
    assert!(matches!(unprotect_secret(&stored).unwrap(), SecretSource::Native(r) if r == "123e4567-e89b-12d3-a456-426614174000"));
}

fn names(list: &[&str]) -> Vec<String> {
    list.iter().map(|s| s.to_string()).collect()
}

#[test]
fn allows_direct_ipv4_loopback() {
    assert!(direct_local_request_allowed("127.0.0.1:8787", "127.0.0.1:8787", &names(&["host"])));
}

#[test]
fn allows_direct_localhost() {
    assert!(direct_local_request_allowed("localhost:8787", "localhost:8787", &names(&["host"])));
}

#[test]
fn rejects_non_loopback_bind() {
    assert!(!direct_local_request_allowed("0.0.0.0:8787", "127.0.0.1:8787", &names(&["host"])));
}

#[test]
fn rejects_remote_host() {
    assert!(!direct_local_request_allowed("127.0.0.1:8787", "recorder.example.com", &names(&["host"])));
}

#[test]
fn rejects_reverse_proxy_headers() {
    assert!(!direct_local_request_allowed("127.0.0.1:8787", "127.0.0.1:8787", &names(&["host", "x-forwarded-for"])));
}

#[test]
fn picker_requests_are_checked() {
    let r = picker_request(Some(" folder "), None, Some(" auto ")).unwrap();
    assert_eq!(r.kind, PickerKind::Folder);
    assert_eq!(r.filter, PickerFilter::All);
    assert_eq!(r.initial_path, "");
    let f = picker_request(Some("file"), Some("cookie"), Some("/x")).unwrap();
    assert_eq!(f.filter, PickerFilter::Cookie);
    assert_eq!(f.initial_path, "/x");
    assert_eq!(picker_request(None, None, None).unwrap_err(), PickerError::BadKind);
    assert_eq!(picker_request(Some("file"), Some("txt"), None).unwrap_err(), PickerError::BadFilter);
    assert_eq!(picker_request(Some("file"), None, Some("a\0b")).unwrap_err(), PickerError::BadInitialPath);
    let long = "가".repeat(1366);
    assert_eq!(picker_request(Some("file"), None, Some(&long)).unwrap_err(), PickerError::BadInitialPath);
    let fits = "가".repeat(1365);
    assert!(picker_request(Some("file"), None, Some(&fits)).is_ok());
}

#[test]
fn picker_output_is_base64_utf8() {
    assert_eq!(picker_selection("  ").unwrap(), None);
    assert_eq!(picker_selection("L3RtcC9h\n").unwrap().as_deref(), Some("/tmp/a"));
    assert_eq!(picker_selection("IA==").unwrap(), None);
    assert_eq!(picker_selection("!!").unwrap_err(), PickerError::OutputNotBase64);
    assert_eq!(picker_selection("/w==").unwrap_err(), PickerError::PathNotUtf8);
}

#[test]
fn soop_credential_checks() {
    assert_eq!(missing_credential("u", " ", "w", "k").as_deref(), Some("SOOP password is not configured"));
    assert_eq!(missing_credential("", "", "", "").as_deref(), Some("SOOP username is not configured"));
    assert_eq!(missing_credential("u", "p", "w", "k"), None);
    assert_eq!(worker_verdict(401), WorkerVerdict::KeyRefused);
    assert_eq!(worker_verdict(403), WorkerVerdict::KeyRefused);
    assert_eq!(worker_verdict(400), WorkerVerdict::Accepted);
    assert_eq!(worker_verdict(204), WorkerVerdict::Accepted);
    assert_eq!(worker_verdict(500), WorkerVerdict::Failed);
}

#[test]
fn dpapi_stored_value_reads_back_as_its_cipher() {
    let cipher = vec![0u8, 1, 2, 250, 255, 7, 9];
    let stored = dpapi_stored_value(&cipher);
    assert!(stored.starts_with("dpapi:v1:"));
    assert!(is_protected(&stored));
    match unprotect_secret(&stored).unwrap() {
        SecretSource::Dpapi(bytes) => assert_eq!(bytes, cipher),
        _ => panic!("expected a DPAPI cipher"),
    }
}

#[test]
fn new_secrets_are_stored_protected_or_refused_never_plain() {
    let reference = "123e4567-e89b-12d3-a456-426614174000";
    let stored = protect_secret("hunter2", ProtectOutcome::Stored(reference.to_string())).unwrap();
    assert_eq!(stored, format!("native-secret:v1:{reference}"));
    assert!(is_protected(&stored));
    assert!(matches!(unprotect_secret(&stored), Ok(SecretSource::Native(r)) if r == reference));
    let encrypted = protect_secret("hunter2", ProtectOutcome::Encrypted(vec![1, 2, 3])).unwrap();
    assert_eq!(encrypted, "dpapi:v1:AQID");
    assert!(matches!(unprotect_secret(&encrypted), Ok(SecretSource::Dpapi(c)) if c == vec![1, 2, 3]));
    assert_eq!(protect_secret("hunter2", ProtectOutcome::StoreFailed), Err(SecretError::StoreFailed));
    assert_eq!(protect_secret("hunter2", ProtectOutcome::EncryptFailed), Err(SecretError::EncryptFailed));
    assert_eq!(protect_secret("hunter2", ProtectOutcome::Unsupported), Err(SecretError::Unsupported));
    assert_eq!(protect_secret("", ProtectOutcome::StoreFailed), Ok(String::new()));
    assert_eq!(protect_secret("a\rb", ProtectOutcome::Stored(reference.to_string())), Err(SecretError::NotSingleLine));
    assert_eq!(SecretError::StoreFailed.message("X"), "native secret store failed");
    assert_eq!(SecretError::EncryptFailed.message("X"), "DPAPI encrypt failed");
}
