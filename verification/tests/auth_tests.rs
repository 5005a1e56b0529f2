use stream_archive::auth::{
    clear_session_cookie, constant_time_eq, cookie_value, encode_password_hash, hex_decode, hex_encode,
    login_failure_key, parse_password_hash, request_is_https, session_cookie, validate_password,
    validate_username, AuthError, LoginLimiter,
};

#[test]
fn username_validation_accepts_expected_characters() {
    assert!(validate_username("admin_01").is_ok());
    assert!(validate_username("ab").is_err());
    assert!(validate_username("admin name").is_err());
}

#[test]
fn constant_time_compare_matches_equal_values() {
    assert!(constant_time_eq(b"abc", b"abc"));
    assert!(!constant_time_eq(b"abc", b"abd"));
    assert!(!constant_time_eq(b"abc", b"abcd"));
}

#[test]
fn cookie_parser_extracts_named_cookie() {
    let headers = vec!["x=1; soop_session=abc.def; y=2".to_string()];
    assert_eq!(cookie_value(&headers, "soop_session").as_deref(), Some("abc.def"));
}

#[test]
fn username_errors_name_the_rule() {
    assert_eq!(validate_username("ab"), Err(AuthError::UsernameLength));
    assert_eq!(validate_username("admin name"), Err(AuthError::UsernameChars));
    assert_eq!(validate_username(&"a".repeat(33)), Err(AuthError::UsernameLength));
    assert!(validate_username("  a.b-c_d  ").is_ok());
}

#[test]
fn password_rules() {
    assert_eq!(validate_password("short"), Err(AuthError::PasswordLength));
    assert_eq!(validate_password("twelve chars\nlong"), Err(AuthError::PasswordNotSingleLine));
    assert!(validate_password("twelve chars").is_ok());
    assert_eq!(validate_password(&"x".repeat(129)), Err(AuthError::PasswordLength));
}

#[test]
fn hex_round_trip_and_errors() {
    let bytes = [0u8, 1, 0xab, 0xff];
    let text = hex_encode(&bytes);
    assert_eq!(text, "0001abff");
    assert_eq!(hex_decode(&text).unwrap(), bytes.to_vec());
    assert_eq!(hex_decode("ABFF").unwrap(), vec![0xab, 0xff]);
    assert_eq!(hex_decode("abc"), Err(AuthError::HexLength));
    assert_eq!(hex_decode("zz"), Err(AuthError::HexChar));
}

#[test]
fn session_cookie_texts() {
    assert_eq!(
        session_cookie("tok", 12, true),
        "soop_session=tok; Path=/; HttpOnly; SameSite=Strict; Max-Age=43200; Secure"
    );
    assert_eq!(
        session_cookie("tok", 1, false),
        "soop_session=tok; Path=/; HttpOnly; SameSite=Strict; Max-Age=3600"
    );
    assert_eq!(clear_session_cookie(false), "soop_session=; Path=/; HttpOnly; SameSite=Strict; Max-Age=0");
}

#[test]
fn https_detection_uses_forwarding_headers() {
    assert!(request_is_https(Some("https"), None));
    assert!(!request_is_https(Some("http"), None));
    assert!(request_is_https(None, Some("for=1.2.3.4;proto=https")));
    assert!(!request_is_https(None, None));
}

#[test]
fn failure_key_prefers_first_forwarded_client() {
    assert_eq!(login_failure_key(" Admin ", Some("10.0.0.1, 10.0.0.2"), Some("9.9.9.9")), "admin|10.0.0.1");
    assert_eq!(login_failure_key("Admin", None, Some("9.9.9.9")), "admin|9.9.9.9");
    assert_eq!(login_failure_key("Admin", None, None), "admin|local");
}

#[test]
fn password_hash_text_round_trip() {
    let salt = [7u8; 16];
    let derived = [9u8; 32];
    let encoded = encode_password_hash(150_000, &salt, &derived);
    assert!(encoded.starts_with("pbkdf2-sha256$v1$150000$"));
    let parsed = parse_password_hash(&encoded).unwrap().unwrap();
    assert_eq!(parsed.iterations, 150_000);
    assert_eq!(parsed.salt, salt.to_vec());
    assert_eq!(parsed.expected, derived.to_vec());
    assert!(parse_password_hash("bcrypt$x").unwrap().is_none());
    assert!(parse_password_hash(&encode_password_hash(10, &salt, &derived)).unwrap().is_none());
    assert_eq!(parse_password_hash("pbkdf2-sha256$v1$many$00$00").err(), Some(AuthError::BadIterations));
}

#[test]
fn five_failures_block_until_the_block_expires() {
    let mut limiter = LoginLimiter::new();
    for t in 0..4u64 {
        limiter.record_login_failure("k", t * 1000);
        assert!(!limiter.login_blocked("k", t * 1000));
    }
    limiter.record_login_failure("k", 5000);
    assert!(limiter.login_blocked("k", 5000));
    assert!(!limiter.login_blocked("other", 5000));
    assert!(!limiter.login_blocked("k", 5000 + 900_001));
}

#[test]
fn cleared_failures_unblock() {
    let mut limiter = LoginLimiter::new();
    for t in 0..5u64 {
        limiter.record_login_failure("k", t);
    }
    assert!(limiter.login_blocked("k", 10));
    limiter.clear_login_failures("k");
    assert!(!limiter.login_blocked("k", 10));
}

use stream_archive::auth::{csrf_accepted, parse_session_cookie};
use stream_archive::web::{authorize_step, bearer_token, diagnose_tool, env_flag, management_token, AuthorizeStep, TokenError};

#[test]
fn session_cookies_split_into_id_and_secret() {
    assert_eq!(parse_session_cookie("abc.def.ghi"), Some(("abc".to_string(), "def.ghi".to_string())));
    assert_eq!(parse_session_cookie("abc"), None);
    assert_eq!(parse_session_cookie(".def"), None);
    assert_eq!(parse_session_cookie(&format!("{}.x", "a".repeat(161))), None);
    assert!(parse_session_cookie(&format!("{}.x", "a".repeat(160))).is_some());
    assert!(csrf_accepted("tok", "tok"));
    assert!(!csrf_accepted("", ""));
    assert!(!csrf_accepted("tok", "tak"));
}

#[test]
fn management_requests_are_authorized_in_order() {
    assert!(env_flag(Some(" Yes ")));
    assert!(!env_flag(Some("no")));
    assert!(!env_flag(None));
    assert_eq!(management_token("short"), Err(TokenError::TooShort));
    assert_eq!(management_token(&format!(" {} ", "t".repeat(24))).unwrap(), "t".repeat(24));
    assert_eq!(bearer_token(Some("Bearer abc")).as_deref(), Some("abc"));
    assert_eq!(bearer_token(Some("Basic abc")), None);
    assert_eq!(authorize_step(true, None, "tok"), AuthorizeStep::Allowed);
    assert_eq!(authorize_step(false, Some("Bearer tok"), "tok"), AuthorizeStep::Allowed);
    assert_eq!(authorize_step(false, Some("Bearer bad"), "tok"), AuthorizeStep::InvalidToken);
    assert_eq!(authorize_step(false, None, "tok"), AuthorizeStep::CheckSession);
}

#[test]
fn tool_diagnosis_prefers_configured_then_candidates_then_path() {
    let d = diagnose_tool(" /opt/t ", false, &[("/c/t".into(), true)], None);
    assert_eq!(d.configured, "/opt/t");
    assert!(!d.found);
    assert_eq!(d.resolved, None);
    let d = diagnose_tool("AUTO", false, &[("/a/t".into(), false), ("/c/t".into(), true)], Some("/p/t".into()));
    assert!(d.found);
    assert_eq!(d.resolved.as_deref(), Some("/c/t"));
    let d = diagnose_tool("", false, &[], Some("/p/t".into()));
    assert_eq!(d.resolved.as_deref(), Some("/p/t"));
}
