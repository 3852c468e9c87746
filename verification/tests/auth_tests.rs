use craftmc::auth::{
    auth_outcome, extract_session, hash_password, hex, is_public_path, new_session_token, verify_password,
    AuthOutcome, Sessions,
};

#[test]
fn password_hash_round_trip() {
    let h = hash_password("hunter22").unwrap();
    assert!(h.starts_with("$argon2"));
    assert!(verify_password("hunter22", &h));
    assert!(!verify_password("hunter23", &h));
    assert!(!verify_password("hunter22", "not a hash"));
    // A fresh salt each time.
    let h2 = hash_password("hunter22").unwrap();
    assert_ne!(h, h2);
    assert!(verify_password("hunter22", &h2));
}

#[test]
fn hex_is_lower_case_two_digits_per_byte() {
    assert_eq!(hex(&[0x00, 0x0f, 0xab, 0xff]), "000fabff");
    assert_eq!(hex(&[]), "");
    let t = new_session_token();
    assert_eq!(t.len(), 64);
    assert!(t.chars().all(|c| c.is_ascii_hexdigit() && !c.is_ascii_uppercase()));
    assert_ne!(t, new_session_token());
}

#[test]
fn session_cookie_is_found() {
    assert_eq!(extract_session(Some("cmc_session=abc")), Some("abc".to_string()));
    assert_eq!(extract_session(Some("theme=dark; cmc_session=xyz; other=1")), Some("xyz".to_string()));
    assert_eq!(extract_session(Some("a=1;   cmc_session=  ")), Some(String::new()));
    assert_eq!(extract_session(Some("cmc_session=first;cmc_session=second")), Some("first".to_string()));
    assert_eq!(extract_session(Some("xcmc_session=1")), None);
    assert_eq!(extract_session(Some("")), None);
    assert_eq!(extract_session(None), None);
}

#[test]
fn public_paths() {
    for p in ["/api/setup", "/api/setup/status", "/api/login", "/api/status-public", "/control", "/login", "/setup", "/", "/static/app.js", "/mcsapi/record/view", "/mcsapi/record/list"] {
        assert!(is_public_path(p), "{p}");
    }
    for p in ["/api/logout", "/api/config", "/static", "/login/x", "/deals", "/mcsapi"] {
        assert!(!is_public_path(p), "{p}");
    }
}

#[test]
fn auth_decisions() {
    assert_eq!(auth_outcome("/login", false, false), AuthOutcome::Allow);
    assert_eq!(auth_outcome("/api/config", false, true), AuthOutcome::Unavailable);
    assert_eq!(auth_outcome("/api/config", true, false), AuthOutcome::Unauthorized);
    assert_eq!(auth_outcome("/api/config", true, true), AuthOutcome::Allow);
    assert_eq!(auth_outcome("/mcsapi/record/view", true, false), AuthOutcome::Allow);
    assert_eq!(auth_outcome("/mcsapi/record/list", false, false), AuthOutcome::Allow);
}

#[test]
fn sessions_insert_remove() {
    let mut s = Sessions::new();
    assert!(!s.contains("t1"));
    s.insert("t1".to_string());
    s.insert("t1".to_string());
    s.insert("t2".to_string());
    assert!(s.contains("t1"));
    assert!(s.contains("t2"));
    s.remove("t1");
    assert!(!s.contains("t1"));
    assert!(s.contains("t2"));
    s.remove("nope");
    assert!(s.contains("t2"));
}
