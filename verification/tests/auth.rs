use golfsetridak::auth::{
    code_from_id, constant_time_eq, dev_login_step, expired_cookie, format_id, hash_password,
    header_complete, login_step, normalize_email, otp_email_body, parse_cookie, server_err_raw,
    set_cookie, sidecar_accepted, sidecar_request_head, split_mix64, verify_reply, DevLogin,
    LogDeliver, LoginReply, LoginStep, OtpOutcome, Role, State, COOKIE_NAME, OTP_CODE_DIGITS,
    OTP_MAX_ATTEMPTS, OTP_TTL_SECS, SESSION_TTL_SECS,
};

const NOW: i64 = 1_780_000_000;

/// Draw a fresh code the way the server does: two random words, an id, a code.
fn fresh_code(seed: &mut u64) -> (String, String) {
    let a = split_mix64(seed);
    let b = split_mix64(seed);
    let id = format_id(a, b);
    let salt = format_id(split_mix64(seed), split_mix64(seed));
    (code_from_id(&id), salt)
}

fn request(state: &mut State, log: &mut LogDeliver, seed: &mut u64, email: &str, now: i64) {
    let (code, salt) = fresh_code(seed);
    let to = state.request_otp(email, &code, &salt, now);
    log.deliver(&to, &code);
}

#[test]
fn otp_mint_verify_happy_path() {
    let mut state = State::new();
    let mut log = LogDeliver::new();
    let mut seed = 7u64;
    let email = "golfer@example.com";
    request(&mut state, &mut log, &mut seed, email, NOW);
    let code = log.last_code(email).expect("code delivered");
    assert_eq!(code.len(), OTP_CODE_DIGITS);
    assert!(code.bytes().all(|b| b.is_ascii_digit()));
    assert_eq!(state.verify_otp(email, &code, NOW + 1), OtpOutcome::Verified);
    assert_eq!(state.verify_otp(email, &code, NOW + 2), OtpOutcome::NoCode);
}

#[test]
fn otp_expiry_clears_and_rejects() {
    let mut state = State::new();
    state.request_otp("u@x.com", "123456", "salt", NOW);
    let later = NOW + OTP_TTL_SECS + 1;
    assert_eq!(state.verify_otp("u@x.com", "123456", later), OtpOutcome::Expired);
    assert_eq!(state.verify_otp("u@x.com", "123456", later), OtpOutcome::NoCode);
}

#[test]
fn otp_attempt_cap_locks_even_correct_code() {
    let mut state = State::new();
    let mut log = LogDeliver::new();
    let mut seed = 11u64;
    request(&mut state, &mut log, &mut seed, "cap@x.com", NOW);
    let code = log.last_code("cap@x.com").unwrap();
    let wrong = if code == "000000" { "111111" } else { "000000" };
    for _ in 0..(OTP_MAX_ATTEMPTS - 1) {
        assert_eq!(state.verify_otp("cap@x.com", wrong, NOW), OtpOutcome::WrongCode);
    }
    assert_eq!(state.verify_otp("cap@x.com", wrong, NOW), OtpOutcome::TooManyAttempts);
    assert_eq!(
        state.verify_otp("cap@x.com", &code, NOW),
        OtpOutcome::TooManyAttempts,
        "cap locks out the correct code"
    );
}

#[test]
fn otp_re_request_resets_attempts() {
    let mut state = State::new();
    let mut log = LogDeliver::new();
    let mut seed = 3u64;
    request(&mut state, &mut log, &mut seed, "re@x.com", NOW);
    let first = log.last_code("re@x.com").unwrap();
    let wrong = if first == "000000" { "111111" } else { "000000" };
    let _ = state.verify_otp("re@x.com", wrong, NOW);
    request(&mut state, &mut log, &mut seed, "re@x.com", NOW);
    let code = log.last_code("re@x.com").unwrap();
    assert_eq!(state.verify_otp("re@x.com", &code, NOW), OtpOutcome::Verified);
}

#[test]
fn otp_unknown_email_is_no_code() {
    let mut state = State::new();
    assert_eq!(state.verify_otp("ghost@x.com", "000000", NOW), OtpOutcome::NoCode);
}

#[test]
fn otp_email_is_normalized() {
    let mut state = State::new();
    let to = state.request_otp("  Golfer@Example.COM ", "424242", "s", NOW);
    assert_eq!(to, "golfer@example.com");
    assert_eq!(state.verify_otp("golfer@example.com", " 424242 ", NOW), OtpOutcome::Verified);
}

#[test]
fn session_create_lookup_delete() {
    let mut state = State::new();
    let id = state.create_session("a@b.com", "abc123", NOW);
    let hdr = format!("{COOKIE_NAME}={id}");
    let user = state.current_user(Some(&hdr), NOW).expect("authenticated");
    assert_eq!(user.email, "a@b.com");
    assert_eq!(user.role, Role::User);
    state.delete_session(Some(&hdr));
    assert!(state.current_user(Some(&hdr), NOW).is_none());
}

#[test]
fn session_no_cookie_is_none() {
    let mut state = State::new();
    assert!(state.current_user(None, NOW).is_none());
}

#[test]
fn session_expired_is_rejected() {
    let mut state = State::new();
    let start = NOW - SESSION_TTL_SECS - 10;
    let id = state.create_session("old@x.com", "oldid", start);
    let hdr = format!("{COOKIE_NAME}={id}");
    assert!(state.current_user(Some(&hdr), NOW).is_none());
    // the expired session was dropped
    assert!(state.current_user(Some(&hdr), start).is_none());
}

#[test]
fn role_gating_user_vs_admin() {
    let mut state = State::new();
    state.ensure_account("user@x.com");
    let uid = state.create_session("user@x.com", "u1", NOW);
    let ureq = format!("{COOKIE_NAME}={uid}");
    assert!(state.require_role(Some(&ureq), Role::User, NOW));
    assert!(!state.require_role(Some(&ureq), Role::Admin, NOW));

    state.set_role("adm@x.com", Role::Admin);
    let aid = state.create_session("adm@x.com", "a1", NOW);
    let areq = format!("{COOKIE_NAME}={aid}");
    assert!(state.require_role(Some(&areq), Role::Admin, NOW));
    assert!(state.require_role(Some(&areq), Role::User, NOW), "admin satisfies user role");

    assert!(!state.require_role(None, Role::User, NOW));
}

#[test]
fn hash_is_deterministic_and_distinct() {
    assert_eq!(hash_password("s", "pw"), hash_password("s", "pw"));
    assert_ne!(hash_password("s", "pw"), hash_password("s", "other"));
    assert_ne!(hash_password("a", "pw"), hash_password("b", "pw"));
}

#[test]
fn hash_is_hex_40_chars_and_no_plaintext() {
    let h = hash_password("salt", "hunter2");
    assert_eq!(h.len(), 40);
    assert!(h.bytes().all(|b| b.is_ascii_hexdigit()));
    assert!(!h.contains("hunter2"));
}

#[test]
fn parse_cookie_finds_named_value() {
    let hdr = "theme=dark; gsd_session=abc123; lang=en";
    assert_eq!(parse_cookie(hdr, "gsd_session").as_deref(), Some("abc123"));
    assert_eq!(parse_cookie(hdr, "theme").as_deref(), Some("dark"));
    assert_eq!(parse_cookie(hdr, "missing"), None);
}

#[test]
fn set_and_expire_cookie_attributes() {
    let s = set_cookie("tok");
    assert!(s.starts_with("gsd_session=tok"));
    assert!(s.contains("HttpOnly"));
    assert!(s.contains("SameSite=Lax"));
    let e = expired_cookie();
    assert!(e.contains("gsd_session=;"));
    assert!(e.contains("Max-Age=0"));
}

#[test]
fn email_normalization_trims_and_lowercases() {
    assert_eq!(normalize_email("  A@B.Is "), "a@b.is");
}

#[test]
fn constant_time_eq_compares_exactly() {
    assert!(constant_time_eq("abc", "abc"));
    assert!(!constant_time_eq("abc", "abd"));
    assert!(!constant_time_eq("abc", "ab"));
}

#[test]
fn split_mix64_known_first_output() {
    let mut s = 0u64;
    assert_eq!(split_mix64(&mut s), 0xE220_A839_7B1D_CDAF);
    assert_eq!(s, 0x9E37_79B9_7F4A_7C15);
}

#[test]
fn ids_are_hex_and_codes_six_digits() {
    let id = format_id(0xff, 1);
    assert_eq!(id, "00000000000000ff0000000000000001");
    assert_eq!(code_from_id("000f4241ffffffff"), "000001");
}

#[test]
fn otp_email_body_is_json() {
    let b = otp_email_body("a@b.is", "123456");
    assert!(b.starts_with(r#"{"to":"a@b.is","subject":"Innskráningarkóði — Golfsetrið Akureyri""#));
    assert!(b.contains("123456"));
    assert!(b.ends_with("}"));
}

#[test]
fn sidecar_head_and_answer() {
    let h = sidecar_request_head(8025, 42);
    assert!(h.starts_with("POST /email HTTP/1.1\r\nHost: 127.0.0.1:8025\r\n"));
    assert!(h.contains("Content-Length: 42\r\n"));
    assert!(h.ends_with("\r\n\r\n"));
    assert!(!header_complete(b"HTTP/1.1 200 OK\r\n"));
    assert!(header_complete(b"HTTP/1.1 200 OK\r\n\r\n"));
    assert!(sidecar_accepted(b"HTTP/1.1 202 Accepted\r\n\r\n"));
    assert!(!sidecar_accepted(b"HTTP/1.1 500 Oops\r\n\r\n"));
    assert!(!sidecar_accepted(&[0xff, 0xfe]));
}

#[test]
fn login_form_steps() {
    assert!(matches!(login_step("  ", "1"), LoginStep::AskEmail));
    match login_step(" A@b.is ", "") {
        LoginStep::SendCode { email } => assert_eq!(email, "a@b.is"),
        _ => panic!("expected send code"),
    }
    match login_step("a@b.is", " 123456 ") {
        LoginStep::Verify { email, code } => {
            assert_eq!(email, "a@b.is");
            assert_eq!(code, "123456");
        }
        _ => panic!("expected verify"),
    }
}

#[test]
fn verify_replies() {
    assert!(matches!(verify_reply(OtpOutcome::Verified, "a@b.is"), LoginReply::SignedIn));
    match verify_reply(OtpOutcome::WrongCode, "a@b.is") {
        LoginReply::Form { error, email, sent } => {
            assert_eq!(error, "Rangur kóði. Reyndu aftur.");
            assert_eq!(email, "a@b.is");
            assert!(sent);
        }
        _ => panic!("expected form"),
    }
    match verify_reply(OtpOutcome::Expired, "a@b.is") {
        LoginReply::Form { sent, .. } => assert!(!sent),
        _ => panic!("expected form"),
    }
}

#[test]
fn dev_login_decisions() {
    assert!(matches!(dev_login_step(false, true, "a@b.is"), DevLogin::NotFound));
    assert!(matches!(dev_login_step(true, false, "a@b.is"), DevLogin::MethodNotAllowed));
    assert!(matches!(dev_login_step(true, true, " "), DevLogin::EmailRequired));
    match dev_login_step(true, true, "A@B.is") {
        DevLogin::SignIn { email } => assert_eq!(email, "a@b.is"),
        _ => panic!("expected sign in"),
    }
}

#[test]
fn error_page_escapes_message() {
    let p = server_err_raw("<b>&");
    assert!(p.contains("<pre>&lt;b&gt;&amp;</pre>"));
}

#[test]
fn ids_come_from_clock_process_and_counter() {
    assert_eq!(golfsetridak::auth::new_id(0, 0, 0), "e220a8397b1dcdafe220a8397b1dcdaf");
    assert_eq!(
        golfsetridak::auth::new_id(123456789, 42, 7),
        "0cded0f83d0eb9bc7391a6ecc05533ad"
    );
}

#[test]
fn password_hashes_are_forty_lowercase_hex_digits() {
    for (salt, pw) in [("s", "pw"), ("", ""), ("salt", "hunter2"), ("ð", "😀 long password")] {
        let h = hash_password(salt, pw);
        assert_eq!(h.len(), 40);
        assert!(h.chars().all(|c| c.is_ascii_digit() || ('a'..='f').contains(&c)));
        assert!(!h.contains(pw) || pw.is_empty());
    }
}

#[test]
fn lockout_holds_until_a_new_code() {
    let mut state = State::new();
    let to = state.request_otp("lock@x.is", "111111", "salt", NOW);
    assert_eq!(to, "lock@x.is");
    for _ in 0..4 {
        assert_eq!(state.verify_otp("lock@x.is", "222222", NOW), OtpOutcome::WrongCode);
    }
    assert_eq!(state.verify_otp("lock@x.is", "333333", NOW), OtpOutcome::TooManyAttempts);
    for code in ["111111", "222222", "111111"] {
        assert_eq!(state.verify_otp("lock@x.is", code, NOW + 10), OtpOutcome::TooManyAttempts);
    }
    state.request_otp("lock@x.is", "444444", "salt2", NOW + 20);
    assert_eq!(state.verify_otp("lock@x.is", "444444", NOW + 21), OtpOutcome::Verified);
}
