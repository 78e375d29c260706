use cosmictify::spotify::{
    build_authorize_url, generate_pkce_verifier, parse_callback, validate_client_id,
    AuthorizeUrlParams, CallbackError, ClientIdError, OAuthState, PkceError, PkceVerifier,
    Timestamp, TokenSet, REDIRECT_URI, REFRESH_SAFETY_MARGIN_SECS, REQUIRED_SCOPES,
    SPOTIFY_AUTH_URL,
};

#[test]
fn generated_verifier_uses_unreserved_alphabet_and_valid_length() {
    for _ in 0..32 {
        let v = generate_pkce_verifier().expect("the OS supplies randomness");
        let s = v.as_str();
        assert!(s.len() >= 43 && s.len() <= 128, "verifier length out of range: {}", s.len());
        for b in s.bytes() {
            let unreserved = b.is_ascii_alphanumeric() || matches!(b, b'-' | b'.' | b'_' | b'~');
            assert!(unreserved, "verifier byte {:#x} not in RFC 7636 alphabet", b);
        }
    }
}

#[test]
fn pkce_verifier_new_rejects_short_input() {
    assert!(matches!(PkceVerifier::new("too-short"), Err(PkceError::InvalidLength)));
}

#[test]
fn pkce_verifier_new_rejects_long_input() {
    let s = "a".repeat(129);
    assert!(matches!(PkceVerifier::new(&s), Err(PkceError::InvalidLength)));
}

#[test]
fn pkce_verifier_new_rejects_disallowed_alphabet() {
    let s = "abcd abcd+abcd abcd abcd abcd abcd abcd abcd";
    assert!(matches!(PkceVerifier::new(s), Err(PkceError::InvalidAlphabet)));
}

#[test]
fn pkce_verifier_new_accepts_min_max_length() {
    assert!(PkceVerifier::new(&"a".repeat(43)).is_ok());
    assert!(PkceVerifier::new(&"a".repeat(128)).is_ok());
}

#[test]
fn s256_challenge_matches_rfc7636_appendix_b() {
    let verifier = PkceVerifier::new("dBjftJeZ4CVP-mB92K27uhbUJU1p1r_wW1gFWFOEjXk")
        .expect("verifier must validate");
    assert_eq!(verifier.challenge_s256(), "E9Melhoa2OwvFrEMTJguCHaoeK1t8URWbuGJSstw-cM");
}

#[test]
fn authorize_url_contains_required_components() {
    let params = AuthorizeUrlParams::builder()
        .client_id("e117d2b248334356b28cdf56be6eba18")
        .state(OAuthState::new("abcdefghijklmnop").unwrap())
        .code_challenge("E9Melhoa2OwvFrEMTJguCHaoeK1t8URWbuGJSstw-cM")
        .build();
    let url = build_authorize_url(params);
    assert!(url.starts_with(SPOTIFY_AUTH_URL), "url must start with auth endpoint, got {url}");

    let parsed: std::collections::HashMap<String, String> = url::Url::parse(&url)
        .expect("url must be parseable")
        .query_pairs()
        .map(|(k, v)| (k.into_owned(), v.into_owned()))
        .collect();

    assert_eq!(
        parsed.get("client_id").map(String::as_str),
        Some("e117d2b248334356b28cdf56be6eba18")
    );
    assert_eq!(parsed.get("response_type").map(String::as_str), Some("code"));
    assert_eq!(parsed.get("redirect_uri").map(String::as_str), Some(REDIRECT_URI));
    assert_eq!(parsed.get("code_challenge_method").map(String::as_str), Some("S256"));
    assert_eq!(
        parsed.get("code_challenge").map(String::as_str),
        Some("E9Melhoa2OwvFrEMTJguCHaoeK1t8URWbuGJSstw-cM")
    );
    assert_eq!(parsed.get("state").map(String::as_str), Some("abcdefghijklmnop"));
    assert_eq!(parsed.get("scope").map(String::as_str), Some(REQUIRED_SCOPES));
}

#[test]
fn callback_parser_accepts_matching_state_and_code() {
    let query = "code=AuthCodeXYZ&state=opaque-state";
    let parsed = parse_callback(query, "opaque-state").expect("must accept");
    assert_eq!(parsed.as_str(), "AuthCodeXYZ");
}

#[test]
fn callback_parser_rejects_state_mismatch() {
    let query = "code=AuthCodeXYZ&state=other";
    assert!(matches!(parse_callback(query, "expected"), Err(CallbackError::StateMismatch)));
}

#[test]
fn callback_parser_rejects_missing_state() {
    let query = "code=AuthCodeXYZ";
    assert!(matches!(parse_callback(query, "expected"), Err(CallbackError::Malformed)));
}

#[test]
fn callback_parser_rejects_denied() {
    let query = "error=access_denied&state=expected";
    assert!(matches!(parse_callback(query, "expected"), Err(CallbackError::Denied)));
}

#[test]
fn callback_parser_rejects_missing_code() {
    let query = "state=expected";
    assert!(matches!(parse_callback(query, "expected"), Err(CallbackError::MissingCode)));
}

#[test]
fn callback_parser_rejects_malformed_query() {
    assert!(matches!(parse_callback("", "expected"), Err(CallbackError::Malformed)));
    let query = "error=access_denied&state=expected&code=xyz";
    assert!(matches!(parse_callback(query, "expected"), Err(CallbackError::Denied)));
}

#[test]
fn validate_client_id_accepts_thirty_two_hex_chars() {
    assert!(validate_client_id("e117d2b248334356b28cdf56be6eba18").is_ok());
    assert!(validate_client_id("00000000000000000000000000000000").is_ok());
    assert!(validate_client_id("FFFFFFFFFFFFFFFFFFFFFFFFFFFFFFFF").is_ok());
}

#[test]
fn validate_client_id_rejects_wrong_length() {
    assert!(matches!(validate_client_id("abc123"), Err(ClientIdError::InvalidLength)));
    assert!(matches!(validate_client_id(&"a".repeat(33)), Err(ClientIdError::InvalidLength)));
}

#[test]
fn validate_client_id_rejects_non_hex() {
    assert!(matches!(
        validate_client_id("g117d2b248334356b28cdf56be6eba18"),
        Err(ClientIdError::InvalidFormat)
    ));
}

#[test]
fn token_refresh_due_at_subtracts_safety_margin() {
    let obtained = Timestamp { secs: 1_000_000, nanos: 0 };
    let tokens = TokenSet {
        access_token: "a".into(),
        token_type: "Bearer".into(),
        expires_in: 3600,
        refresh_token: Some("r".into()),
        scope: Some(REQUIRED_SCOPES.into()),
        obtained_at: obtained,
    };
    let due = tokens.refresh_due_at();
    let expected = Timestamp {
        secs: 1_000_000 + 3600 - REFRESH_SAFETY_MARGIN_SECS as i64,
        nanos: 0,
    };
    assert_eq!(due, expected);
}

#[test]
fn token_refresh_due_is_strictly_before_expiry() {
    let tokens = TokenSet {
        access_token: "a".into(),
        token_type: "Bearer".into(),
        expires_in: 60,
        refresh_token: Some("r".into()),
        scope: None,
        obtained_at: Timestamp::now(),
    };
    let due = tokens.refresh_due_at();
    let expires = tokens.expires_at();
    assert!(due < expires, "refresh-due must precede expiry (due={:?}, expires={:?})", due, expires);
}

#[test]
fn token_set_debug_redacts_access_and_refresh_tokens() {
    let tokens = TokenSet {
        access_token: "ACCESS-secret-needle".into(),
        token_type: "Bearer".into(),
        expires_in: 3600,
        refresh_token: Some("REFRESH-secret-needle".into()),
        scope: Some(REQUIRED_SCOPES.into()),
        obtained_at: Timestamp::epoch(),
    };
    let dbg = tokens.debug_string();

    assert!(!dbg.contains("ACCESS-secret-needle"), "access_token leaked in Debug: {dbg}");
    assert!(!dbg.contains("REFRESH-secret-needle"), "refresh_token leaked in Debug: {dbg}");
    assert!(dbg.contains("<redacted>"), "Debug should mark redacted fields: {dbg}");
    assert!(dbg.contains("Bearer"));
    assert!(dbg.contains("3600"));
}

#[test]
fn debug_form_is_exact_for_known_tokens() {
    let tokens = TokenSet {
        access_token: "x".into(),
        token_type: "Bearer".into(),
        expires_in: 60,
        refresh_token: None,
        scope: None,
        obtained_at: Timestamp { secs: -5, nanos: 7 },
    };
    assert_eq!(
        tokens.debug_string(),
        "TokenSet { access_token: Redacted(\"<redacted>\"), token_type: \"Bearer\", expires_in: 60, refresh_token: Redacted(\"<redacted>\"), scope: None, obtained_at: SystemTime { tv_sec: -5, tv_nsec: 7 } }"
    );
}

#[test]
fn instants_round_trip_through_their_epoch_offset() {
    for t in [
        Timestamp { secs: 0, nanos: 0 },
        Timestamp { secs: 1_700_000_000, nanos: 123 },
        Timestamp { secs: -1, nanos: 0 },
        Timestamp { secs: -1, nanos: 999_999_999 },
        Timestamp { secs: -86_400, nanos: 5 },
    ] {
        assert_eq!(Timestamp::from_epoch_offset(t.epoch_offset()), t);
    }
    assert_eq!(Timestamp { secs: -2, nanos: 250 }.epoch_offset(), Err((1, 999_999_750)));
    assert_eq!(Timestamp::from_epoch_offset(Err((0, 5))), Timestamp { secs: -1, nanos: 999_999_995 });
    assert_eq!(Timestamp::from_epoch_offset(Ok((3, 2_000_000_000))), Timestamp { secs: 3, nanos: 0 });
}

#[test]
fn random_bytes_become_url_safe_base64() {
    let bytes: Vec<u8> = (0u8..64).collect();
    let v = PkceVerifier::from_random_bytes(&bytes);
    assert_eq!(
        v.as_str(),
        "AAECAwQFBgcICQoLDA0ODxAREhMUFRYXGBkaGxwdHh8gISIjJCUmJygpKissLS4vMDEyMzQ1Njc4OTo7PD0-Pw"
    );
    let st = OAuthState::from_random_bytes(&[0xff; 16]);
    assert_eq!(st.as_str(), "_____________________w");
    let st = OAuthState::generate().expect("the OS supplies randomness");
    assert_eq!(st.as_str().len(), 22);
    assert!(OAuthState::new(st.as_str()).is_ok());
}

#[test]
fn debug_form_prints_the_instant_as_the_system_clock_does() {
    let at = std::time::UNIX_EPOCH + std::time::Duration::new(1_700_000_000, 123);
    let tokens = TokenSet {
        access_token: "x".into(),
        token_type: "Bearer".into(),
        expires_in: 60,
        refresh_token: None,
        scope: None,
        obtained_at: Timestamp { secs: 1_700_000_000, nanos: 123 },
    };
    let expected = format!("obtained_at: {:?} }}", at);
    assert!(tokens.debug_string().ends_with(&expected), "{}", tokens.debug_string());
}
