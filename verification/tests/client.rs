use cosmictify::spotify::{
    categorize, parse_retry_after, parse_token_response, parse_token_response_at, AuthCode,
    HttpCategory, HttpMethod, HttpOutcome, HttpRequest, InMemoryTokenStore, LibraryAction,
    LibraryOp, PkceVerifier, SpotifyApiError, SpotifyClient, Timestamp, TokenSet, TokenStore,
    DEFAULT_API_BASE, REDIRECT_URI, REQUIRED_SCOPES, SPOTIFY_TOKEN_URL,
};

fn sample_code() -> AuthCode {
    AuthCode::new("AuthCodeXYZ").unwrap()
}

fn sample_verifier() -> PkceVerifier {
    PkceVerifier::new("dBjftJeZ4CVP-mB92K27uhbUJU1p1r_wW1gFWFOEjXk").unwrap()
}

fn parse_err(body: &str) -> SpotifyApiError {
    match parse_token_response(body) {
        Ok(_) => panic!("expected an error for {body}"),
        Err(e) => e,
    }
}

/// The request as it would go on the wire: request line, headers, blank
/// line, body.
fn render(req: &HttpRequest) -> String {
    let method = match req.method {
        HttpMethod::Get => "GET",
        HttpMethod::Post => "POST",
        HttpMethod::Put => "PUT",
        HttpMethod::Delete => "DELETE",
    };
    let url = url::Url::parse(&req.url).expect("request URL parses");
    let mut target = url.path().to_string();
    if let Some(q) = url.query() {
        target.push('?');
        target.push_str(q);
    }
    let mut out = format!("{method} {target} HTTP/1.1\r\n");
    for (k, v) in &req.headers {
        out.push_str(&format!("{k}: {v}\r\n"));
    }
    out.push_str("\r\n");
    if let Some(b) = &req.body {
        out.push_str(b);
    }
    out
}

fn json(status: u16, body: &str) -> HttpOutcome {
    if status < 400 {
        HttpOutcome::Response { status, body: Some(body.to_string()) }
    } else {
        HttpOutcome::Status { status, retry_after: None }
    }
}

fn json_with_retry_after(status: u16, retry_after: &str) -> HttpOutcome {
    HttpOutcome::Status { status, retry_after: Some(retry_after.to_string()) }
}

fn setup() -> SpotifyClient<InMemoryTokenStore> {
    SpotifyClient::new("e117d2b248334356b28cdf56be6eba18".to_string(), InMemoryTokenStore::new())
        .with_token_url("http://127.0.0.1:9/api/token".to_string())
        .with_api_base("http://127.0.0.1:9".to_string())
}

fn exchange(
    client: &mut SpotifyClient<InMemoryTokenStore>,
    handler: impl Fn(&str) -> HttpOutcome,
) -> Result<TokenSet, SpotifyApiError> {
    let req = client.exchange_code_request(&sample_code(), &sample_verifier());
    let outcome = handler(&render(&req));
    client.finish_exchange(outcome)
}

fn refresh(
    client: &mut SpotifyClient<InMemoryTokenStore>,
    handler: impl Fn(&str) -> HttpOutcome,
) -> Result<TokenSet, SpotifyApiError> {
    let rt = client.refresh_token_to_use()?;
    let req = client.refresh_request(&rt);
    let outcome = handler(&render(&req));
    client.finish_refresh(&rt, outcome)
}

fn library_contains(
    client: &mut SpotifyClient<InMemoryTokenStore>,
    track_id: &str,
    handler: &mut dyn FnMut(&str) -> HttpOutcome,
    log: &mut Vec<String>,
) -> Result<bool, SpotifyApiError> {
    let mut latch = false;
    let (mut call, mut action) =
        client.start_library_call(LibraryOp::Contains, track_id, &mut latch).unwrap();
    loop {
        match action {
            LibraryAction::Finish(r) => return r.map(|v| v.unwrap()),
            LibraryAction::Send(req) => {
                let wire = render(&req);
                log.push(wire.clone());
                let outcome = handler(&wire);
                action = client.step_library_call(&mut call, outcome, &mut latch);
            }
        }
    }
}

#[test]
fn parse_token_response_reads_all_fields() {
    let body = r#"{"access_token":"abc","token_type":"Bearer","expires_in":3600,"refresh_token":"def","scope":"user-library-read user-library-modify"}"#;
    let t = parse_token_response(body).unwrap();
    assert_eq!(t.access_token, "abc");
    assert_eq!(t.token_type, "Bearer");
    assert_eq!(t.expires_in, 3600);
    assert_eq!(t.refresh_token.as_deref(), Some("def"));
    assert_eq!(t.scope.as_deref(), Some(REQUIRED_SCOPES));
}

#[test]
fn parse_token_response_treats_refresh_and_scope_as_optional() {
    let body = r#"{"access_token":"abc","token_type":"Bearer","expires_in":60}"#;
    let t = parse_token_response(body).unwrap();
    assert!(t.refresh_token.is_none());
    assert!(t.scope.is_none());
}

#[test]
fn parse_token_response_ignores_unknown_fields() {
    let body = r#"{"access_token":"abc","token_type":"Bearer","expires_in":60,"extra":"foo","nested":{"a":1}}"#;
    let t = parse_token_response(body).unwrap();
    assert_eq!(t.access_token, "abc");
}

#[test]
fn parse_token_response_rejects_missing_required_field() {
    let cases = [
        (r#"{"token_type":"Bearer","expires_in":60}"#, "missing_access_token"),
        (r#"{"access_token":"abc","expires_in":60}"#, "missing_token_type"),
        (r#"{"access_token":"abc","token_type":"Bearer"}"#, "missing_expires_in"),
        (r#"{}"#, "missing_access_token"),
    ];
    for (body, want) in cases {
        let err = parse_err(body);
        match err {
            SpotifyApiError::Malformed(tag) => assert_eq!(tag, want, "body={body}"),
            other => panic!("expected Malformed({want}) for {body}, got {other:?}"),
        }
    }
}

#[test]
fn parse_token_response_rejects_malformed_input() {
    assert!(matches!(parse_token_response("not json"), Err(SpotifyApiError::Malformed(_))));
    assert!(matches!(parse_token_response(r#"[1,2,3]"#), Err(SpotifyApiError::Malformed(_))));
    assert!(matches!(
        parse_token_response(r#"{"access_token":123,"token_type":"Bearer","expires_in":60}"#),
        Err(SpotifyApiError::Malformed(_))
    ));
}

#[test]
fn parse_token_response_handles_whitespace_and_unicode() {
    let body = r#" { "access_token" : "abc" , "token_type" : "Bearer" , "expires_in" : 1 , "refresh_token" : "déjà" } "#;
    let t = parse_token_response(body).unwrap();
    assert_eq!(t.refresh_token.as_deref(), Some("déjà"));
}

#[test]
fn parse_token_response_decodes_escapes() {
    let body = r#"{"access_token":"a\"b\\c\u00e9\n","token_type":"Bearer","expires_in":5}"#;
    let t = parse_token_response(body).unwrap();
    assert_eq!(t.access_token, "a\"b\\c\u{e9}\n");
    assert!(matches!(
        parse_token_response(r#"{"access_token":"\q","token_type":"B","expires_in":5}"#),
        Err(SpotifyApiError::Malformed("invalid_escape"))
    ));
    assert!(matches!(
        parse_token_response(r#"{"access_token":"a","token_type":"B","expires_in":99999999999999999999}"#),
        Err(SpotifyApiError::Malformed("u64_overflow"))
    ));
}

#[test]
fn exchange_code_sends_form_encoded_request_without_client_secret() {
    let mut client = setup();
    let tokens = exchange(&mut client, |req| {
        assert!(!req.contains("client_secret"), "client_secret leaked: {req}");
        assert!(req.contains("grant_type=authorization_code"), "{req}");
        assert!(req.contains("client_id=e117d2b248334356b28cdf56be6eba18"), "{req}");
        assert!(req.contains("code=AuthCodeXYZ"), "{req}");
        assert!(req.contains("redirect_uri=http%3A%2F%2F127.0.0.1%3A43821%2Fcallback"), "{req}");
        assert!(req.contains("code_verifier=dBjftJeZ4CVP-mB92K27uhbUJU1p1r_wW1gFWFOEjXk"), "{req}");
        assert!(req.contains("Content-Type: application/x-www-form-urlencoded"), "{req}");
        json(
            200,
            r#"{"access_token":"NEW_ACCESS","token_type":"Bearer","expires_in":3600,"refresh_token":"NEW_REFRESH","scope":"user-library-read user-library-modify"}"#,
        )
    })
    .expect("exchange should succeed");
    assert_eq!(tokens.access_token, "NEW_ACCESS");
    assert_eq!(tokens.refresh_token.as_deref(), Some("NEW_REFRESH"));
    let loaded = client.current_tokens().unwrap();
    assert_eq!(loaded.access_token, "NEW_ACCESS");
    let stored = client.store().load().ok().unwrap();
    assert_eq!(stored.access_token, "NEW_ACCESS");
}

#[test]
fn refresh_uses_refresh_token_grant_and_preserves_old_refresh_when_omitted() {
    let mut client = setup();
    let initial = TokenSet::new_now(
        "OLD",
        "Bearer",
        3600,
        Some("OLD_REFRESH".to_string()),
        Some(REQUIRED_SCOPES.to_string()),
    );
    client.set_tokens(initial).unwrap();
    let tokens = refresh(&mut client, |req| {
        assert!(req.contains("grant_type=refresh_token"), "{req}");
        assert!(!req.contains("client_secret"), "client_secret leaked in refresh: {req}");
        assert!(req.contains("client_id=e117d2b248334356b28cdf56be6eba18"), "{req}");
        assert!(req.contains("refresh_token=OLD_REFRESH"), "{req}");
        json(200, r#"{"access_token":"ROTATED","token_type":"Bearer","expires_in":3600}"#)
    })
    .expect("refresh should succeed");
    assert_eq!(tokens.access_token, "ROTATED");
    assert_eq!(
        tokens.refresh_token.as_deref(),
        Some("OLD_REFRESH"),
        "missing refresh_token must not overwrite the stored one"
    );
}

#[test]
fn refresh_uses_new_refresh_token_when_spotify_returns_one() {
    let mut client = setup();
    let initial = TokenSet::new_now(
        "OLD",
        "Bearer",
        3600,
        Some("OLD_REFRESH".to_string()),
        Some(REQUIRED_SCOPES.to_string()),
    );
    client.set_tokens(initial).unwrap();
    let tokens = refresh(&mut client, |_req| {
        json(
            200,
            r#"{"access_token":"ROTATED","token_type":"Bearer","expires_in":3600,"refresh_token":"NEW_REFRESH"}"#,
        )
    })
    .expect("refresh should succeed");
    assert_eq!(tokens.refresh_token.as_deref(), Some("NEW_REFRESH"));
}

#[test]
fn refresh_without_stored_token_returns_refresh_error() {
    let mut client = setup();
    let err = match refresh(&mut client, |_req| {
        panic!("mock should not be called when no tokens are loaded");
    }) {
        Ok(_) => panic!("refresh must fail"),
        Err(e) => e,
    };
    assert_eq!(err, SpotifyApiError::Refresh("no_token"));
}

#[test]
fn refresh_without_refresh_token_returns_refresh_error() {
    let mut client = setup();
    let initial = TokenSet::new_now("OLD", "Bearer", 3600, None, None);
    client.set_tokens(initial).unwrap();
    let err = match refresh(&mut client, |_req| {
        panic!("mock should not be called without a refresh token");
    }) {
        Ok(_) => panic!("refresh must fail"),
        Err(e) => e,
    };
    assert_eq!(err, SpotifyApiError::Refresh("no_refresh_token"));
}

#[test]
fn exchange_code_propagates_403_as_allowlist() {
    let mut client = setup();
    let err = match exchange(&mut client, |_req| json(403, r#"{"error":"forbidden"}"#)) {
        Ok(_) => panic!("exchange must fail"),
        Err(e) => e,
    };
    assert_eq!(err, SpotifyApiError::Allowlist("forbidden"));
}

#[test]
fn exchange_code_propagates_429_with_retry_after() {
    let mut client = setup();
    let err = match exchange(&mut client, |_req| json_with_retry_after(429, "7")) {
        Ok(_) => panic!("exchange must fail"),
        Err(e) => e,
    };
    assert_eq!(err, SpotifyApiError::RateLimited { retry_after: 7 });
}

#[test]
fn library_call_401_triggers_one_refresh_and_retry() {
    let mut client = setup();
    let initial = TokenSet::new_now(
        "STALE",
        "Bearer",
        3600,
        Some("REFRESH_ME".to_string()),
        Some(REQUIRED_SCOPES.to_string()),
    );
    client.set_tokens(initial).unwrap();
    let mut lib_count = 0usize;
    let mut handler = |req: &str| {
        if req.contains("/me/library/contains") {
            lib_count += 1;
            if lib_count == 1 {
                json(401, r#"{"error":"unauthorized"}"#)
            } else {
                json(200, "[true]")
            }
        } else if req.contains("/api/token") {
            json(
                200,
                r#"{"access_token":"NEW","token_type":"Bearer","expires_in":3600,"refresh_token":"REFRESHED"}"#,
            )
        } else {
            json(500, "")
        }
    };
    let mut requests = Vec::new();
    let contains = library_contains(&mut client, "abc123", &mut handler, &mut requests).unwrap();
    assert!(contains, "expected contains=true after retry");
    let library_calls = requests.iter().filter(|r| r.contains("/me/library/contains")).count();
    let refresh_calls = requests
        .iter()
        .filter(|r| r.contains("/api/token") && r.contains("grant_type=refresh_token"))
        .count();
    assert_eq!(library_calls, 2, "expected one 401 + one retry");
    assert_eq!(refresh_calls, 1, "expected exactly one refresh");
    assert_eq!(lib_count, 2, "expected two library calls");
    assert!(requests[2].contains("Authorization: Bearer NEW"));
}

#[test]
fn library_call_401_after_successful_refresh_returns_reauth_required() {
    let mut client = setup();
    let initial = TokenSet::new_now(
        "STALE",
        "Bearer",
        3600,
        Some("REFRESH_ME".to_string()),
        Some(REQUIRED_SCOPES.to_string()),
    );
    client.set_tokens(initial).unwrap();
    let mut handler = |req: &str| {
        if req.contains("/me/library/contains") {
            json(401, r#"{"error":"unauthorized"}"#)
        } else if req.contains("/api/token") {
            json(
                200,
                r#"{"access_token":"NEW","token_type":"Bearer","expires_in":3600,"refresh_token":"REFRESHED"}"#,
            )
        } else {
            json(500, "")
        }
    };
    let mut requests = Vec::new();
    let err = library_contains(&mut client, "abc123", &mut handler, &mut requests).unwrap_err();
    assert_eq!(err, SpotifyApiError::Refresh("reauth_required"));
    assert_eq!(requests.len(), 3);
}

#[test]
fn needs_refresh_is_true_without_tokens() {
    let client = setup();
    assert!(client.needs_refresh());
}

#[test]
fn needs_refresh_is_false_with_long_lived_tokens() {
    let mut client = setup();
    let tokens = TokenSet::new_now(
        "a",
        "Bearer",
        3600,
        Some("r".to_string()),
        Some(REQUIRED_SCOPES.to_string()),
    );
    client.set_tokens(tokens).unwrap();
    assert!(!client.needs_refresh());
}

#[test]
fn needs_refresh_is_true_for_already_expired_tokens() {
    let mut client = setup();
    let mut tokens = TokenSet::new_now("a", "Bearer", 1, Some("r".to_string()), None);
    tokens.obtained_at = Timestamp::epoch();
    client.set_tokens(tokens).unwrap();
    assert!(client.needs_refresh());
}

#[test]
fn needs_refresh_at_compares_with_the_refresh_instant() {
    let mut client = setup();
    let mut tokens = TokenSet::new_now("a", "Bearer", 3600, None, None);
    tokens.obtained_at = Timestamp { secs: 1000, nanos: 500 };
    client.set_tokens(tokens).unwrap();
    assert!(!client.needs_refresh_at(Timestamp { secs: 4539, nanos: 999 }));
    assert!(!client.needs_refresh_at(Timestamp { secs: 4540, nanos: 499 }));
    assert!(client.needs_refresh_at(Timestamp { secs: 4540, nanos: 500 }));
}

#[test]
fn categorize_maps_status_into_client_or_server() {
    assert_eq!(categorize(400), HttpCategory::Client);
    assert_eq!(categorize(404), HttpCategory::Client);
    assert_eq!(categorize(499), HttpCategory::Client);
    assert_eq!(categorize(500), HttpCategory::Server);
    assert_eq!(categorize(503), HttpCategory::Server);
}

#[test]
fn parse_token_response_sets_obtained_at_to_current_time() {
    let before = Timestamp::now();
    let tokens =
        parse_token_response(r#"{"access_token":"a","token_type":"Bearer","expires_in":60}"#)
            .unwrap();
    let after = Timestamp::now();
    assert!(tokens.obtained_at >= before && tokens.obtained_at <= after);
}

#[test]
fn parse_token_response_at_uses_the_given_instant() {
    let now = Timestamp { secs: 42, nanos: 1 };
    let tokens =
        parse_token_response_at(r#"{"access_token":"a","token_type":"Bearer","expires_in":60}"#, now)
            .unwrap();
    assert_eq!(tokens.obtained_at, now);
}

#[test]
fn new_client_uses_production_endpoints() {
    let client = SpotifyClient::new("id".to_string(), InMemoryTokenStore::new());
    assert_eq!(client.api_base(), DEFAULT_API_BASE);
    assert_eq!(client.client_id(), "id");
    assert!(client.current_tokens().is_none());
    let req = client.refresh_request("r");
    assert_eq!(req.url, SPOTIFY_TOKEN_URL);
    let req = client.exchange_code_request(&sample_code(), &sample_verifier());
    assert!(req.body.unwrap().contains("redirect_uri=http%3A%2F%2F127.0.0.1%3A43821%2Fcallback"));
    assert_eq!(REDIRECT_URI, "http://127.0.0.1:43821/callback");
}

#[test]
fn retry_after_is_delta_seconds_or_zero() {
    assert_eq!(parse_retry_after(None), 0);
    assert_eq!(parse_retry_after(Some(" 12 ")), 12);
    assert_eq!(parse_retry_after(Some("+3")), 3);
    assert_eq!(parse_retry_after(Some("-3")), 0);
    assert_eq!(parse_retry_after(Some("+")), 0);
    assert_eq!(parse_retry_after(Some("")), 0);
    assert_eq!(parse_retry_after(Some("Wed, 21 Oct 2015 07:28:00 GMT")), 0);
    assert_eq!(parse_retry_after(Some("18446744073709551615")), u64::MAX);
    assert_eq!(parse_retry_after(Some("18446744073709551616")), 0);
}

#[test]
fn token_endpoint_failures_map_onto_errors() {
    let mut client = setup();
    let req = client.exchange_code_request(&sample_code(), &sample_verifier());
    let _ = render(&req);
    let err = client
        .finish_exchange(HttpOutcome::Response { status: 200, body: None })
        .err()
        .unwrap();
    assert_eq!(err, SpotifyApiError::Malformed("body_read_failed"));
    let err = client
        .finish_exchange(HttpOutcome::Response { status: 204, body: Some(String::new()) })
        .err()
        .unwrap();
    assert_eq!(err, SpotifyApiError::Malformed("expected_byte"));
    let err = client
        .finish_exchange(HttpOutcome::Response { status: 302, body: Some("{}".into()) })
        .err()
        .unwrap();
    assert_eq!(err, SpotifyApiError::Http { status: 302, category: HttpCategory::Client });
    let err = client.finish_exchange(HttpOutcome::Transport).err().unwrap();
    assert_eq!(err, SpotifyApiError::Transport("request_failed"));
    let err = client.finish_exchange(json(503, "")).err().unwrap();
    assert_eq!(err, SpotifyApiError::Http { status: 503, category: HttpCategory::Server });
    assert!(client.current_tokens().is_none());
}

#[test]
fn error_messages_match_display() {
    assert_eq!(
        SpotifyApiError::Http { status: 404, category: HttpCategory::Client }.message(),
        "Spotify API HTTP 404 (client)"
    );
    assert_eq!(SpotifyApiError::RateLimited { retry_after: 0 }.message(), "Spotify rate limited");
    assert_eq!(
        SpotifyApiError::RateLimited { retry_after: 9 }.message(),
        "Spotify rate limited, retry after 9s"
    );
    assert_eq!(
        SpotifyApiError::Refresh("no_token").message(),
        "Spotify token refresh failed: no_token"
    );
}

fn written_body(
    access: &str,
    token_type: &str,
    expires_in: u64,
    refresh: Option<&str>,
    scope: Option<&str>,
) -> String {
    let mut map = serde_json::Map::new();
    map.insert("access_token".to_string(), serde_json::Value::from(access));
    map.insert("token_type".to_string(), serde_json::Value::from(token_type));
    map.insert("expires_in".to_string(), serde_json::Value::from(expires_in));
    if let Some(r) = refresh {
        map.insert("refresh_token".to_string(), serde_json::Value::from(r));
    }
    if let Some(s) = scope {
        map.insert("scope".to_string(), serde_json::Value::from(s));
    }
    serde_json::to_string(&serde_json::Value::Object(map)).unwrap()
}

#[test]
fn written_token_bodies_read_back() {
    let cases: [(&str, &str, u64, Option<&str>, Option<&str>); 4] = [
        ("a", "Bearer", 60, None, None),
        ("q\"uo\\te\n\t\u{1}é", "Bearer", u64::MAX, Some("r/1"), None),
        ("", "", 0, None, Some("user-library-read user-library-modify")),
        ("x\u{7f}\u{1f600}", "b\u{8}\u{c}\r", 1234567890, Some(""), Some("")),
    ];
    for (access, ty, n, refresh, scope) in cases {
        let body = written_body(access, ty, n, refresh, scope);
        let now = Timestamp { secs: 7, nanos: 8 };
        let t = parse_token_response_at(&body, now).unwrap();
        assert_eq!(t.access_token, access, "{body}");
        assert_eq!(t.token_type, ty, "{body}");
        assert_eq!(t.expires_in, n, "{body}");
        assert_eq!(t.refresh_token.as_deref(), refresh, "{body}");
        assert_eq!(t.scope.as_deref(), scope, "{body}");
        assert_eq!(t.obtained_at, now);
    }
}
