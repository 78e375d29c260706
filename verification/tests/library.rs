use cosmictify::mpris::track_id_from_url_or_path;
use cosmictify::spotify::{
    build_track_uri, parse_contains, release_mutation, try_acquire_mutation, validate_track_id,
    ContainsError, HttpCategory, HttpMethod, HttpOutcome, HttpRequest, InMemoryTokenStore,
    LibraryAction, LibraryOp, LibraryStage, SpotifyApiError, SpotifyClient, TokenSet,
    TrackIdError, REQUIRED_SCOPES,
};

fn render(req: &HttpRequest) -> String {
    let method = match req.method {
        HttpMethod::Get => "GET",
        HttpMethod::Post => "POST",
        HttpMethod::Put => "PUT",
        HttpMethod::Delete => "DELETE",
    };
    let url = url::Url::parse(&req.url).expect("request URL parses");
    let mut target = url.path().to_string();
    if let Some(q) = url.query() {
        target.push('?');
        target.push_str(q);
    }
    let mut out = format!("{method} {target} HTTP/1.1\r\n");
    for (k, v) in &req.headers {
        out.push_str(&format!("{k}: {v}\r\n"));
    }
    out.push_str("\r\n");
    if let Some(b) = &req.body {
        out.push_str(b);
    }
    out
}

fn json(status: u16, body: &str) -> HttpOutcome {
    if status < 400 {
        HttpOutcome::Response { status, body: Some(body.to_string()) }
    } else {
        HttpOutcome::Status { status, retry_after: None }
    }
}

fn empty(status: u16) -> HttpOutcome {
    json(status, "")
}

fn setup_mock() -> SpotifyClient<InMemoryTokenStore> {
    SpotifyClient::new("e117d2b248334356b28cdf56be6eba18".to_string(), InMemoryTokenStore::new())
        .with_token_url("http://127.0.0.1:9/api/token".to_string())
        .with_api_base("http://127.0.0.1:9".to_string())
}

fn with_tokens(client: &mut SpotifyClient<InMemoryTokenStore>) {
    let tokens = TokenSet::new_now(
        "ACCESS",
        "Bearer",
        3600,
        Some("REFRESH".to_string()),
        Some(REQUIRED_SCOPES.to_string()),
    );
    client.set_tokens(tokens).unwrap();
}

/// Drive one library call to its end, answering each request with
/// `handler`; returns the result and the requests sent.
fn run(
    client: &mut SpotifyClient<InMemoryTokenStore>,
    op: LibraryOp,
    track_id: &str,
    latch: &mut bool,
    mut handler: impl FnMut(&str) -> HttpOutcome,
) -> (Result<Option<bool>, SpotifyApiError>, Vec<String>) {
    let (mut call, mut action) = client.start_library_call(op, track_id, latch).unwrap();
    let mut sent = Vec::new();
    loop {
        match action {
            LibraryAction::Finish(r) => {
                assert_eq!(call.stage, LibraryStage::Finished);
                return (r, sent);
            }
            LibraryAction::Send(req) => {
                let wire = render(&req);
                sent.push(wire.clone());
                let outcome = handler(&wire);
                action = client.step_library_call(&mut call, outcome, latch);
            }
        }
    }
}

fn contains(
    client: &mut SpotifyClient<InMemoryTokenStore>,
    track_id: &str,
    handler: impl FnMut(&str) -> HttpOutcome,
) -> Result<bool, SpotifyApiError> {
    let mut latch = false;
    run(client, LibraryOp::Contains, track_id, &mut latch, handler).0.map(|v| v.unwrap())
}

#[test]
fn validate_track_id_accepts_alphanumeric() {
    assert!(validate_track_id("abc123XYZ").is_ok());
    assert!(validate_track_id("3bYm3a1sdf0aS2ksd8aAAA").is_ok());
}

#[test]
fn validate_track_id_rejects_empty() {
    assert_eq!(validate_track_id(""), Err(TrackIdError::Empty));
}

#[test]
fn validate_track_id_rejects_too_long() {
    let s = "a".repeat(65);
    assert_eq!(validate_track_id(&s), Err(TrackIdError::TooLong));
}

#[test]
fn validate_track_id_rejects_invalid_characters() {
    assert_eq!(validate_track_id("abc:123"), Err(TrackIdError::InvalidCharacters));
    assert_eq!(validate_track_id("abc/123"), Err(TrackIdError::InvalidCharacters));
    assert_eq!(validate_track_id("abc 123"), Err(TrackIdError::InvalidCharacters));
}

#[test]
fn build_track_uri_produces_canonical_form() {
    assert_eq!(build_track_uri("3bYm3a1sdf0a"), Ok("spotify:track:3bYm3a1sdf0a".to_string()));
}

#[test]
fn build_track_uri_propagates_validation_error() {
    assert!(matches!(build_track_uri(""), Err(TrackIdError::Empty)));
    assert!(matches!(build_track_uri("a:b"), Err(TrackIdError::InvalidCharacters)));
}

#[test]
fn parse_contains_accepts_array_form() {
    assert!(parse_contains("[true]").unwrap());
    assert!(!parse_contains("[false]").unwrap());
    assert!(parse_contains(" [ true ] ").unwrap());
}

#[test]
fn parse_contains_accepts_bare_bool_for_robustness() {
    assert!(parse_contains("true").unwrap());
    assert!(!parse_contains("false").unwrap());
}

#[test]
fn parse_contains_rejects_malformed_responses() {
    assert_eq!(parse_contains(""), Err(ContainsError::Empty));
    assert!(matches!(parse_contains("[]"), Err(ContainsError::Empty)));
    assert!(matches!(parse_contains("not json"), Err(ContainsError::NotAnArray)));
    assert!(matches!(parse_contains("[true,false]"), Err(ContainsError::WrongLength)));
    assert!(matches!(parse_contains("[1]"), Err(ContainsError::NotABool)));
    assert!(matches!(parse_contains("[hello]"), Err(ContainsError::NotABool)));
}

#[test]
fn library_contains_uses_get_and_percent_encodes_uri() {
    let mut client = setup_mock();
    with_tokens(&mut client);
    let saved = contains(&mut client, "abc123", |req| {
        assert!(req.starts_with("GET /me/library/contains?"), "{req}");
        assert!(
            req.contains("uris=spotify%3Atrack%3Aabc123") || req.contains("uris=spotify:track:abc123"),
            "uri not encoded in request: {req}"
        );
        assert!(req.contains("Authorization: Bearer ACCESS"), "missing bearer auth: {req}");
        json(200, "[true]")
    });
    assert!(saved.unwrap());
}

#[test]
fn library_contains_parses_false_response() {
    let mut client = setup_mock();
    with_tokens(&mut client);
    assert!(!contains(&mut client, "abc123", |_req| json(200, "[false]")).unwrap());
}

#[test]
fn library_contains_rejects_empty_track_id() {
    let mut client = setup_mock();
    with_tokens(&mut client);
    let err = contains(&mut client, "", |_| {
        panic!("mock should not be called for empty track id");
    })
    .unwrap_err();
    assert!(matches!(err, SpotifyApiError::Malformed("invalid_track_id")));
}

#[test]
fn library_contains_treats_malformed_body_as_error() {
    let mut client = setup_mock();
    with_tokens(&mut client);
    let err = contains(&mut client, "abc123", |_req| json(200, "not json")).unwrap_err();
    assert!(matches!(err, SpotifyApiError::Malformed(_)));
}

#[test]
fn library_contains_401_refreshes_and_retries() {
    let mut client = setup_mock();
    with_tokens(&mut client);
    let mut lib_count = 0usize;
    let mut latch = false;
    let (result, requests) = run(&mut client, LibraryOp::Contains, "abc123", &mut latch, |req| {
        if req.contains("/me/library/contains") {
            lib_count += 1;
            if lib_count == 1 {
                json(401, r#"{"error":"unauthorized"}"#)
            } else {
                json(200, "[true]")
            }
        } else if req.contains("/api/token") {
            json(
                200,
                r#"{"access_token":"NEW","token_type":"Bearer","expires_in":3600,"refresh_token":"REFRESHED"}"#,
            )
        } else {
            json(500, "")
        }
    });
    assert_eq!(result.unwrap(), Some(true));
    assert_eq!(lib_count, 2);
    assert!(requests.iter().any(|r| r.contains("grant_type=refresh_token")));
}

#[test]
fn library_contains_403_returns_allowlist() {
    let mut client = setup_mock();
    with_tokens(&mut client);
    let err = contains(&mut client, "abc123", |_req| json(403, r#"{"error":"forbidden"}"#))
        .unwrap_err();
    assert_eq!(err, SpotifyApiError::Allowlist("forbidden"));
}

#[test]
fn library_contains_429_exposes_retry_after() {
    let mut client = setup_mock();
    with_tokens(&mut client);
    let err = contains(&mut client, "abc123", |_req| HttpOutcome::Status {
        status: 429,
        retry_after: Some("12".to_string()),
    })
    .unwrap_err();
    assert_eq!(err, SpotifyApiError::RateLimited { retry_after: 12 });
}

#[test]
fn library_contains_429_without_retry_after_uses_zero() {
    let mut client = setup_mock();
    with_tokens(&mut client);
    let err = contains(&mut client, "abc123", |_req| json(429, r#"{"error":"rate_limited"}"#))
        .unwrap_err();
    assert_eq!(err, SpotifyApiError::RateLimited { retry_after: 0 });
}

#[test]
fn library_contains_404_surfaces_as_http() {
    let mut client = setup_mock();
    with_tokens(&mut client);
    let err = contains(&mut client, "abc123", |_req| json(404, "{}")).unwrap_err();
    match err {
        SpotifyApiError::Http { status, category } => {
            assert_eq!(status, 404);
            assert_eq!(category, HttpCategory::Client);
        }
        other => panic!("expected Http(404), got {other:?}"),
    }
}

#[test]
fn library_contains_500_surfaces_as_server() {
    let mut client = setup_mock();
    with_tokens(&mut client);
    let err = contains(&mut client, "abc123", |_req| json(500, "{}")).unwrap_err();
    match err {
        SpotifyApiError::Http { status, category } => {
            assert_eq!(status, 500);
            assert_eq!(category, HttpCategory::Server);
        }
        other => panic!("expected Http(500), got {other:?}"),
    }
}

#[test]
fn library_save_uses_put_with_uri() {
    let mut client = setup_mock();
    with_tokens(&mut client);
    let mut latch = false;
    let (result, _) = run(&mut client, LibraryOp::Save, "abc123", &mut latch, |req| {
        assert!(req.starts_with("PUT /me/library?"), "{req}");
        assert!(
            req.contains("uris=spotify%3Atrack%3Aabc123") || req.contains("uris=spotify:track:abc123"),
            "uri not encoded: {req}"
        );
        assert!(req.contains("Authorization: Bearer ACCESS"), "{req}");
        assert!(req.contains("Content-Length: 0"), "{req}");
        empty(200)
    });
    result.unwrap();
    assert!(!latch);
}

#[test]
fn library_save_accepts_204_response() {
    let mut client = setup_mock();
    with_tokens(&mut client);
    let mut latch = false;
    let (result, _) = run(&mut client, LibraryOp::Save, "abc123", &mut latch, |_req| empty(204));
    result.unwrap();
}

#[test]
fn library_remove_uses_delete_with_uri() {
    let mut client = setup_mock();
    with_tokens(&mut client);
    let mut latch = false;
    let (result, _) = run(&mut client, LibraryOp::Remove, "abc123", &mut latch, |req| {
        assert!(req.starts_with("DELETE /me/library?"), "{req}");
        assert!(
            req.contains("uris=spotify%3Atrack%3Aabc123") || req.contains("uris=spotify:track:abc123"),
            "uri not encoded: {req}"
        );
        assert!(req.contains("Content-Length: 0"), "{req}");
        empty(200)
    });
    result.unwrap();
}

#[test]
fn library_contains_without_token_returns_refresh_error() {
    let mut client = setup_mock();
    let err = contains(&mut client, "abc123", |_| {
        panic!("mock should not be called without a token");
    })
    .unwrap_err();
    assert_eq!(err, SpotifyApiError::Refresh("no_token"));
}

#[test]
fn mutation_latch_refuses_a_second_mutation() {
    let mut client = setup_mock();
    with_tokens(&mut client);
    let mut latch = false;
    let (mut first, action) = client.start_library_call(LibraryOp::Save, "abc123", &mut latch).unwrap();
    assert!(matches!(action, LibraryAction::Send(_)));
    assert!(latch);
    let (_, second) = client.start_library_call(LibraryOp::Remove, "abc123", &mut latch).unwrap();
    assert!(matches!(
        second,
        LibraryAction::Finish(Err(SpotifyApiError::Malformed("mutation_in_flight")))
    ));
    let (_, lookup) = client.start_library_call(LibraryOp::Contains, "abc123", &mut latch).unwrap();
    assert!(matches!(lookup, LibraryAction::Send(_)));
    let done = client.step_library_call(&mut first, empty(200), &mut latch);
    assert!(matches!(done, LibraryAction::Finish(Ok(None))));
    assert!(!latch);
}

#[test]
fn mutation_latch_is_released_on_failure() {
    let mut client = setup_mock();
    let mut latch = false;
    let (result, sent) = run(&mut client, LibraryOp::Remove, "abc123", &mut latch, |_| empty(200));
    assert_eq!(result, Err(SpotifyApiError::Refresh("no_token")));
    assert!(sent.is_empty());
    assert!(!latch);
    with_tokens(&mut client);
    let (result, _) = run(&mut client, LibraryOp::Save, "abc123", &mut latch, |_| json(404, ""));
    assert_eq!(result, Err(SpotifyApiError::Http { status: 404, category: HttpCategory::Client }));
    assert!(!latch);
}

#[test]
fn refresh_failure_during_retry_ends_the_call() {
    let mut client = setup_mock();
    with_tokens(&mut client);
    let mut latch = false;
    let (result, sent) = run(&mut client, LibraryOp::Save, "abc123", &mut latch, |req| {
        if req.contains("/api/token") {
            json(400, r#"{"error":"invalid_grant"}"#)
        } else {
            json(401, "")
        }
    });
    assert_eq!(result, Err(SpotifyApiError::Http { status: 400, category: HttpCategory::Client }));
    assert_eq!(sent.len(), 2);
    assert!(!latch);
}

#[test]
fn contains_body_errors_are_classified() {
    let mut client = setup_mock();
    with_tokens(&mut client);
    let err = contains(&mut client, "abc123", |_| json(200, "  ")).unwrap_err();
    assert_eq!(err, SpotifyApiError::Malformed("contains_empty"));
    let err = contains(&mut client, "abc123", |_| HttpOutcome::Response { status: 200, body: None })
        .unwrap_err();
    assert_eq!(err, SpotifyApiError::Malformed("contains_body_read"));
    let err = contains(&mut client, "abc123", |_| HttpOutcome::Transport).unwrap_err();
    assert_eq!(err, SpotifyApiError::Transport("request_failed"));
}

#[test]
fn latch_helpers_take_and_release() {
    let mut latch = false;
    assert!(try_acquire_mutation(&mut latch));
    assert!(!try_acquire_mutation(&mut latch));
    release_mutation(&mut latch);
    assert!(try_acquire_mutation(&mut latch));
}

#[test]
fn track_id_error_messages_match_display() {
    assert_eq!(TrackIdError::Empty.message(), "track id is empty");
    assert_eq!(ContainsError::WrongLength.message(), "wrong number of elements");
}

#[test]
fn accepted_track_ids_come_back_from_uri_and_web_url() {
    for id in ["a", "3bymDcsSDlZo6WkhFpkVAx", "0123456789", &"Z".repeat(64)] {
        assert!(validate_track_id(id).is_ok());
        let uri = build_track_uri(id).unwrap();
        assert_eq!(track_id_from_url_or_path(&uri), Some(id.to_string()));
        let url = format!("https://open.spotify.com/track/{id}?si=x");
        assert_eq!(track_id_from_url_or_path(&url), Some(id.to_string()));
        let url = format!("https://open.spotify.com/track/{id}?  ");
        assert_eq!(track_id_from_url_or_path(&url), Some(id.to_string()));
    }
    for blank in ["", "   ", "\t\n"] {
        assert_eq!(track_id_from_url_or_path(blank), None);
    }
}
