use cosmictify::spotify::{
    accept_step, answer_callback_request, build_authorize_url, callback_from_pairs,
    callback_response_html, extract_query, generate_pkce_verifier, map_callback_error,
    parse_callback, parse_http_request, read_step, AcceptPoll, AcceptStep, AuthorizeUrlParams,
    CallbackError, LoopbackError, OAuthState, PkceVerifier, ReadStep,
    DEFAULT_LOOPBACK_ADDR, REDIRECT_URI, REQUIRED_SCOPES,
};

#[test]
fn query_extractor_handles_bare_query_and_url() {
    assert_eq!(extract_query("code=abc&state=xyz"), "code=abc&state=xyz");
    assert_eq!(
        extract_query("https://example.com/callback?code=abc&state=xyz"),
        "code=abc&state=xyz"
    );
    assert_eq!(
        extract_query("https://example.com/callback?code=abc&state=xyz#fragment"),
        "code=abc&state=xyz"
    );
    assert_eq!(extract_query(""), "");
    assert_eq!(extract_query("   "), "");
}

#[test]
fn authorize_url_is_built_with_expected_query_order() {
    let params = AuthorizeUrlParams::builder()
        .client_id("e117d2b248334356b28cdf56be6eba18")
        .state(OAuthState::new("abcdefghijklmnop").unwrap())
        .code_challenge("E9Melhoa2OwvFrEMTJguCHaoeK1t8URWbuGJSstw-cM")
        .build();
    let url = build_authorize_url(params);
    let parsed = url::Url::parse(&url).expect("valid URL");
    let map: std::collections::HashMap<String, String> = parsed
        .query_pairs()
        .map(|(k, v)| (k.into_owned(), v.into_owned()))
        .collect();
    assert_eq!(map.get("client_id").unwrap(), "e117d2b248334356b28cdf56be6eba18");
    assert_eq!(map.get("response_type").unwrap(), "code");
    assert_eq!(map.get("redirect_uri").unwrap(), REDIRECT_URI);
    assert_eq!(map.get("scope").unwrap(), REQUIRED_SCOPES);
    assert_eq!(map.get("code_challenge_method").unwrap(), "S256");
    assert_eq!(
        map.get("code_challenge").unwrap(),
        "E9Melhoa2OwvFrEMTJguCHaoeK1t8URWbuGJSstw-cM"
    );
    assert_eq!(map.get("state").unwrap(), "abcdefghijklmnop");
}

#[test]
fn authorize_url_percent_encodes_special_chars() {
    let params = AuthorizeUrlParams::builder()
        .client_id("e117d2b248334356b28cdf56be6eba18")
        .state(OAuthState::new("aaaaaaaaaaaaaaaa").unwrap())
        .code_challenge("challenge")
        .scopes("user-library-read user-library-modify")
        .build();
    let url = build_authorize_url(params);
    assert!(
        url.contains("user-library-read+user-library-modify")
            || url.contains("user-library-read%20user-library-modify"),
        "scope must be space-encoded, got: {url}"
    );
}

#[test]
fn parse_callback_accepts_full_url() {
    let url = "http://127.0.0.1:43821/callback?code=ABC&state=zzz";
    let parsed = parse_callback(url, "zzz").unwrap();
    assert_eq!(parsed.as_str(), "ABC");
}

#[test]
fn parse_callback_treats_empty_code_as_missing() {
    let err = match parse_callback("code=&state=zzz", "zzz") {
        Ok(_) => panic!("an empty code must be refused"),
        Err(e) => e,
    };
    assert_eq!(err, CallbackError::MissingCode);
}

#[test]
fn generate_produces_a_valid_verifier() {
    let v = generate_pkce_verifier().expect("the OS supplies randomness");
    PkceVerifier::new(v.as_str()).expect("generated verifier must validate");
}

#[test]
fn parse_http_request_extracts_path_and_query() {
    let req = parse_http_request("GET /callback?code=ABC&state=zzz HTTP/1.1\r\n").unwrap();
    assert_eq!(req.method, "GET");
    assert_eq!(req.path, "/callback");
    assert_eq!(req.query, "code=ABC&state=zzz");
}

#[test]
fn parse_http_request_handles_no_query() {
    let req = parse_http_request("GET / HTTP/1.1\r\n").unwrap();
    assert_eq!(req.path, "/");
    assert_eq!(req.query, "");
}

#[test]
fn parse_http_request_rejects_non_get() {
    assert!(matches!(
        parse_http_request("POST /callback HTTP/1.1\r\n"),
        Err(LoopbackError::MalformedRequest)
    ));
}

#[test]
fn parse_http_request_rejects_empty() {
    assert!(matches!(parse_http_request(""), Err(LoopbackError::MalformedRequest)));
    assert!(matches!(parse_http_request("only-one-token"), Err(LoopbackError::MalformedRequest)));
}

#[test]
fn callback_response_html_contains_content_length_and_body() {
    let html = callback_response_html(true);
    assert!(html.starts_with("HTTP/1.1 200 OK"));
    assert!(html.contains("Content-Length: "));
    assert!(html.contains("Content-Type: text/html"));
    assert!(html.contains("Connection: close"));
    assert!(html.contains("Spotify authorization complete"));
    let failure = callback_response_html(false);
    assert!(failure.contains("Spotify authorization failed"));
    assert!(html.contains("\r\n\r\n"));
}

#[test]
fn callback_response_content_length_counts_the_body_bytes() {
    for success in [true, false] {
        let html = callback_response_html(success);
        let (head, body) = html.split_once("\r\n\r\n").unwrap();
        let declared: usize = head
            .lines()
            .find_map(|l| l.strip_prefix("Content-Length: "))
            .unwrap()
            .parse()
            .unwrap();
        assert_eq!(declared, body.len());
    }
}

#[test]
fn listener_default_address_is_127_0_0_1_port_43821() {
    let (ip, port) = DEFAULT_LOOPBACK_ADDR.split_once(':').unwrap();
    assert_eq!(ip, "127.0.0.1");
    assert_eq!(port.parse::<u16>().unwrap(), 43821);
}

#[test]
fn read_step_waits_for_the_end_of_the_head() {
    assert_eq!(read_step(b"GET /callback HTTP/1.1\r\n", 24), ReadStep::ReadMore);
    assert_eq!(read_step(b"GET / HTTP/1.1\r\nHost: x\r\n\r\n", 10), ReadStep::HeadComplete);
    assert_eq!(read_step(b"", 0), ReadStep::Failed(LoopbackError::Io("eof")));
    let long = vec![b'a'; 16 * 1024 + 1];
    assert_eq!(read_step(&long, 1), ReadStep::Failed(LoopbackError::MalformedRequest));
    let at_limit = vec![b'a'; 16 * 1024];
    assert_eq!(read_step(&at_limit, 1), ReadStep::ReadMore);
}

fn answer(request: &[u8], expected: &str) -> (Option<String>, Result<String, LoopbackError>) {
    let reply = answer_callback_request(request.to_vec(), expected);
    (reply.response, reply.result.map(|c| c.as_str().to_string()))
}

#[test]
fn listener_returns_code_for_valid_callback() {
    let (page, result) = answer(
        b"GET /callback?code=AuthCodeXYZ&state=state-abcdef HTTP/1.1\r\nHost: 127.0.0.1\r\nConnection: close\r\n\r\n",
        "state-abcdef",
    );
    let body = page.unwrap();
    assert!(body.contains("Spotify authorization complete"), "expected success page, got: {body}");
    assert_eq!(result.unwrap(), "AuthCodeXYZ");
}

#[test]
fn listener_rejects_wrong_path() {
    let (page, result) = answer(
        b"GET /not-callback?code=ABC&state=state HTTP/1.1\r\nHost: 127.0.0.1\r\n\r\n",
        "state",
    );
    let body = page.unwrap();
    assert!(body.contains("Spotify authorization failed"), "expected failure page, got: {body}");
    assert!(
        matches!(&result, Err(LoopbackError::WrongPath(p)) if p == "/not-callback"),
        "expected WrongPath, got {result:?}"
    );
}

#[test]
fn listener_rejects_state_mismatch() {
    let (_, result) = answer(
        b"GET /callback?code=ABC&state=other HTTP/1.1\r\nHost: 127.0.0.1\r\n\r\n",
        "expected",
    );
    assert!(matches!(result, Err(LoopbackError::StateMismatch)));
}

#[test]
fn listener_rejects_denied() {
    let (_, result) = answer(
        b"GET /callback?error=access_denied&state=expected HTTP/1.1\r\nHost: 127.0.0.1\r\n\r\n",
        "expected",
    );
    assert!(matches!(result, Err(LoopbackError::UserDenied)));
}

#[test]
fn listener_rejects_missing_code() {
    let (_, result) = answer(
        b"GET /callback?state=expected HTTP/1.1\r\nHost: 127.0.0.1\r\n\r\n",
        "expected",
    );
    assert!(matches!(result, Err(LoopbackError::MissingCode)));
}

#[test]
fn serve_one_callback_serves_failure_page_on_state_mismatch() {
    let (page, result) = answer(
        b"GET /callback?code=ABC&state=other HTTP/1.1\r\nHost: 127.0.0.1\r\n\r\n",
        "expected",
    );
    let body = page.unwrap();
    assert!(matches!(result, Err(LoopbackError::StateMismatch)));
    assert!(body.contains("Spotify authorization failed"));
}

#[test]
fn request_that_is_not_http_gets_no_page() {
    let (page, result) = answer(&[0xff, 0xfe, b'\r', b'\n', b'\r', b'\n'], "s");
    assert!(page.is_none());
    assert_eq!(result, Err(LoopbackError::MalformedRequest));
    let (page, result) = answer(b"POST /callback HTTP/1.1\r\n\r\n", "s");
    assert!(page.is_none());
    assert_eq!(result, Err(LoopbackError::MalformedRequest));
}

#[test]
fn callback_errors_map_onto_listener_errors() {
    assert_eq!(map_callback_error(CallbackError::Malformed), LoopbackError::MalformedRequest);
    assert_eq!(map_callback_error(CallbackError::StateMismatch), LoopbackError::StateMismatch);
    assert_eq!(map_callback_error(CallbackError::Denied), LoopbackError::UserDenied);
    assert_eq!(map_callback_error(CallbackError::MissingCode), LoopbackError::MissingCode);
}

#[test]
fn loopback_error_messages_match_display() {
    assert_eq!(LoopbackError::Timeout.message(), "loopback callback timed out");
    assert_eq!(
        LoopbackError::WrongPath("/x".to_string()).message(),
        "unexpected path on loopback callback"
    );
    assert_eq!(LoopbackError::Io("read").message(), "loopback listener I/O error");
}

#[test]
fn parse_http_request_skips_extra_spaces_and_keeps_carriage_return_out() {
    let req = parse_http_request("GET   /a?b=c   HTTP/1.1\r\nHost: x\r\n").unwrap();
    assert_eq!(req.path, "/a");
    assert_eq!(req.query, "b=c");
    assert!(matches!(parse_http_request("GET\r\n/x"), Err(LoopbackError::MalformedRequest)));
}

#[test]
fn callback_values_are_form_decoded() {
    let code = parse_callback("code=a%2Bb&state=s+t", "s t").unwrap();
    assert_eq!(code.as_str(), "a+b");
    let code = parse_callback("state=x&code=1&code=2&state=x2", "x2").unwrap();
    assert_eq!(code.as_str(), "2");
}

fn pairs(items: &[(&str, &str)]) -> Vec<(String, String)> {
    items.iter().map(|(k, v)| (k.to_string(), v.to_string())).collect()
}

#[test]
fn decoded_callback_pairs_decide_the_outcome() {
    let ok = callback_from_pairs(&pairs(&[("code", "abc"), ("state", "xyz")]), "xyz").unwrap();
    assert_eq!(ok.as_str(), "abc");
    assert!(matches!(
        callback_from_pairs(&pairs(&[("code", "abc"), ("state", "other")]), "xyz"),
        Err(CallbackError::StateMismatch)
    ));
    assert!(matches!(
        callback_from_pairs(&pairs(&[("error", "access_denied"), ("state", "xyz")]), "xyz"),
        Err(CallbackError::Denied)
    ));
    assert!(matches!(
        callback_from_pairs(&pairs(&[("state", "xyz")]), "xyz"),
        Err(CallbackError::MissingCode)
    ));
    assert!(matches!(
        callback_from_pairs(&pairs(&[("code", "abc")]), "xyz"),
        Err(CallbackError::Malformed)
    ));
    let last = callback_from_pairs(
        &pairs(&[("code", "first"), ("code", "second"), ("state", "xyz")]),
        "xyz",
    )
    .unwrap();
    assert_eq!(last.as_str(), "second");
}

#[test]
fn callback_request_is_answered_as_its_query() {
    let queries = [
        "code=abc&state=s1",
        "state=s1",
        "code=abc&state=s2",
        "error=access_denied&state=s1",
        "code=a%2Fb&state=s%31",
        "",
    ];
    for q in queries {
        let head = format!("GET /callback?{q} HTTP/1.1\r\nHost: 127.0.0.1\r\n\r\n");
        let (page, result) = answer(head.as_bytes(), "s1");
        let expected = parse_callback(q, "s1")
            .map(|c| c.as_str().to_string())
            .map_err(map_callback_error);
        assert_eq!(result, expected, "query {q:?}");
        assert_eq!(page, Some(callback_response_html(expected.is_ok())), "query {q:?}");
    }
}

#[test]
fn listener_waits_for_a_connection_until_the_timeout() {
    assert_eq!(accept_step(AcceptPoll::Connected, 0, 100), AcceptStep::Serve);
    assert_eq!(accept_step(AcceptPoll::Connected, 500, 100), AcceptStep::Serve);
    assert_eq!(accept_step(AcceptPoll::WouldBlock, 99, 100), AcceptStep::Wait);
    assert_eq!(
        accept_step(AcceptPoll::WouldBlock, 100, 100),
        AcceptStep::Stop(LoopbackError::Timeout)
    );
    assert_eq!(
        accept_step(AcceptPoll::Failed, 0, 100),
        AcceptStep::Stop(LoopbackError::Io("accept"))
    );
}
