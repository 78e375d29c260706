//! The Web API client: the typed error surface the UI consumes, the
//! client state (Client ID, current tokens, store, endpoints) and the
//! request/response decisions of the token exchange, the refresh and the
//! authenticated library calls.

use vstd::prelude::*;
use vstd::utf8::encode_utf8;

use crate::spotify::json::holds_fields;
use crate::spotify::json::opt_chars;
use crate::spotify::json::parse_token_response;
use crate::spotify::json::spec_token_response;
use crate::spotify::json::TokenFields;
use crate::spotify::keyring::spec_load;
use crate::spotify::keyring::KeyringError;
use crate::spotify::keyring::TokenStore;
use crate::spotify::oauth::form_urlencoded_serialize;
use crate::spotify::oauth::owned_pairs_view;
use crate::spotify::oauth::pairs_view;
use crate::spotify::oauth::serialize_form;
use crate::spotify::oauth::Pairs;
use crate::spotify::types::before;
use crate::spotify::types::expiry_representable;
use crate::spotify::types::spec_refresh_due_at;
use crate::spotify::types::AuthCode;
use crate::spotify::types::PkceVerifier;
use crate::spotify::types::Timestamp;
use crate::spotify::types::TokenSet;
use crate::spotify::types::REDIRECT_URI;
use crate::spotify::types::SPOTIFY_TOKEN_URL;
use crate::text::chars_of;
use crate::text::owned;
use crate::text::push_decimal;
use crate::text::trim;
use crate::text::trim_bounds;

verus! {

/// Default Spotify Web API base URL.
pub const DEFAULT_API_BASE: &'static str = "https://api.spotify.com/v1";

// ---------------------------------------------------------------------------
// Error type
// ---------------------------------------------------------------------------

/// Coarse category for an HTTP status that does not fit the more specific
/// [`SpotifyApiError`] variants.
#[derive(Debug, Clone, Copy, PartialEq, Eq)]
pub enum HttpCategory {
    /// 4xx response that is not auth/forbidden/rate-limited.
    Client,
    /// 5xx response.
    Server,
}

/// Errors returned from the Web API client. None of the variants carry
/// user-specific data; inner strings are static category labels.
#[derive(Debug, Clone, PartialEq, Eq)]
pub enum SpotifyApiError {
    /// Generic HTTP failure outside the categories below.
    Http { status: u16, category: HttpCategory },
    /// Refresh-specific failure: no refresh token on file, the refresh
    /// itself failed, or a 401 still came back after a successful refresh.
    Refresh(&'static str),
    /// 403-style account/allowlist/Forbidden error.
    Allowlist(&'static str),
    /// 429 rate limit; `retry_after` is in seconds (0 when unknown).
    RateLimited { retry_after: u64 },
    /// Network / I/O error before any HTTP response was received.
    Transport(&'static str),
    /// Response body could not be parsed into the expected shape.
    Malformed(&'static str),
}

/// The category of an HTTP status: 5xx is a server error, anything else a
/// client error.
pub open spec fn spec_categorize(status: u16) -> HttpCategory {
    if 500 <= status < 600 {
        HttpCategory::Server
    } else {
        HttpCategory::Client
    }
}

/// Map a Spotify HTTP status into a category for [`SpotifyApiError::Http`].
pub fn categorize(status: u16) -> (c: HttpCategory)
    ensures
        c == spec_categorize(status),
{
    if 500 <= status && status < 600 {
        HttpCategory::Server
    } else {
        HttpCategory::Client
    }
}

/// The user-facing text of an error, as its `Display` gives it.
pub open spec fn spec_error_message(e: SpotifyApiError) -> Seq<char> {
    match e {
        SpotifyApiError::Http { status, category } => "Spotify API HTTP "@ + crate::text::decimal(
            status as nat,
        ) + " ("@ + (match category {
            HttpCategory::Client => "client"@,
            HttpCategory::Server => "server"@,
        }) + ")"@,
        SpotifyApiError::Refresh(tag) => "Spotify token refresh failed: "@ + tag@,
        SpotifyApiError::Allowlist(tag) => "Spotify account access error: "@ + tag@,
        SpotifyApiError::RateLimited { retry_after } => if retry_after == 0 {
            "Spotify rate limited"@
        } else {
            "Spotify rate limited, retry after "@ + crate::text::decimal(retry_after as nat)
                + "s"@
        },
        SpotifyApiError::Transport(tag) => "Spotify transport error: "@ + tag@,
        SpotifyApiError::Malformed(tag) => "Spotify response malformed: "@ + tag@,
    }
}

impl SpotifyApiError {
    /// The user-facing text of the error (what `Display` gives).
    pub fn message(&self) -> (m: String)
        ensures
            m@ == spec_error_message(*self),
    {
        let mut m = String::new();
        match self {
            SpotifyApiError::Http { status, category } => {
                m.append("Spotify API HTTP ");
                push_decimal(&mut m, *status as u64);
                m.append(" (");
                match category {
                    HttpCategory::Client => m.append("client"),
                    HttpCategory::Server => m.append("server"),
                }
                m.append(")");
            },
            SpotifyApiError::Refresh(tag) => {
                m.append("Spotify token refresh failed: ");
                m.append(tag);
            },
            SpotifyApiError::Allowlist(tag) => {
                m.append("Spotify account access error: ");
                m.append(tag);
            },
            SpotifyApiError::RateLimited { retry_after } => {
                if *retry_after == 0 {
                    m.append("Spotify rate limited");
                } else {
                    m.append("Spotify rate limited, retry after ");
                    push_decimal(&mut m, *retry_after);
                    m.append("s");
                }
            },
            SpotifyApiError::Transport(tag) => {
                m.append("Spotify transport error: ");
                m.append(tag);
            },
            SpotifyApiError::Malformed(tag) => {
                m.append("Spotify response malformed: ");
                m.append(tag);
            },
        }
        assert(m@ =~= spec_error_message(*self));
        m
    }
}

// ---------------------------------------------------------------------------
// HTTP requests and their outcomes
// ---------------------------------------------------------------------------

/// The HTTP methods the client uses.
#[derive(Debug, Clone, Copy, PartialEq, Eq)]
pub enum HttpMethod {
    Get,
    Post,
    Put,
    Delete,
}

/// A request for the transport to send: method, absolute URL, headers in
/// order, and a string body (sent as is) or none.
#[derive(Debug, Clone)]
pub struct HttpRequest {
    pub method: HttpMethod,
    pub url: String,
    pub headers: Vec<(String, String)>,
    pub body: Option<String>,
}

/// The model of a request: its method, URL, headers and body as
/// character sequences.
pub struct HttpRequestView {
    pub method: HttpMethod,
    pub url: Seq<char>,
    pub headers: Pairs,
    pub body: Option<Seq<char>>,
}

impl View for HttpRequest {
    type V = HttpRequestView;

    open spec fn view(&self) -> HttpRequestView {
        HttpRequestView {
            method: self.method,
            url: self.url@,
            headers: owned_pairs_view(self.headers@),
            body: opt_chars(self.body),
        }
    }
}

/// What the transport got back for a request.
#[derive(Debug, Clone)]
pub enum HttpOutcome {
    /// A response the transport hands back as a success (a status below
    /// 400), with its body, or `None` when reading the body failed.
    Response { status: u16, body: Option<String> },
    /// A response with a status of 400 or above, with its `Retry-After`
    /// header if it had one.
    Status { status: u16, retry_after: Option<String> },
    /// No response: the connection or the transfer failed.
    Transport,
}

/// The value of a string of ASCII decimal digits.
pub open spec fn digits_value(s: Seq<char>) -> nat
    decreases s.len(),
{
    if s.len() == 0 {
        0
    } else {
        digits_value(s.drop_last()) * 10 + ((s.last() as nat) - 48) as nat
    }
}

/// Every character of `s` is an ASCII digit.
pub open spec fn all_digits(s: Seq<char>) -> bool {
    forall|i: int| 0 <= i < s.len() ==> '0' <= #[trigger] s[i] <= '9'
}

/// `str::parse::<u64>`: an optional `+`, then one or more ASCII digits
/// whose value fits in a `u64`.
pub open spec fn spec_parse_u64_text(s: Seq<char>) -> Option<u64> {
    let digits = if s.len() > 0 && s[0] == '+' {
        s.subrange(1, s.len() as int)
    } else {
        s
    };
    if digits.len() == 0 || !all_digits(digits) || digits_value(digits) > u64::MAX {
        None
    } else {
        Some(digits_value(digits) as u64)
    }
}

/// The seconds a `Retry-After` header asks for: its trimmed value as
/// delta-seconds, and 0 when it is absent or anything else (an
/// HTTP-date among them).
pub open spec fn spec_retry_after(header: Option<Seq<char>>) -> u64 {
    match header {
        None => 0,
        Some(v) => match spec_parse_u64_text(trim(v)) {
            Some(n) => n,
            None => 0,
        },
    }
}

proof fn lemma_digits_value_prefix(s: Seq<char>, i: int)
    requires
        0 <= i < s.len(),
    ensures
        digits_value(s.take(i + 1)) == digits_value(s.take(i)) * 10 + ((s[i] as nat) - 48) as nat,
{
    assert(s.take(i + 1).drop_last() =~= s.take(i));
}

proof fn lemma_digits_value_grows(s: Seq<char>, i: int)
    requires
        0 <= i <= s.len(),
        all_digits(s),
    ensures
        digits_value(s.take(i)) <= digits_value(s),
    decreases s.len() - i,
{
    if i < s.len() {
        lemma_digits_value_prefix(s, i);
        lemma_digits_value_grows(s, i + 1);
    } else {
        assert(s.take(i) =~= s);
    }
}

/// Parse a `Retry-After` header into a number of seconds: the trimmed
/// value as delta-seconds, else 0.
pub fn parse_retry_after(header: Option<&str>) -> (secs: u64)
    ensures
        secs == spec_retry_after(
            match header {
                Some(h) => Some(h@),
                None => None,
            },
        ),
{
    let value = match header {
        Some(v) => v,
        None => return 0,
    };
    let v = chars_of(value);
    let (a, b) = trim_bounds(v.as_slice());
    let ghost t = v@.subrange(a as int, b as int);
    let start: usize = if a < b && v[a] == '+' {
        a + 1
    } else {
        a
    };
    let ghost digits = v@.subrange(start as int, b as int);
    assert(digits =~= (if t.len() > 0 && t[0] == '+' {
        t.subrange(1, t.len() as int)
    } else {
        t
    }));
    if start == b {
        return 0;
    }
    let mut acc: u64 = 0;
    let mut i: usize = start;
    while i < b
        invariant
            a <= start <= i <= b <= v@.len(),
            digits == v@.subrange(start as int, b as int),
            digits.len() > 0,
            t == trim(value@),
            digits == (if t.len() > 0 && t[0] == '+' {
                t.subrange(1, t.len() as int)
            } else {
                t
            }),
            header == Some(value),
            all_digits(digits.take(i - start)),
            acc == digits_value(digits.take(i - start)),
        decreases b - i,
    {
        let c = v[i];
        proof {
            lemma_digits_value_prefix(digits, i - start);
            assert(digits[i - start] == c);
        }
        if c < '0' || c > '9' {
            assert(!all_digits(digits));
            return 0;
        }
        let d: u64 = (c as u32 - 48) as u64;
        let m = match acc.checked_mul(10) {
            Some(m) => m,
            None => {
                proof {
                    if all_digits(digits) {
                        lemma_digits_value_grows(digits, i - start + 1);
                    }
                }
                return 0;
            },
        };
        acc = match m.checked_add(d) {
            Some(x) => x,
            None => {
                proof {
                    if all_digits(digits) {
                        lemma_digits_value_grows(digits, i - start + 1);
                    }
                }
                return 0;
            },
        };
        assert(all_digits(digits.take(i - start + 1))) by {
            assert forall|j: int| 0 <= j < i - start + 1 implies '0' <= #[trigger] digits.take(
                i - start + 1,
            )[j] <= '9' by {
                if j < i - start {
                    assert(digits.take(i - start + 1)[j] == digits.take(i - start)[j]);
                }
            }
        }
        i = i + 1;
    }
    assert(digits.take(b - start) =~= digits);
    acc
}

/// The error for a response with a failing status: 401 asks for
/// re-authorization, 403 is an account or allowlist refusal, 429 a rate
/// limit, anything else an HTTP error of its category.
pub open spec fn spec_status_error(status: u16, retry_after: Option<Seq<char>>) -> SpotifyApiError {
    if status == 401 {
        SpotifyApiError::Refresh("reauth_required")
    } else if status == 403 {
        SpotifyApiError::Allowlist("forbidden")
    } else if status == 429 {
        SpotifyApiError::RateLimited { retry_after: spec_retry_after(retry_after) }
    } else {
        SpotifyApiError::Http { status, category: spec_categorize(status) }
    }
}

/// Map a failing status (and its `Retry-After` header) onto the error
/// surface.
pub fn map_status_error(status: u16, retry_after: &Option<String>) -> (e: SpotifyApiError)
    ensures
        e == spec_status_error(status, opt_chars(*retry_after)),
{
    if status == 401 {
        SpotifyApiError::Refresh("reauth_required")
    } else if status == 403 {
        SpotifyApiError::Allowlist("forbidden")
    } else if status == 429 {
        let secs = match retry_after {
            Some(h) => parse_retry_after(Some(h.as_str())),
            None => parse_retry_after(None),
        };
        SpotifyApiError::RateLimited { retry_after: secs }
    } else {
        SpotifyApiError::Http { status, category: categorize(status) }
    }
}

/// The body of a token-endpoint outcome, or the error it stands for: an
/// unreadable body, a non-2xx success status, a failing status, or no
/// response at all.
pub open spec fn spec_collect_token_body(o: HttpOutcome) -> Result<String, SpotifyApiError> {
    match o {
        HttpOutcome::Response { status, body } => match body {
            None => Err(SpotifyApiError::Malformed("body_read_failed")),
            Some(b) => if 200 <= status < 300 {
                Ok(b)
            } else {
                Err(SpotifyApiError::Http { status, category: spec_categorize(status) })
            },
        },
        HttpOutcome::Status { status, retry_after } => Err(
            spec_status_error(status, opt_chars(retry_after)),
        ),
        HttpOutcome::Transport => Err(SpotifyApiError::Transport("request_failed")),
    }
}

/// Read the body of a token-endpoint outcome, mapping every failure onto
/// the error surface.
pub fn collect_token_body(o: HttpOutcome) -> (r: Result<String, SpotifyApiError>)
    ensures
        r == spec_collect_token_body(o),
{
    match o {
        HttpOutcome::Response { status, body } => match body {
            None => Err(SpotifyApiError::Malformed("body_read_failed")),
            Some(b) => if 200 <= status && status < 300 {
                Ok(b)
            } else {
                Err(SpotifyApiError::Http { status, category: categorize(status) })
            },
        },
        HttpOutcome::Status { status, retry_after } => Err(map_status_error(status, &retry_after)),
        HttpOutcome::Transport => Err(SpotifyApiError::Transport("request_failed")),
    }
}

// ---------------------------------------------------------------------------
// Token endpoint requests
// ---------------------------------------------------------------------------

/// A form-encoded `POST` of `pairs` to `url`.
pub open spec fn form_post(url: Seq<char>, pairs: Pairs) -> HttpRequestView {
    HttpRequestView {
        method: HttpMethod::Post,
        url,
        headers: seq![("Content-Type"@, "application/x-www-form-urlencoded"@)],
        body: Some(form_urlencoded_serialize(pairs)),
    }
}

/// The form of an authorization-code exchange (PKCE; no client secret).
pub open spec fn exchange_pairs(
    code: Seq<char>,
    redirect_uri: Seq<char>,
    client_id: Seq<char>,
    verifier: Seq<char>,
) -> Pairs {
    seq![
        ("grant_type"@, "authorization_code"@),
        ("code"@, code),
        ("redirect_uri"@, redirect_uri),
        ("client_id"@, client_id),
        ("code_verifier"@, verifier),
    ]
}

/// The form of a refresh-token grant (no client secret).
pub open spec fn refresh_pairs(refresh_token: Seq<char>, client_id: Seq<char>) -> Pairs {
    seq![
        ("grant_type"@, "refresh_token"@),
        ("refresh_token"@, refresh_token),
        ("client_id"@, client_id),
    ]
}

/// The fields of a refresh response, with `refresh_token` set to the one
/// that was used when the response carries none (or an empty one).
pub open spec fn keep_refresh_token(f: TokenFields, used: Seq<char>) -> TokenFields {
    match f.refresh_token {
        Some(r) => if r.len() > 0 {
            f
        } else {
            TokenFields { refresh_token: Some(used), ..f }
        },
        None => TokenFields { refresh_token: Some(used), ..f },
    }
}

/// A form-encoded `POST` request.
fn form_request(url: &str, pairs: &[(&str, &str)]) -> (r: HttpRequest)
    ensures
        r@ == form_post(url@, pairs_view(pairs@)),
{
    let mut headers: Vec<(String, String)> = Vec::new();
    headers.push((owned("Content-Type"), owned("application/x-www-form-urlencoded")));
    let body = serialize_form(pairs);
    let r = HttpRequest { method: HttpMethod::Post, url: owned(url), headers, body: Some(body) };
    assert(r@.headers =~= form_post(url@, pairs_view(pairs@)).headers);
    r
}

// ---------------------------------------------------------------------------
// The client
// ---------------------------------------------------------------------------

/// Whether tokens `tokens` need a refresh at `now`: always without tokens,
/// else once `now` has reached their refresh instant.
pub open spec fn spec_needs_refresh(tokens: Option<TokenSet>, now: Timestamp) -> bool {
    match tokens {
        None => true,
        Some(t) => !before(now, spec_refresh_due_at(t.obtained_at, t.expires_in)),
    }
}

/// The Web API client state: the app's Client ID, the current tokens, the
/// token store, and the endpoints. Generic over the [`TokenStore`], so the
/// production build wires up the Secret Service store and the tests an
/// in-memory one.
pub struct SpotifyClient<S: TokenStore> {
    client_id: String,
    tokens: Option<TokenSet>,
    store: S,
    token_url: String,
    api_base: String,
    redirect_uri: String,
}

impl<S: TokenStore> SpotifyClient<S> {
    /// The Client ID.
    pub closed spec fn spec_client_id(&self) -> Seq<char> {
        self.client_id@
    }

    /// The current tokens.
    pub closed spec fn spec_tokens(&self) -> Option<TokenSet> {
        self.tokens
    }

    /// The token store.
    pub closed spec fn spec_store(&self) -> S {
        self.store
    }

    /// The OAuth token endpoint.
    pub closed spec fn spec_token_url(&self) -> Seq<char> {
        self.token_url@
    }

    /// The Web API base URL.
    pub closed spec fn spec_api_base(&self) -> Seq<char> {
        self.api_base@
    }

    /// The registered redirect URI.
    pub closed spec fn spec_redirect_uri(&self) -> Seq<char> {
        self.redirect_uri@
    }

    /// Same Client ID and endpoints.
    pub open spec fn same_config(&self, other: &Self) -> bool {
        &&& self.spec_client_id() == other.spec_client_id()
        &&& self.spec_token_url() == other.spec_token_url()
        &&& self.spec_api_base() == other.spec_api_base()
        &&& self.spec_redirect_uri() == other.spec_redirect_uri()
    }

    /// A client with the production Spotify endpoints and no current token.
    pub fn new(client_id: String, store: S) -> (c: Self)
        ensures
            c.spec_client_id() == client_id@,
            c.spec_tokens() is None,
            c.spec_store() == store,
            c.spec_token_url() == SPOTIFY_TOKEN_URL@,
            c.spec_api_base() == DEFAULT_API_BASE@,
            c.spec_redirect_uri() == REDIRECT_URI@,
    {
        SpotifyClient {
            client_id,
            tokens: None,
            store,
            token_url: owned(SPOTIFY_TOKEN_URL),
            api_base: owned(DEFAULT_API_BASE),
            redirect_uri: owned(REDIRECT_URI),
        }
    }

    /// The same client with another OAuth token endpoint.
    pub fn with_token_url(self, url: String) -> (c: Self)
        ensures
            c.spec_token_url() == url@,
            c.spec_client_id() == self.spec_client_id(),
            c.spec_tokens() == self.spec_tokens(),
            c.spec_store() == self.spec_store(),
            c.spec_api_base() == self.spec_api_base(),
            c.spec_redirect_uri() == self.spec_redirect_uri(),
    {
        SpotifyClient { token_url: url, ..self }
    }

    /// The same client with another Web API base URL.
    pub fn with_api_base(self, base: String) -> (c: Self)
        ensures
            c.spec_api_base() == base@,
            c.spec_client_id() == self.spec_client_id(),
            c.spec_tokens() == self.spec_tokens(),
            c.spec_store() == self.spec_store(),
            c.spec_token_url() == self.spec_token_url(),
            c.spec_redirect_uri() == self.spec_redirect_uri(),
    {
        SpotifyClient { api_base: base, ..self }
    }

    /// The same client holding `tokens` (e.g. loaded from the keyring).
    pub fn with_tokens(self, tokens: TokenSet) -> (c: Self)
        ensures
            c.spec_tokens() == Some(tokens),
            c.same_config(&self),
            c.spec_store() == self.spec_store(),
    {
        SpotifyClient { tokens: Some(tokens), ..self }
    }

    /// A copy of the current token set, if any.
    pub fn current_tokens(&self) -> (t: Option<TokenSet>)
        ensures
            t == self.spec_tokens(),
    {
        match &self.tokens {
            Some(t) => Some(t.clone()),
            None => None,
        }
    }

    /// Replace the in-memory tokens and persist them through the store; a
    /// store failure is reported as `Refresh("keyring_save_failed")`, the
    /// in-memory tokens being replaced either way.
    pub fn set_tokens(&mut self, tokens: TokenSet) -> (r: Result<(), SpotifyApiError>)
        ensures
            final(self).spec_tokens() == Some(tokens),
            final(self).same_config(&*old(self)),
            r == Ok::<(), SpotifyApiError>(()) || r == Err::<(), SpotifyApiError>(
                SpotifyApiError::Refresh("keyring_save_failed"),
            ),
            r is Ok ==> final(self).spec_store().spec_contents() == Some(tokens),
            old(self).spec_store().spec_accepts(tokens) ==> r is Ok,
    {
        let saved = self.store.save(&tokens);
        self.tokens = Some(tokens);
        match saved {
            Ok(()) => Ok(()),
            Err(_) => Err(SpotifyApiError::Refresh("keyring_save_failed")),
        }
    }

    /// True when there are no tokens, or `now` has reached their refresh
    /// instant (the safety margin before expiry).
    pub fn needs_refresh_at(&self, now: Timestamp) -> (b: bool)
        requires
            self.spec_tokens() matches Some(t) ==> expiry_representable(t),
        ensures
            b == spec_needs_refresh(self.spec_tokens(), now),
    {
        match &self.tokens {
            None => true,
            Some(t) => {
                let due = t.refresh_due_at();
                !(now.secs < due.secs || (now.secs == due.secs && now.nanos < due.nanos))
            },
        }
    }

    /// [`Self::needs_refresh_at`] the current wall clock: the answer at the
    /// instant the clock gave, which no contract can fix.
    pub fn needs_refresh(&self) -> (b: bool)
        requires
            self.spec_tokens() matches Some(t) ==> expiry_representable(t),
        ensures
            self.spec_tokens() is None ==> b,
            exists|now: Timestamp|
                now.nanos < 1_000_000_000 && b == #[trigger] spec_needs_refresh(
                    self.spec_tokens(),
                    now,
                ),
    {
        let now = Timestamp::now();
        let b = self.needs_refresh_at(now);
        assert(now.nanos < 1_000_000_000 && b == spec_needs_refresh(self.spec_tokens(), now));
        b
    }

    /// The configured Web API base.
    pub fn api_base(&self) -> (s: &str)
        ensures
            s@ == self.spec_api_base(),
    {
        self.api_base.as_str()
    }

    /// The configured Client ID.
    pub fn client_id(&self) -> (s: &str)
        ensures
            s@ == self.spec_client_id(),
    {
        self.client_id.as_str()
    }

    /// The token store.
    pub fn store(&self) -> (s: &S)
        ensures
            *s == self.spec_store(),
    {
        &self.store
    }

    /// The request that exchanges an authorization `code` and its PKCE
    /// `verifier` for tokens: a form POST to the token endpoint with
    /// `grant_type=authorization_code`, the code, the redirect URI, the
    /// Client ID and the verifier.
    pub fn exchange_code_request(&self, code: &AuthCode, verifier: &PkceVerifier) -> (r: HttpRequest)
        ensures
            r@ == form_post(
                self.spec_token_url(),
                exchange_pairs(code@, self.spec_redirect_uri(), self.spec_client_id(), verifier@),
            ),
    {
        let pairs = [
            ("grant_type", "authorization_code"),
            ("code", code.as_str()),
            ("redirect_uri", self.redirect_uri.as_str()),
            ("client_id", self.client_id.as_str()),
            ("code_verifier", verifier.as_str()),
        ];
        assert(pairs_view(pairs@) =~= exchange_pairs(
            code@,
            self.spec_redirect_uri(),
            self.spec_client_id(),
            verifier@,
        ));
        form_request(self.token_url.as_str(), &pairs)
    }

    /// The request that refreshes the access token with `refresh_token`:
    /// a form POST to the token endpoint with `grant_type=refresh_token`,
    /// the refresh token and the Client ID.
    pub fn refresh_request(&self, refresh_token: &str) -> (r: HttpRequest)
        ensures
            r@ == form_post(self.spec_token_url(), refresh_pairs(refresh_token@, self.spec_client_id())),
    {
        let pairs = [
            ("grant_type", "refresh_token"),
            ("refresh_token", refresh_token),
            ("client_id", self.client_id.as_str()),
        ];
        assert(pairs_view(pairs@) =~= refresh_pairs(refresh_token@, self.spec_client_id()));
        form_request(self.token_url.as_str(), &pairs)
    }

    /// What a finished token-endpoint round trip leaves: the result `r` and
    /// the client `c1` after `c0`. A failing outcome or an unparseable body
    /// leaves the client as it was; parsed tokens (with the refresh token
    /// `keep` when they carry none) become the current tokens and are
    /// persisted, `r` being them (and the store then holding them) or the
    /// store's failure, which a store that accepts them does not report.
    pub open spec fn token_round_trip(
        c0: Self,
        c1: Self,
        outcome: HttpOutcome,
        keep: Option<Seq<char>>,
        r: Result<TokenSet, SpotifyApiError>,
    ) -> bool {
        match spec_collect_token_body(outcome) {
            Err(e) => r == Err::<TokenSet, SpotifyApiError>(e) && c1 == c0,
            Ok(body) => match spec_token_response(encode_utf8(body@)) {
                Err(tag) => r == Err::<TokenSet, SpotifyApiError>(SpotifyApiError::Malformed(tag))
                    && c1 == c0,
                Ok(f) => {
                    let g = match keep {
                        Some(used) => keep_refresh_token(f, used),
                        None => f,
                    };
                    &&& c1.spec_tokens() matches Some(t) && holds_fields(t, g)
                    &&& c1.same_config(&c0)
                    &&& (r == Ok::<TokenSet, SpotifyApiError>(c1.spec_tokens()->0) || r == Err::<
                        TokenSet,
                        SpotifyApiError,
                    >(SpotifyApiError::Refresh("keyring_save_failed")))
                    &&& r is Ok ==> c1.spec_store().spec_contents() == c1.spec_tokens()
                    &&& c0.spec_store().spec_accepts(c1.spec_tokens()->0) ==> r is Ok
                },
            },
        }
    }

    /// Finish an authorization-code exchange with the token endpoint's
    /// `outcome`: parse the tokens, make them current and persist them.
    pub fn finish_exchange(&mut self, outcome: HttpOutcome) -> (r: Result<TokenSet, SpotifyApiError>)
        ensures
            Self::token_round_trip(*old(self), *final(self), outcome, None, r),
    {
        let body = match collect_token_body(outcome) {
            Ok(b) => b,
            Err(e) => return Err(e),
        };
        let tokens = match parse_token_response(body.as_str()) {
            Ok(t) => t,
            Err(e) => return Err(e),
        };
        match self.set_tokens(tokens.clone()) {
            Ok(()) => Ok(tokens),
            Err(e) => Err(e),
        }
    }

    /// Finish a refresh made with `refresh_token` with the token
    /// endpoint's `outcome`: parse the tokens, keep `refresh_token` when
    /// Spotify sent none, make them current and persist them.
    pub fn finish_refresh(&mut self, refresh_token: &str, outcome: HttpOutcome) -> (r: Result<
        TokenSet,
        SpotifyApiError,
    >)
        ensures
            Self::token_round_trip(*old(self), *final(self), outcome, Some(refresh_token@), r),
    {
        let body = match collect_token_body(outcome) {
            Ok(b) => b,
            Err(e) => return Err(e),
        };
        let mut tokens = match parse_token_response(body.as_str()) {
            Ok(t) => t,
            Err(e) => return Err(e),
        };
        if !tokens.has_refresh_token() {
            tokens.refresh_token = Some(owned(refresh_token));
        }
        match self.set_tokens(tokens.clone()) {
            Ok(()) => Ok(tokens),
            Err(e) => Err(e),
        }
    }

    /// An exchange or refresh whose answer carries a well-formed token body
    /// ends in `Ok` with the new tokens when the store takes every save, and
    /// a load from the store afterwards, when it reads without error, gives
    /// those tokens back.
    pub proof fn law_round_trip_then_load(
        c0: Self,
        c1: Self,
        outcome: HttpOutcome,
        keep: Option<Seq<char>>,
        r: Result<TokenSet, SpotifyApiError>,
    )
        requires
            Self::token_round_trip(c0, c1, outcome, keep, r),
            spec_collect_token_body(outcome) matches Ok(b) && spec_token_response(
                encode_utf8(b@),
            ) is Ok,
            forall|t: TokenSet| c0.spec_store().spec_accepts(t),
            c1.spec_store().spec_readable(),
        ensures
            c1.spec_tokens() matches Some(t) && r == Ok::<TokenSet, SpotifyApiError>(t)
                && spec_load(c1.spec_store().spec_contents()) == Ok::<TokenSet, KeyringError>(t),
    {
        assert(c0.spec_store().spec_accepts(c1.spec_tokens()->0));
    }

    /// The refresh token a refresh would use: `Refresh("no_token")` without
    /// tokens, `Refresh("no_refresh_token")` without a non-empty refresh
    /// token.
    pub fn refresh_token_to_use(&self) -> (r: Result<String, SpotifyApiError>)
        ensures
            match self.spec_tokens() {
                None => r == Err::<String, SpotifyApiError>(SpotifyApiError::Refresh("no_token")),
                Some(t) => if t.refresh_token matches Some(rt) && rt@.len() > 0 {
                    r == Ok::<String, SpotifyApiError>(t.refresh_token->0)
                } else {
                    r == Err::<String, SpotifyApiError>(SpotifyApiError::Refresh("no_refresh_token"))
                },
            },
    {
        match &self.tokens {
            None => Err(SpotifyApiError::Refresh("no_token")),
            Some(t) => match &t.refresh_token {
                Some(rt) => if rt.as_str().is_empty() {
                    Err(SpotifyApiError::Refresh("no_refresh_token"))
                } else {
                    Ok(rt.clone())
                },
                None => Err(SpotifyApiError::Refresh("no_refresh_token")),
            },
        }
    }
}

/// Neither token request carries a client secret: their form keys are
/// exactly the PKCE and refresh-grant keys.
pub proof fn law_token_requests_carry_no_client_secret(
    code: Seq<char>,
    redirect_uri: Seq<char>,
    client_id: Seq<char>,
    verifier: Seq<char>,
    refresh_token: Seq<char>,
)
    ensures
        forall|i: int|
            0 <= i < exchange_pairs(code, redirect_uri, client_id, verifier).len() ==> (#[trigger] exchange_pairs(
                code,
                redirect_uri,
                client_id,
                verifier,
            )[i]).0 != "client_secret"@,
        forall|i: int|
            0 <= i < refresh_pairs(refresh_token, client_id).len() ==> (#[trigger] refresh_pairs(
                refresh_token,
                client_id,
            )[i]).0 != "client_secret"@,
{
    reveal_strlit("client_secret");
    reveal_strlit("grant_type");
    reveal_strlit("code");
    reveal_strlit("redirect_uri");
    reveal_strlit("client_id");
    reveal_strlit("code_verifier");
    reveal_strlit("refresh_token");
    assert("client_secret"@.len() == 13);
    assert("grant_type"@.len() != 13);
    assert("code"@.len() != 13);
    assert("redirect_uri"@.len() != 13);
    assert("client_id"@.len() != 13);
    assert("refresh_token"@.len() == 13 && "refresh_token"@[0] != "client_secret"@[0]);
    assert("code_verifier"@.len() == 13 && "code_verifier"@[1] != "client_secret"@[1]);
}

/// A refresh made with a non-empty refresh token always leaves a
/// non-empty refresh token in the new tokens, so the client can refresh
/// again.
pub proof fn law_refresh_keeps_a_refresh_token(f: TokenFields, used: Seq<char>)
    requires
        used.len() > 0,
    ensures
        keep_refresh_token(f, used).refresh_token matches Some(r) && r.len() > 0,
        f.refresh_token matches Some(r) && r.len() > 0 ==> keep_refresh_token(f, used) == f,
{
}

} // verus!
