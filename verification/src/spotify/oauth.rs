//! Authorization URL construction, callback parsing, and the decisions of
//! the loopback HTTP listener that catches Spotify's browser redirect.
//!
//! The listener's socket work (bind, accept, read, write) happens outside
//! this library; this module decides when a request has been read in
//! full, what it asks for, which page is served back and what the
//! callback yields.

use vstd::prelude::*;
use vstd::string::StringSliceAdditionalSpecFns;
use vstd::utf8::decode_utf8;
use vstd::utf8::encode_utf8;
use vstd::utf8::valid_utf8;

use crate::spotify::types::base64url_nopad;
use crate::spotify::types::is_auth_code;
use crate::spotify::types::AuthCode;
use crate::spotify::types::AuthorizeUrlParams;
use crate::spotify::types::PkceVerifier;
use crate::spotify::types::SPOTIFY_AUTH_URL;
use crate::spotify::json::opt_chars;
use crate::spotify::json::str_eq;
use crate::spotify::json::string_from_utf8;
use crate::text::chars_eq;
use crate::text::chars_of;
use crate::text::decimal;
use crate::text::find;
use crate::text::find_char;
use crate::text::find_from;
use crate::text::is_whitespace;
use crate::text::lemma_find_from;
use crate::text::owned;
use crate::text::push_decimal;
use crate::text::string_from_chars;
use crate::text::trim;
use crate::text::trim_bounds;
use crate::text::whitespace;

verus! {

broadcast use vstd::string::group_string_axioms;

/// Errors that can be returned from `parse_callback`.
#[derive(Debug, Clone, Copy, PartialEq, Eq)]
pub enum CallbackError {
    /// Callback query was empty, or carried no `state`.
    Malformed,
    /// `state` did not match the expected value.
    StateMismatch,
    /// Spotify returned `error=...` (for instance `access_denied`).
    Denied,
    /// Callback did not carry a usable authorization `code`.
    MissingCode,
}

/// Generate a fresh PKCE verifier from the OS random number generator;
/// `None` when the operating system cannot supply randomness.
pub fn generate_pkce_verifier() -> (v: Option<PkceVerifier>)
    ensures
        v matches Some(pv) ==> exists|b: Seq<u8>|
            b.len() == 64 && pv@ == #[trigger] base64url_nopad(b),
{
    PkceVerifier::generate()
}

// ---------------------------------------------------------------------------
// application/x-www-form-urlencoded
// ---------------------------------------------------------------------------

/// Key/value pairs as character sequences.
pub type Pairs = Seq<(Seq<char>, Seq<char>)>;

/// Whether the form serializer writes byte `b` as it is:
/// `[A-Za-z0-9*-._]`.
pub open spec fn form_byte_unchanged(b: u8) -> bool {
    ||| 48 <= b <= 57
    ||| 65 <= b <= 90
    ||| 97 <= b <= 122
    ||| b == 42 || b == 45 || b == 46 || b == 95
}

/// The upper-case hexadecimal digit for `v` in `0..16`.
pub open spec fn upper_hex_digit(v: int) -> char {
    if v < 10 {
        (48 + v) as char
    } else {
        (55 + v) as char
    }
}

/// The form serialization of one byte: the byte itself, `+` for a space,
/// else `%` and two upper-case hexadecimal digits.
pub open spec fn form_byte(b: u8) -> Seq<char> {
    if form_byte_unchanged(b) {
        seq![b as char]
    } else if b == 32 {
        seq!['+']
    } else {
        seq!['%', upper_hex_digit(b as int / 16), upper_hex_digit(b as int % 16)]
    }
}

/// The form serialization of the bytes `bs`, byte by byte.
pub open spec fn form_bytes(bs: Seq<u8>) -> Seq<char>
    decreases bs.len(),
{
    if bs.len() == 0 {
        seq![]
    } else {
        form_byte(bs[0]) + form_bytes(bs.drop_first())
    }
}

/// The `application/x-www-form-urlencoded` serialization of `pairs`
/// (WHATWG URL standard): each name and value serialized from its UTF-8
/// bytes, joined by `=`, the pairs joined by `&`.
pub open spec fn form_urlencoded_serialize(pairs: Pairs) -> Seq<char>
    decreases pairs.len(),
{
    if pairs.len() == 0 {
        seq![]
    } else {
        let last = pairs.last();
        let item = form_bytes(encode_utf8(last.0)) + seq!['='] + form_bytes(encode_utf8(last.1));
        if pairs.len() == 1 {
            item
        } else {
            form_urlencoded_serialize(pairs.drop_last()) + seq!['&'] + item
        }
    }
}

/// The pairs that the `form_urlencoded` crate decodes from `input`.
pub uninterp spec fn form_urlencoded_parse(input: Seq<u8>) -> Pairs;

/// The character view of borrowed pairs.
pub open spec fn pairs_view(pairs: Seq<(&str, &str)>) -> Pairs {
    pairs.map_values(|p: (&str, &str)| (p.0@, p.1@))
}

/// The character view of owned pairs.
pub open spec fn owned_pairs_view(pairs: Seq<(String, String)>) -> Pairs {
    pairs.map_values(|p: (String, String)| (p.0@, p.1@))
}

/// `form_urlencoded::Serializer::new(String::new()).extend_pairs(..).finish()`:
/// the result is `form_urlencoded_serialize` of the pairs (the crate's
/// `append_pair` writes `&` before every pair but the first, then the name,
/// `=` and the value through `byte_serialize`), and `form_urlencoded::parse`
/// of it gives the pairs back (the parser splits at `&` and the first `=`
/// and decodes `+` and `%XX` exactly as they were written).
#[verifier::external_body]
pub(crate) fn serialize_form(pairs: &[(&str, &str)]) -> (s: String)
    ensures
        s@ == form_urlencoded_serialize(pairs_view(pairs@)),
        form_urlencoded_parse(encode_utf8(s@)) == pairs_view(pairs@),
{
    form_urlencoded::Serializer::new(String::new()).extend_pairs(pairs.iter()).finish()
}

/// `form_urlencoded::parse`, each decoded pair taken as owned strings: the
/// result is named `form_urlencoded_parse` of the input's bytes.
#[verifier::external_body]
fn parse_form(input: &str) -> (pairs: Vec<(String, String)>)
    ensures
        owned_pairs_view(pairs@) == form_urlencoded_parse(input.spec_bytes()),
{
    form_urlencoded::parse(input.as_bytes()).map(|(k, v)| (k.into_owned(), v.into_owned())).collect()
}

// ---------------------------------------------------------------------------
// Authorization URL
// ---------------------------------------------------------------------------

/// The query parameters of the authorization URL, in order.
pub open spec fn authorize_pairs(p: AuthorizeUrlParams) -> Pairs {
    seq![
        ("client_id"@, p.client_id@),
        ("response_type"@, "code"@),
        ("redirect_uri"@, p.redirect_uri@),
        ("code_challenge_method"@, "S256"@),
        ("code_challenge"@, p.code_challenge@),
        ("state"@, p.state@),
        ("scope"@, p.scopes@),
    ]
}

/// Build the Spotify authorization URL for the loopback PKCE flow: the
/// authorization endpoint, `?`, and the form-encoded parameters.
pub fn build_authorize_url(params: AuthorizeUrlParams) -> (url: String)
    ensures
        url@ == SPOTIFY_AUTH_URL@ + "?"@ + form_urlencoded_serialize(authorize_pairs(params)),
        form_urlencoded_parse(
            encode_utf8(url@.subrange(SPOTIFY_AUTH_URL@.len() + 1int, url@.len() as int)),
        ) == authorize_pairs(params),
{
    let mut pairs: Vec<(&str, &str)> = Vec::new();
    pairs.push(("client_id", params.client_id.as_str()));
    pairs.push(("response_type", "code"));
    pairs.push(("redirect_uri", params.redirect_uri.as_str()));
    pairs.push(("code_challenge_method", "S256"));
    pairs.push(("code_challenge", params.code_challenge.as_str()));
    pairs.push(("state", params.state.as_str()));
    pairs.push(("scope", params.scopes.as_str()));
    assert(pairs_view(pairs@) =~= authorize_pairs(params));
    let query = serialize_form(pairs.as_slice());
    let mut url = owned(SPOTIFY_AUTH_URL);
    url.append("?");
    url.append(query.as_str());
    proof {
        reveal_strlit("?");
    }
    assert(url@.subrange(SPOTIFY_AUTH_URL@.len() + 1int, url@.len() as int) =~= query@);
    url
}

// ---------------------------------------------------------------------------
// Callback parsing
// ---------------------------------------------------------------------------

/// The query part of a callback: the trimmed input itself when it holds no
/// `?`, else what follows the first `?` up to any `#`.
pub open spec fn spec_extract_query(input: Seq<char>) -> Seq<char> {
    let t = trim(input);
    if t.len() == 0 {
        seq![]
    } else {
        let qpos = match find(t, '?') {
            Some(q) => q,
            None => 0,
        };
        let after = t.subrange(qpos, t.len() as int);
        if after.len() > 0 && after[0] == '?' {
            match find(after, '#') {
                Some(h) => after.subrange(1, h),
                None => after.subrange(1, after.len() as int),
            }
        } else {
            t
        }
    }
}

/// Extract the query portion of a URL, or pass a bare query string through.
pub fn extract_query(input: &str) -> (q: String)
    ensures
        q@ == spec_extract_query(input@),
{
    let v = chars_of(input);
    let (a, b) = trim_bounds(v.as_slice());
    let ghost t = v@.subrange(a as int, b as int);
    if a == b {
        return String::new();
    }
    let found = find_char(v.as_slice(), a, b, '?');
    proof {
        lemma_find_shift(v@, a as int, b as int, '?');
    }
    let qpos = match found {
        Some(q) => {
            assert(find(t, '?') == Some(q - a));
            q
        },
        None => {
            assert(find(t, '?') is None);
            a
        },
    };
    let ghost qrel = match find(t, '?') {
        Some(q) => q,
        None => 0,
    };
    assert(qrel == qpos - a);
    let ghost after = t.subrange(qpos - a, t.len() as int);
    assert(after =~= v@.subrange(qpos as int, b as int));
    assert(spec_extract_query(input@) == (if after.len() > 0 && after[0] == '?' {
        match find(after, '#') {
            Some(h) => after.subrange(1, h),
            None => after.subrange(1, after.len() as int),
        }
    } else {
        t
    }));
    if v[qpos] == '?' {
        assert(after[0] == '?');
        let hash = find_char(v.as_slice(), qpos, b, '#');
        proof {
            lemma_find_shift(v@, qpos as int, b as int, '#');
        }
        match hash {
            Some(h) => {
                assert(h > qpos);
                assert(after.subrange(1, h - qpos) =~= v@.subrange(qpos + 1, h as int));
                string_from_chars(v.as_slice(), qpos + 1, h)
            },
            None => {
                assert(after.subrange(1, after.len() as int) =~= v@.subrange(qpos + 1, b as int));
                string_from_chars(v.as_slice(), qpos + 1, b)
            },
        }
    } else {
        proof {
            if find(t, '?') is Some {
                assert(false);
            }
            assert(qpos == a);
        }
        string_from_chars(v.as_slice(), a, b)
    }
}

/// Searching `v[a..b]` from `a` is searching the slice `v[a..b]` from its
/// start, shifted by `a`.
pub proof fn lemma_find_shift(v: Seq<char>, a: int, b: int, c: char)
    requires
        0 <= a <= b <= v.len(),
    ensures
        find(v.subrange(a, b), c) == (match find_from(v.subrange(0, b), c, a) {
            Some(k) => Some(k - a),
            None => None::<int>,
        }),
{
    let w = v.subrange(a, b);
    let u = v.subrange(0, b);
    lemma_find_from(w, c, 0);
    lemma_find_from(u, c, a);
    match find_from(u, c, a) {
        Some(k) => {
            assert(w[k - a] == c);
            assert forall|j: int| 0 <= j < k - a implies w[j] != c by {
                assert(w[j] == u[j + a]);
            }
            if find(w, c) != Some(k - a) {
                match find(w, c) {
                    Some(k2) => {
                        assert(u[k2 + a] == c);
                    },
                    None => {},
                }
            }
        },
        None => {
            if find(w, c) is Some {
                let k2 = find(w, c)->0;
                assert(u[k2 + a] == w[k2]);
            }
        },
    }
}

/// The value of the last pair whose key is `key`, if any.
pub open spec fn last_value(pairs: Pairs, key: Seq<char>) -> Option<Seq<char>>
    decreases pairs.len(),
{
    if pairs.len() == 0 {
        None
    } else if pairs.last().0 == key {
        Some(pairs.last().1)
    } else {
        last_value(pairs.drop_last(), key)
    }
}

/// What the decoded pairs of a callback query yield: the authorization
/// code, or why there is none. An `error` parameter wins; then `state`
/// must be present and match; then a valid `code` must be present. Of a
/// repeated key the last value counts.
pub open spec fn spec_callback_from_pairs(pairs: Pairs, expected_state: Seq<char>) -> Result<
    Seq<char>,
    CallbackError,
> {
    if last_value(pairs, "error"@) is Some {
        Err(CallbackError::Denied)
    } else {
        match last_value(pairs, "state"@) {
            None => Err(CallbackError::Malformed),
            Some(s) => if s != expected_state {
                Err(CallbackError::StateMismatch)
            } else {
                match last_value(pairs, "code"@) {
                    None => Err(CallbackError::MissingCode),
                    Some(c) => if is_auth_code(encode_utf8(c)) {
                        Ok(c)
                    } else {
                        Err(CallbackError::MissingCode)
                    },
                }
            },
        }
    }
}

/// What a callback yields: an empty query is malformed; otherwise what its
/// decoded pairs yield.
pub open spec fn spec_parse_callback(input: Seq<char>, expected_state: Seq<char>) -> Result<
    Seq<char>,
    CallbackError,
> {
    let q = spec_extract_query(input);
    if q.len() == 0 {
        Err(CallbackError::Malformed)
    } else {
        spec_callback_from_pairs(form_urlencoded_parse(encode_utf8(q)), expected_state)
    }
}

/// Parse a Spotify callback (a full redirect URL or a bare query string)
/// and validate its state.
pub fn parse_callback(input: &str, expected_state: &str) -> (r: Result<AuthCode, CallbackError>)
    ensures
        match spec_parse_callback(input@, expected_state@) {
            Ok(c) => r matches Ok(code) && code@ == c,
            Err(e) => r == Err::<AuthCode, CallbackError>(e),
        },
{
    let query = extract_query(input);
    if query.as_str().is_empty() {
        return Err(CallbackError::Malformed);
    }
    let pairs = parse_form(query.as_str());
    callback_from_pairs(&pairs, expected_state)
}

/// What the decoded pairs of a callback query yield, validated against
/// the expected state.
pub fn callback_from_pairs(pairs: &Vec<(String, String)>, expected_state: &str) -> (r: Result<
    AuthCode,
    CallbackError,
>)
    ensures
        match spec_callback_from_pairs(owned_pairs_view(pairs@), expected_state@) {
            Ok(c) => r matches Ok(code) && code@ == c,
            Err(e) => r == Err::<AuthCode, CallbackError>(e),
        },
{
    let ghost pv = owned_pairs_view(pairs@);
    let mut state: Option<String> = None;
    let mut code: Option<String> = None;
    let mut error: Option<String> = None;
    let mut i: usize = 0;
    while i < pairs.len()
        invariant
            i <= pairs@.len(),
            pv == owned_pairs_view(pairs@),
            opt_chars(state) == last_value(pv.take(i as int), "state"@),
            opt_chars(code) == last_value(pv.take(i as int), "code"@),
            opt_chars(error) == last_value(pv.take(i as int), "error"@),
        decreases pairs.len() - i,
    {
        let (k, v) = &pairs[i];
        proof {
            reveal_strlit("state");
            reveal_strlit("code");
            reveal_strlit("error");
            assert("state"@.len() == 5 && "code"@.len() == 4 && "error"@.len() == 5);
            assert("state"@[0] != "error"@[0]);
        }
        assert(pv.take(i + 1).drop_last() =~= pv.take(i as int));
        assert(pv.take(i + 1).last() == (k@, v@));
        if str_eq(k.as_str(), "state") {
            state = Some(v.clone());
        } else if str_eq(k.as_str(), "code") {
            code = Some(v.clone());
        } else if str_eq(k.as_str(), "error") {
            error = Some(v.clone());
        }
        i = i + 1;
    }
    assert(pv.take(pairs@.len() as int) =~= pv);
    if error.is_some() {
        return Err(CallbackError::Denied);
    }
    match state {
        Some(s) => {
            if !str_eq(s.as_str(), expected_state) {
                return Err(CallbackError::StateMismatch);
            }
        },
        None => {
            return Err(CallbackError::Malformed);
        },
    }
    match code {
        Some(c) => match AuthCode::new(c.as_str()) {
            Ok(a) => Ok(a),
            Err(_) => Err(CallbackError::MissingCode),
        },
        None => Err(CallbackError::MissingCode),
    }
}

// ---------------------------------------------------------------------------
// Loopback HTTP listener: errors, request line, response page
// ---------------------------------------------------------------------------

/// Errors of the loopback callback listener.
#[derive(Debug, Clone, PartialEq, Eq)]
pub enum LoopbackError {
    /// Could not bind to the requested address (port already in use, etc.).
    BindFailed,
    /// I/O error during accept/read/write. Inner is a non-sensitive category.
    Io(&'static str),
    /// The HTTP request line was not parseable.
    MalformedRequest,
    /// The browser hit a path other than `/callback`; the path is kept for
    /// diagnostics.
    WrongPath(String),
    /// `state` parameter did not match the expected value.
    StateMismatch,
    /// The browser reported `error=...` (for instance `access_denied`).
    UserDenied,
    /// The authorization `code` was missing or invalid.
    MissingCode,
    /// No callback request arrived before the timeout elapsed.
    Timeout,
}

/// The user-facing text of a loopback error, as its `Display` gives it.
pub open spec fn spec_loopback_message(e: LoopbackError) -> Seq<char> {
    match e {
        LoopbackError::BindFailed => "failed to bind loopback listener"@,
        LoopbackError::Io(_) => "loopback listener I/O error"@,
        LoopbackError::MalformedRequest => "malformed HTTP request"@,
        LoopbackError::WrongPath(_) => "unexpected path on loopback callback"@,
        LoopbackError::StateMismatch => "loopback callback state mismatch"@,
        LoopbackError::UserDenied => "user denied Spotify authorization"@,
        LoopbackError::MissingCode => "loopback callback missing authorization code"@,
        LoopbackError::Timeout => "loopback callback timed out"@,
    }
}

impl LoopbackError {
    /// The user-facing text of the error (what `Display` gives).
    pub fn message(&self) -> (m: String)
        ensures
            m@ == spec_loopback_message(*self),
    {
        match self {
            LoopbackError::BindFailed => owned("failed to bind loopback listener"),
            LoopbackError::Io(_) => owned("loopback listener I/O error"),
            LoopbackError::MalformedRequest => owned("malformed HTTP request"),
            LoopbackError::WrongPath(_) => owned("unexpected path on loopback callback"),
            LoopbackError::StateMismatch => owned("loopback callback state mismatch"),
            LoopbackError::UserDenied => owned("user denied Spotify authorization"),
            LoopbackError::MissingCode => owned("loopback callback missing authorization code"),
            LoopbackError::Timeout => owned("loopback callback timed out"),
        }
    }
}

/// Default loopback bind address; it must match the redirect URI
/// registered for the Spotify app.
pub const DEFAULT_LOOPBACK_ADDR: &'static str = "127.0.0.1:43821";

/// A parsed HTTP/1.1 request line for the loopback callback.
#[derive(Debug, Clone, PartialEq, Eq)]
pub struct CallbackRequest {
    /// HTTP method (always `GET` for Spotify's browser redirect).
    pub method: String,
    /// Request path, without the query string.
    pub path: String,
    /// Raw, undecoded query string (after the `?`).
    pub query: String,
}

/// The first line of `s` as `str::lines` yields it: up to the first `\n`,
/// without a `\r` right before it; `None` for an empty input.
pub open spec fn first_line(s: Seq<char>) -> Option<Seq<char>> {
    if s.len() == 0 {
        None
    } else {
        match find(s, '\n') {
            Some(k) => if k > 0 && s[k - 1] == '\r' {
                Some(s.subrange(0, k - 1))
            } else {
                Some(s.subrange(0, k))
            },
            None => Some(s),
        }
    }
}

/// The first index at or after `i` that is not whitespace (or the end).
pub open spec fn skip_spaces(s: Seq<char>, i: int) -> int
    decreases s.len() - i,
{
    if i >= s.len() || !is_whitespace(s[i]) {
        i
    } else {
        skip_spaces(s, i + 1)
    }
}

/// The first index at or after `i` that is whitespace (or the end).
pub open spec fn word_end(s: Seq<char>, i: int) -> int
    decreases s.len() - i,
{
    if i >= s.len() || is_whitespace(s[i]) {
        i
    } else {
        word_end(s, i + 1)
    }
}

/// The method, path and query of a request whose first line has at least
/// two whitespace-separated words, the first being `GET`; the target is
/// split at its first `?`. `None` for any other request.
pub open spec fn spec_parse_http_request(buf: Seq<char>) -> Option<
    (Seq<char>, Seq<char>, Seq<char>),
> {
    match first_line(buf) {
        None => None,
        Some(line) => {
            let a1 = skip_spaces(line, 0);
            let e1 = word_end(line, a1);
            let a2 = skip_spaces(line, e1);
            let e2 = word_end(line, a2);
            if a1 >= line.len() || a2 >= line.len() {
                None
            } else {
                let method = line.subrange(a1, e1);
                let target = line.subrange(a2, e2);
                if method != "GET"@ {
                    None
                } else {
                    match find(target, '?') {
                        Some(q) => Some(
                            (method, target.subrange(0, q), target.subrange(q + 1, target.len() as int)),
                        ),
                        None => Some((method, target, seq![])),
                    }
                }
            }
        },
    }
}

proof fn lemma_skip_spaces(s: Seq<char>, i: int)
    requires
        0 <= i,
    ensures
        i <= skip_spaces(s, i),
        i <= s.len() ==> skip_spaces(s, i) <= s.len(),
        skip_spaces(s, i) < s.len() ==> !is_whitespace(s[skip_spaces(s, i)]),
    decreases s.len() - i,
{
    if i < s.len() && is_whitespace(s[i]) {
        lemma_skip_spaces(s, i + 1);
    }
}

proof fn lemma_word_end(s: Seq<char>, i: int)
    requires
        0 <= i,
    ensures
        i <= word_end(s, i),
        i <= s.len() ==> word_end(s, i) <= s.len(),
    decreases s.len() - i,
{
    if i < s.len() && !is_whitespace(s[i]) {
        lemma_word_end(s, i + 1);
    }
}

/// The first index in `v[from..to]` that is not whitespace, else `to`.
fn skip_spaces_in(v: &[char], from: usize, to: usize) -> (r: usize)
    requires
        from <= to <= v@.len(),
    ensures
        r == skip_spaces(v@.subrange(0, to as int), from as int),
{
    let ghost line = v@.subrange(0, to as int);
    let mut i = from;
    while i < to && whitespace(v[i])
        invariant
            from <= i <= to <= v@.len(),
            line == v@.subrange(0, to as int),
            skip_spaces(line, from as int) == skip_spaces(line, i as int),
        decreases to - i,
    {
        i = i + 1;
    }
    i
}

/// The first index in `v[from..to]` that is whitespace, else `to`.
fn word_end_in(v: &[char], from: usize, to: usize) -> (r: usize)
    requires
        from <= to <= v@.len(),
    ensures
        r == word_end(v@.subrange(0, to as int), from as int),
{
    let ghost line = v@.subrange(0, to as int);
    let mut i = from;
    while i < to && !whitespace(v[i])
        invariant
            from <= i <= to <= v@.len(),
            line == v@.subrange(0, to as int),
            word_end(line, from as int) == word_end(line, i as int),
        decreases to - i,
    {
        i = i + 1;
    }
    i
}

/// Parse the first line of an HTTP/1.1 request into method, path and
/// query. Headers, body and HTTP version are not looked at.
#[verifier::rlimit(40)]
pub fn parse_http_request(buf: &str) -> (r: Result<CallbackRequest, LoopbackError>)
    ensures
        match spec_parse_http_request(buf@) {
            None => r == Err::<CallbackRequest, LoopbackError>(LoopbackError::MalformedRequest),
            Some((m, p, q)) => r matches Ok(req) && req.method@ == m && req.path@ == p
                && req.query@ == q,
        },
{
    let v = chars_of(buf);
    let n = v.len();
    if n == 0 {
        return Err(LoopbackError::MalformedRequest);
    }
    let nl = find_char(v.as_slice(), 0, n, '\n');
    proof {
        assert(v@.subrange(0, n as int) =~= v@);
        lemma_find_from(v@, '\n', 0);
    }
    let end: usize = match nl {
        Some(k) => if k > 0 && v[k - 1] == '\r' {
            k - 1
        } else {
            k
        },
        None => n,
    };
    let ghost line = v@.subrange(0, end as int);
    assert(first_line(buf@) == Some(line));
    let a1 = skip_spaces_in(v.as_slice(), 0, end);
    proof {
        lemma_skip_spaces(line, 0);
    }
    let e1 = word_end_in(v.as_slice(), a1, end);
    proof {
        lemma_word_end(line, a1 as int);
    }
    let a2 = skip_spaces_in(v.as_slice(), e1, end);
    proof {
        lemma_skip_spaces(line, e1 as int);
    }
    let e2 = word_end_in(v.as_slice(), a2, end);
    proof {
        lemma_word_end(line, a2 as int);
    }
    if a1 >= end || a2 >= end {
        return Err(LoopbackError::MalformedRequest);
    }
    assert(line.subrange(a1 as int, e1 as int) =~= v@.subrange(a1 as int, e1 as int));
    if !chars_eq(v.as_slice(), a1, e1, "GET") {
        return Err(LoopbackError::MalformedRequest);
    }
    let ghost target = line.subrange(a2 as int, e2 as int);
    assert(target =~= v@.subrange(a2 as int, e2 as int));
    let q = find_char(v.as_slice(), a2, e2, '?');
    proof {
        lemma_find_shift(v@, a2 as int, e2 as int, '?');
    }
    let method = string_from_chars(v.as_slice(), a1, e1);
    match q {
        Some(qi) => {
            assert(find(target, '?') == Some(qi - a2));
            assert(target.subrange(0, qi - a2) =~= v@.subrange(a2 as int, qi as int));
            assert(target.subrange(qi - a2 + 1, target.len() as int) =~= v@.subrange(
                qi + 1,
                e2 as int,
            ));
            let path = string_from_chars(v.as_slice(), a2, qi);
            let query = string_from_chars(v.as_slice(), qi + 1, e2);
            Ok(CallbackRequest { method, path, query })
        },
        None => {
            assert(find(target, '?') is None);
            let path = string_from_chars(v.as_slice(), a2, e2);
            Ok(CallbackRequest { method, path, query: String::new() })
        },
    }
}

/// The head of a browser's redirect to the callback: the request line
/// `GET /callback?{query} HTTP/1.1`, then the rest of the head.
pub open spec fn callback_request_head(query: Seq<char>, rest: Seq<char>) -> Seq<char> {
    "GET /callback?"@ + query + " HTTP/1.1\r\n"@ + rest
}

/// The end of the word of non-whitespace characters that starts at `i`.
proof fn lemma_word_end_at(s: Seq<char>, i: int, j: int)
    requires
        0 <= i <= j <= s.len(),
        forall|m: int| i <= m < j ==> !is_whitespace(#[trigger] s[m]),
        j < s.len() ==> is_whitespace(s[j]),
    ensures
        word_end(s, i) == j,
    decreases j - i,
{
    if i < j {
        lemma_word_end_at(s, i + 1, j);
    }
}

/// A request whose line is `GET /callback?q HTTP/1.1`, for a query `q`
/// without whitespace, is read as a `GET` of `/callback` with query `q`,
/// whatever follows the line; so [`answer_callback_request`] answers it as
/// [`parse_callback`] answers `q`.
pub proof fn law_callback_request_carries_its_query(query: Seq<char>, rest: Seq<char>)
    requires
        forall|i: int| 0 <= i < query.len() ==> !is_whitespace(#[trigger] query[i]),
    ensures
        spec_parse_http_request(callback_request_head(query, rest)) == Some(
            ("GET"@, "/callback"@, query),
        ),
{
    reveal_strlit("GET /callback?");
    reveal_strlit(" HTTP/1.1\r\n");
    reveal_strlit("GET");
    reveal_strlit("/callback");
    let lead = "GET /callback?"@;
    let tail = " HTTP/1.1\r\n"@;
    let text = callback_request_head(query, rest);
    let n: int = 14 + query.len() as int;
    assert(lead.len() == 14 && tail.len() == 11);
    assert(text.len() == n + 11 + rest.len());
    assert forall|m: int| 0 <= m < 14 implies text[m] == lead[m] by {}
    assert forall|m: int| 0 <= m < query.len() implies text[14 + m] == query[m] by {}
    assert forall|m: int| 0 <= m < 11 implies text[n + m] == tail[m] by {}
    // The line ends at the first line feed, the last character of `tail`.
    assert(text[n + 10] == '\n' && text[n + 9] == '\r');
    assert forall|m: int| 0 <= m < n + 10 implies text[m] != '\n' by {
        if m >= 14 && m < n {
            assert(!is_whitespace(query[m - 14]));
        }
    }
    lemma_find_from(text, '\n', 0);
    assert(find(text, '\n') == Some(n + 10));
    let line = text.subrange(0, n + 9);
    assert(first_line(text) == Some(line));
    // Its words: `GET` from 0 to 3, the target from 4 to `n`.
    assert(!is_whitespace(line[0]));
    assert(skip_spaces(line, 0) == 0);
    assert forall|m: int| 0 <= m < 3 implies !is_whitespace(#[trigger] line[m]) by {
        assert(line[m] == lead[m]);
    }
    assert forall|m: int| 4 <= m < n implies !is_whitespace(#[trigger] line[m]) by {
        if m >= 14 {
            assert(line[m] == query[m - 14]);
        } else {
            assert(line[m] == lead[m]);
        }
    }
    assert(line[3] == ' ' && is_whitespace(line[3]));
    assert(line[n] == ' ' && is_whitespace(line[n]));
    lemma_word_end_at(line, 0, 3);
    assert(skip_spaces(line, 4) == 4);
    assert(skip_spaces(line, 3) == 4);
    lemma_word_end_at(line, 4, n);
    let target = line.subrange(4, n);
    assert(line.subrange(0, 3) =~= "GET"@);
    // The target is split at its first `?`, which ends `/callback`.
    assert(target[9] == '?');
    assert forall|m: int| 0 <= m < 9 implies target[m] != '?' by {
        assert(target[m] == lead[m + 4]);
    }
    lemma_find_from(target, '?', 0);
    assert(find(target, '?') == Some(9int));
    assert(target.subrange(0, 9) =~= "/callback"@);
    assert(target.subrange(10, target.len() as int) =~= query);
}

/// The page served after a successful callback.
pub const CALLBACK_SUCCESS_BODY: &'static str = "<!DOCTYPE html><html><head><title>Spotify Authorization</title></head><body><p>Spotify authorization complete. You can close this window and return to Cosmictify.</p></body></html>";

/// The page served after a failed callback.
pub const CALLBACK_FAILURE_BODY: &'static str = "<!DOCTYPE html><html><head><title>Spotify Authorization</title></head><body><p>Spotify authorization failed. Please return to Cosmictify and try again.</p></body></html>";

/// The page body for a callback outcome.
pub open spec fn callback_body(success: bool) -> &'static str {
    if success {
        CALLBACK_SUCCESS_BODY
    } else {
        CALLBACK_FAILURE_BODY
    }
}

/// The full HTTP response: `200 OK`, an HTML content type, a
/// `Content-Length` that is the body's length in bytes, `Connection:
/// close`, a blank line, and the body.
pub open spec fn spec_callback_response(success: bool) -> Seq<char> {
    let body = callback_body(success);
    "HTTP/1.1 200 OK\r\nContent-Type: text/html; charset=utf-8\r\nContent-Length: "@ + decimal(
        body.len() as nat,
    ) + "\r\nConnection: close\r\n\r\n"@ + body@
}

/// Build the small HTML response the browser displays after the callback.
pub fn callback_response_html(success: bool) -> (html: String)
    ensures
        html@ == spec_callback_response(success),
{
    let body = if success {
        CALLBACK_SUCCESS_BODY
    } else {
        CALLBACK_FAILURE_BODY
    };
    let mut html = owned(
        "HTTP/1.1 200 OK\r\nContent-Type: text/html; charset=utf-8\r\nContent-Length: ",
    );
    push_decimal(&mut html, body.len() as u64);
    html.append("\r\nConnection: close\r\n\r\n");
    html.append(body);
    assert(html@ =~= spec_callback_response(success));
    html
}

/// The loopback error that stands for a callback error.
pub open spec fn spec_map_callback_error(e: CallbackError) -> LoopbackError {
    match e {
        CallbackError::Malformed => LoopbackError::MalformedRequest,
        CallbackError::StateMismatch => LoopbackError::StateMismatch,
        CallbackError::Denied => LoopbackError::UserDenied,
        CallbackError::MissingCode => LoopbackError::MissingCode,
    }
}

/// Map a callback error onto the listener's error surface.
pub fn map_callback_error(e: CallbackError) -> (r: LoopbackError)
    ensures
        r == spec_map_callback_error(e),
{
    match e {
        CallbackError::Malformed => LoopbackError::MalformedRequest,
        CallbackError::StateMismatch => LoopbackError::StateMismatch,
        CallbackError::Denied => LoopbackError::UserDenied,
        CallbackError::MissingCode => LoopbackError::MissingCode,
    }
}

// ---------------------------------------------------------------------------
// Serving one callback request
// ---------------------------------------------------------------------------

/// Requests longer than this without a blank line are refused.
pub const MAX_REQUEST_HEAD_BYTES: usize = 16384;

/// `buf` holds `\r\n\r\n`, the end of an HTTP request head.
pub open spec fn has_head_end(buf: Seq<u8>) -> bool {
    exists|i: int|
        0 <= i && i + 4 <= buf.len() && #[trigger] buf[i] == 13u8 && buf[i + 1] == 10u8 && buf[i
            + 2] == 13u8 && buf[i + 3] == 10u8
}

/// What one poll of the listening socket gave.
#[derive(Debug, Clone, Copy, PartialEq, Eq)]
pub enum AcceptPoll {
    /// A browser connected.
    Connected,
    /// Nobody has connected yet.
    WouldBlock,
    /// The socket failed.
    Failed,
}

/// What the listener does after a poll.
#[derive(Debug, Clone, PartialEq, Eq)]
pub enum AcceptStep {
    /// Serve the connection.
    Serve,
    /// Sleep a little and poll again.
    Wait,
    /// Give up with this error.
    Stop(LoopbackError),
}

/// The listener's decision after a poll made `elapsed_ms` milliseconds
/// into a wait of `timeout_ms`: a connection is served, a socket failure
/// ends the wait, and an empty poll waits on until the timeout is reached.
pub fn accept_step(poll: AcceptPoll, elapsed_ms: u64, timeout_ms: u64) -> (a: AcceptStep)
    ensures
        a == (match poll {
            AcceptPoll::Connected => AcceptStep::Serve,
            AcceptPoll::Failed => AcceptStep::Stop(LoopbackError::Io("accept")),
            AcceptPoll::WouldBlock => if elapsed_ms >= timeout_ms {
                AcceptStep::Stop(LoopbackError::Timeout)
            } else {
                AcceptStep::Wait
            },
        }),
{
    match poll {
        AcceptPoll::Connected => AcceptStep::Serve,
        AcceptPoll::Failed => AcceptStep::Stop(LoopbackError::Io("accept")),
        AcceptPoll::WouldBlock => if elapsed_ms >= timeout_ms {
            AcceptStep::Stop(LoopbackError::Timeout)
        } else {
            AcceptStep::Wait
        },
    }
}

/// What to do after one read from the browser's connection.
#[derive(Debug, Clone, PartialEq, Eq)]
pub enum ReadStep {
    /// The head is not complete yet: read again.
    ReadMore,
    /// The head is complete: answer the request.
    HeadComplete,
    /// Give up with this error.
    Failed(LoopbackError),
}

/// The step after a read that returned `last_read` bytes, `buf` being
/// everything read so far: end of stream fails, a complete head is
/// answered, more than [`MAX_REQUEST_HEAD_BYTES`] without one is refused.
pub open spec fn spec_read_step(buf: Seq<u8>, last_read: nat) -> ReadStep {
    if last_read == 0 {
        ReadStep::Failed(LoopbackError::Io("eof"))
    } else if has_head_end(buf) {
        ReadStep::HeadComplete
    } else if buf.len() > MAX_REQUEST_HEAD_BYTES {
        ReadStep::Failed(LoopbackError::MalformedRequest)
    } else {
        ReadStep::ReadMore
    }
}

/// Decide what follows a read of `last_read` bytes into `buf`.
pub fn read_step(buf: &[u8], last_read: usize) -> (r: ReadStep)
    ensures
        r == spec_read_step(buf@, last_read as nat),
{
    if last_read == 0 {
        return ReadStep::Failed(LoopbackError::Io("eof"));
    }
    let n = buf.len();
    let mut i: usize = 0;
    while n >= 4 && i <= n - 4
        invariant
            n == buf@.len(),
            i <= n,
            last_read != 0,
            forall|j: int|
                0 <= j < i && j + 4 <= n ==> !(#[trigger] buf@[j] == 13u8 && buf@[j + 1] == 10u8
                    && buf@[j + 2] == 13u8 && buf@[j + 3] == 10u8),
        decreases n - i,
    {
        if buf[i] == 13u8 && buf[i + 1] == 10u8 && buf[i + 2] == 13u8 && buf[i + 3] == 10u8 {
            assert(buf@[i as int] == 13u8 && buf@[i + 1] == 10u8);
            assert(has_head_end(buf@));
            return ReadStep::HeadComplete;
        }
        i = i + 1;
    }
    assert(!has_head_end(buf@));
    if n > MAX_REQUEST_HEAD_BYTES {
        ReadStep::Failed(LoopbackError::MalformedRequest)
    } else {
        ReadStep::ReadMore
    }
}

/// The answer to one callback request: the response to write back (none
/// when the request could not be read as HTTP), and what the callback
/// yields.
pub struct CallbackReply {
    /// The HTTP response to send, if any.
    pub response: Option<String>,
    /// The authorization code, or why there is none.
    pub result: Result<AuthCode, LoopbackError>,
}

/// Answer a complete request head `buf`: it must be UTF-8 and a `GET` of
/// `/callback` whose query passes [`parse_callback`]. A request that is
/// not HTTP gets no page; a wrong path or a refused callback gets the
/// failure page; a good one gets the success page and yields its code.
pub fn answer_callback_request(buf: Vec<u8>, expected_state: &str) -> (reply: CallbackReply)
    ensures
        !valid_utf8(buf@) ==> reply.response is None && reply.result == Err::<
            AuthCode,
            LoopbackError,
        >(LoopbackError::MalformedRequest),
        valid_utf8(buf@) ==> match spec_parse_http_request(decode_utf8(buf@)) {
            None => reply.response is None && reply.result == Err::<AuthCode, LoopbackError>(
                LoopbackError::MalformedRequest,
            ),
            Some((_m, path, query)) => if path != "/callback"@ {
                &&& reply.response matches Some(h) && h@ == spec_callback_response(false)
                &&& reply.result matches Err(LoopbackError::WrongPath(p)) && p@ == path
            } else {
                match spec_parse_callback(query, expected_state@) {
                    Ok(c) => {
                        &&& reply.response matches Some(h) && h@ == spec_callback_response(true)
                        &&& reply.result matches Ok(code) && code@ == c
                    },
                    Err(e) => {
                        &&& reply.response matches Some(h) && h@ == spec_callback_response(false)
                        &&& reply.result == Err::<AuthCode, LoopbackError>(
                            spec_map_callback_error(e),
                        )
                    },
                }
            },
        },
{
    let text = match string_from_utf8(buf) {
        Some(t) => t,
        None => {
            return CallbackReply { response: None, result: Err(LoopbackError::MalformedRequest) };
        },
    };
    let req = match parse_http_request(text.as_str()) {
        Ok(r) => r,
        Err(e) => {
            return CallbackReply { response: None, result: Err(e) };
        },
    };
    if !str_eq(req.path.as_str(), "/callback") {
        return CallbackReply {
            response: Some(callback_response_html(false)),
            result: Err(LoopbackError::WrongPath(req.path)),
        };
    }
    match parse_callback(req.query.as_str(), expected_state) {
        Ok(code) => CallbackReply { response: Some(callback_response_html(true)), result: Ok(code) },
        Err(e) => CallbackReply {
            response: Some(callback_response_html(false)),
            result: Err(map_callback_error(e)),
        },
    }
}

} // verus!
