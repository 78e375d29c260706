//! Track ids, track URIs, the `/v1/me/library/contains` response and the
//! one-mutation-at-a-time latch of the unified `/v1/me/library` calls.

use vstd::prelude::*;
use vstd::string::StringSliceAdditionalSpecFns;

use crate::spotify::client::form_post;
use crate::spotify::client::refresh_pairs;
use crate::spotify::client::spec_status_error;
use crate::spotify::client::map_status_error;
use crate::spotify::client::HttpCategory;
use crate::spotify::client::HttpMethod;
use crate::spotify::client::HttpOutcome;
use crate::spotify::client::HttpRequest;
use crate::spotify::client::HttpRequestView;
use crate::spotify::client::SpotifyApiError;
use crate::spotify::client::SpotifyClient;
use crate::spotify::json::opt_chars;
use crate::spotify::keyring::TokenStore;
use crate::spotify::types::alphanumeric;
use crate::spotify::types::all_bytes;
use crate::spotify::types::is_alphanumeric;
use crate::text::all_whitespace;
use crate::text::chars_eq;
use crate::text::is_whitespace;
use crate::text::lemma_trim_padded;
use crate::text::chars_of;
use crate::text::find;
use crate::text::find_char;
use crate::text::find_from;
use crate::text::lemma_find_from;
use crate::text::owned;
use crate::text::trim;
use crate::text::trim_bounds;

verus! {

broadcast use vstd::string::group_string_axioms;

// ---------------------------------------------------------------------------
// Track ID and URI helpers
// ---------------------------------------------------------------------------

/// Reasons a candidate track id may be rejected.
#[derive(Debug, Clone, Copy, PartialEq, Eq)]
pub enum TrackIdError {
    /// Empty input.
    Empty,
    /// Track id longer than 64 bytes.
    TooLong,
    /// Track id contains a byte outside `[A-Za-z0-9]`.
    InvalidCharacters,
}

impl TrackIdError {
    /// The user-facing text of the error (what `Display` gives).
    pub fn message(&self) -> (m: String)
        ensures
            m@ == (match *self {
                TrackIdError::Empty => "track id is empty"@,
                TrackIdError::TooLong => "track id is too long"@,
                TrackIdError::InvalidCharacters => "track id has invalid characters"@,
            }),
    {
        match self {
            TrackIdError::Empty => owned("track id is empty"),
            TrackIdError::TooLong => owned("track id is too long"),
            TrackIdError::InvalidCharacters => owned("track id has invalid characters"),
        }
    }
}

/// A track id: 1 to 64 ASCII letters and digits.
pub open spec fn is_track_id(bs: Seq<u8>) -> bool {
    1 <= bs.len() <= 64 && all_bytes(bs, |b: u8| is_alphanumeric(b))
}

/// What `validate_track_id` decides for a candidate with bytes `bs`.
pub open spec fn spec_track_id_check(bs: Seq<u8>) -> Result<(), TrackIdError> {
    if bs.len() == 0 {
        Err(TrackIdError::Empty)
    } else if bs.len() > 64 {
        Err(TrackIdError::TooLong)
    } else if !all_bytes(bs, |b: u8| is_alphanumeric(b)) {
        Err(TrackIdError::InvalidCharacters)
    } else {
        Ok(())
    }
}

/// Validate a Spotify track id. Returns the same slice on success.
///
/// A Spotify track id is a 22-character base62 string; the slightly wider
/// `[A-Za-z0-9]{1,64}` is accepted.
pub fn validate_track_id(id: &str) -> (r: Result<&str, TrackIdError>)
    ensures
        match spec_track_id_check(id.spec_bytes()) {
            Ok(()) => r == Ok::<&str, TrackIdError>(id),
            Err(e) => r == Err::<&str, TrackIdError>(e),
        },
{
    let bs = id.as_bytes();
    if bs.len() == 0 {
        return Err(TrackIdError::Empty);
    }
    if bs.len() > 64 {
        return Err(TrackIdError::TooLong);
    }
    let mut i: usize = 0;
    while i < bs.len()
        invariant
            i <= bs@.len(),
            1 <= bs@.len() <= 64,
            bs@ == id.spec_bytes(),
            forall|j: int| 0 <= j < i ==> is_alphanumeric(#[trigger] bs@[j]),
        decreases bs.len() - i,
    {
        if !alphanumeric(bs[i]) {
            assert(!(|b: u8| is_alphanumeric(b))(bs@[i as int]));
            return Err(TrackIdError::InvalidCharacters);
        }
        i = i + 1;
    }
    assert(all_bytes(bs@, |b: u8| is_alphanumeric(b)));
    Ok(id)
}

/// The canonical `spotify:track:{id}` URI of a track id.
pub open spec fn spec_track_uri(id: Seq<char>) -> Seq<char> {
    "spotify:track:"@ + id
}

/// Build the canonical `spotify:track:{id}` URI for a validated track id.
pub fn build_track_uri(track_id: &str) -> (r: Result<String, TrackIdError>)
    ensures
        match spec_track_id_check(track_id.spec_bytes()) {
            Ok(()) => r matches Ok(u) && u@ == spec_track_uri(track_id@),
            Err(e) => r == Err::<String, TrackIdError>(e),
        },
{
    let id = validate_track_id(track_id)?;
    let mut uri = owned("spotify:track:");
    uri.append(id);
    Ok(uri)
}

// ---------------------------------------------------------------------------
// Response parsing
// ---------------------------------------------------------------------------

/// Reasons a `/v1/me/library/contains` response may be rejected.
#[derive(Debug, Clone, Copy, PartialEq, Eq)]
pub enum ContainsError {
    /// Body was not valid JSON.
    InvalidJson,
    /// Body was not a JSON array.
    NotAnArray,
    /// Body had the wrong number of elements.
    WrongLength,
    /// An element was not a boolean.
    NotABool,
    /// Body was empty.
    Empty,
}

impl ContainsError {
    /// The user-facing text of the error (what `Display` gives).
    pub fn message(&self) -> (m: String)
        ensures
            m@ == (match *self {
                ContainsError::InvalidJson => "invalid JSON"@,
                ContainsError::NotAnArray => "not a JSON array"@,
                ContainsError::WrongLength => "wrong number of elements"@,
                ContainsError::NotABool => "element is not a boolean"@,
                ContainsError::Empty => "empty body"@,
            }),
    {
        match self {
            ContainsError::InvalidJson => owned("invalid JSON"),
            ContainsError::NotAnArray => owned("not a JSON array"),
            ContainsError::WrongLength => owned("wrong number of elements"),
            ContainsError::NotABool => owned("element is not a boolean"),
            ContainsError::Empty => owned("empty body"),
        }
    }
}

/// What a `/v1/me/library/contains` body says: `[true]` or `[false]` (with
/// any surrounding whitespace), or a bare `true` / `false`.
pub open spec fn spec_parse_contains(raw: Seq<char>) -> Result<bool, ContainsError> {
    let body = trim(raw);
    if body.len() == 0 {
        Err(ContainsError::Empty)
    } else if body == "true"@ {
        Ok(true)
    } else if body == "false"@ {
        Ok(false)
    } else if body[0] != '[' || body.last() != ']' {
        Err(ContainsError::NotAnArray)
    } else {
        let inner = trim(body.subrange(1, body.len() - 1));
        if inner.len() == 0 {
            Err(ContainsError::Empty)
        } else if find(inner, ',') is Some {
            Err(ContainsError::WrongLength)
        } else if inner == "true"@ {
            Ok(true)
        } else if inner == "false"@ {
            Ok(false)
        } else {
            Err(ContainsError::NotABool)
        }
    }
}

/// The contains reader treats `true` and `false` alike: with any
/// whitespace around the body and inside the brackets, `[true]` reads as
/// saved and `[false]` as not saved, and so do the bare words.
pub proof fn law_contains_reads_either_word(
    outer_a: Seq<char>,
    inner_a: Seq<char>,
    inner_b: Seq<char>,
    outer_b: Seq<char>,
)
    requires
        all_whitespace(outer_a),
        all_whitespace(inner_a),
        all_whitespace(inner_b),
        all_whitespace(outer_b),
    ensures
        spec_parse_contains(outer_a + ("["@ + inner_a + "true"@ + inner_b + "]"@) + outer_b) == Ok::<
            bool,
            ContainsError,
        >(true),
        spec_parse_contains(outer_a + ("["@ + inner_a + "false"@ + inner_b + "]"@) + outer_b)
            == Ok::<bool, ContainsError>(false),
        spec_parse_contains(outer_a + "true"@ + outer_b) == Ok::<bool, ContainsError>(true),
        spec_parse_contains(outer_a + "false"@ + outer_b) == Ok::<bool, ContainsError>(false),
{
    reveal_strlit("true");
    reveal_strlit("false");
    reveal_strlit("[");
    reveal_strlit("]");
    lemma_contains_word(outer_a, inner_a, inner_b, outer_b, "true"@);
    lemma_contains_word(outer_a, inner_a, inner_b, outer_b, "false"@);
    lemma_trim_padded(outer_a, "true"@, outer_b);
    lemma_trim_padded(outer_a, "false"@, outer_b);
}

proof fn lemma_contains_word(
    outer_a: Seq<char>,
    inner_a: Seq<char>,
    inner_b: Seq<char>,
    outer_b: Seq<char>,
    word: Seq<char>,
)
    requires
        all_whitespace(outer_a),
        all_whitespace(inner_a),
        all_whitespace(inner_b),
        all_whitespace(outer_b),
        word == "true"@ || word == "false"@,
    ensures
        spec_parse_contains(outer_a + ("["@ + inner_a + word + inner_b + "]"@) + outer_b)
            == if word == "true"@ {
            Ok::<bool, ContainsError>(true)
        } else {
            Ok::<bool, ContainsError>(false)
        },
{
    reveal_strlit("true");
    reveal_strlit("false");
    reveal_strlit("[");
    reveal_strlit("]");
    let body = "["@ + inner_a + word + inner_b + "]"@;
    assert(body[0] == '[');
    assert(body.last() == ']');
    assert(word[0] != ',' && !is_whitespace(word[0]) && !is_whitespace(word.last()));
    lemma_trim_padded(outer_a, body, outer_b);
    assert(body != "true"@ && body != "false"@) by {
        assert(body[0] != "true"@[0] && body[0] != "false"@[0]);
    }
    assert(body.subrange(1, body.len() - 1) =~= inner_a + word + inner_b);
    lemma_trim_padded(inner_a, word, inner_b);
    lemma_find_from(word, ',', 0);
    assert(find(word, ',') is None);
    assert("false"@ != "true"@) by {
        assert("false"@.len() != "true"@.len());
    }
}

/// Parse a `/v1/me/library/contains` response body. Cosmictify only ever
/// asks about one URI, so exactly one boolean is expected.
pub fn parse_contains(body: &str) -> (r: Result<bool, ContainsError>)
    ensures
        r == spec_parse_contains(body@),
{
    let v = chars_of(body);
    let (a, b) = trim_bounds(v.as_slice());
    let ghost t = v@.subrange(a as int, b as int);
    if a == b {
        return Err(ContainsError::Empty);
    }
    if chars_eq(v.as_slice(), a, b, "true") {
        return Ok(true);
    }
    if chars_eq(v.as_slice(), a, b, "false") {
        return Ok(false);
    }
    if v[a] != '[' || v[b - 1] != ']' {
        assert(t[0] == v@[a as int] && t.last() == v@[b - 1]);
        return Err(ContainsError::NotAnArray);
    }
    assert(t[0] == '[' && t.last() == ']');
    if b - a < 2 {
        assert(t.len() == 1);
        assert(false);
    }
    let inner_v = &v[a + 1..b - 1];
    assert(inner_v@ =~= t.subrange(1, t.len() - 1));
    let (c, d) = trim_bounds(inner_v);
    let ghost inner = inner_v@.subrange(c as int, d as int);
    if c == d {
        return Err(ContainsError::Empty);
    }
    let comma = find_char(inner_v, c, d, ',');
    proof {
        assert(inner_v@.subrange(0, d as int).subrange(c as int, d as int) =~= inner);
        lemma_find_from(inner, ',', 0);
        lemma_find_from(inner_v@.subrange(0, d as int), ',', c as int);
        if comma is Some {
            let k = comma->0 as int;
            assert(inner[k - c] == ',');
        } else {
            assert forall|j: int| 0 <= j < inner.len() implies inner[j] != ',' by {
                assert(inner[j] == inner_v@.subrange(0, d as int)[j + c]);
            }
        }
    }
    if comma.is_some() {
        return Err(ContainsError::WrongLength);
    }
    if chars_eq(inner_v, c, d, "true") {
        return Ok(true);
    }
    if chars_eq(inner_v, c, d, "false") {
        return Ok(false);
    }
    Err(ContainsError::NotABool)
}

// ---------------------------------------------------------------------------
// Mutation latch
// ---------------------------------------------------------------------------

/// Take the "one library mutation in flight" latch: true when it was free
/// (and is now taken), false when another mutation holds it.
pub fn try_acquire_mutation(latch: &mut bool) -> (acquired: bool)
    ensures
        *final(latch),
        acquired == !*old(latch),
{
    let prev = *latch;
    *latch = true;
    !prev
}

/// Release the mutation latch.
pub fn release_mutation(latch: &mut bool)
    ensures
        !*final(latch),
{
    *latch = false;
}

// ---------------------------------------------------------------------------
// Library calls
// ---------------------------------------------------------------------------

/// The URL that `url::Url::parse(base)` gives once `key=value` is appended
/// to its query with `query_pairs_mut().append_pair`, serialized; `None`
/// when `base` does not parse as a URL.
pub uninterp spec fn url_with_query_pair(base: Seq<char>, key: Seq<char>, value: Seq<char>) -> Option<
    Seq<char>,
>;

/// `url::Url::parse`, then `query_pairs_mut().append_pair(key, value)`,
/// then the URL as a string: named `url_with_query_pair` of the arguments.
#[verifier::external_body]
fn append_query_pair(base: &str, key: &str, value: &str) -> (r: Option<String>)
    ensures
        opt_chars(r) == url_with_query_pair(base@, key@, value@),
{
    match url::Url::parse(base) {
        Ok(mut u) => {
            u.query_pairs_mut().append_pair(key, value);
            Some(String::from(u))
        },
        Err(_) => None,
    }
}

/// The three `/v1/me/library` calls.
#[derive(Debug, Clone, Copy, PartialEq, Eq)]
pub enum LibraryOp {
    /// `GET /me/library/contains?uris=...`: is the track saved?
    Contains,
    /// `PUT /me/library?uris=...`: save the track.
    Save,
    /// `DELETE /me/library?uris=...`: remove the track.
    Remove,
}

/// The path of a library call below the Web API base.
pub open spec fn library_path(op: LibraryOp) -> Seq<char> {
    match op {
        LibraryOp::Contains => "/me/library/contains"@,
        _ => "/me/library"@,
    }
}

/// The HTTP method of a library call.
pub open spec fn library_method(op: LibraryOp) -> HttpMethod {
    match op {
        LibraryOp::Contains => HttpMethod::Get,
        LibraryOp::Save => HttpMethod::Put,
        LibraryOp::Remove => HttpMethod::Delete,
    }
}

/// A library call to `url` authorized with the access token `token`; the
/// mutations carry an explicit zero `Content-Length`.
pub open spec fn library_request_view(op: LibraryOp, url: Seq<char>, token: Seq<char>) -> HttpRequestView {
    HttpRequestView {
        method: library_method(op),
        url,
        headers: if op is Contains {
            seq![("Authorization"@, "Bearer "@ + token)]
        } else {
            seq![("Authorization"@, "Bearer "@ + token), ("Content-Length"@, "0"@)]
        },
        body: None,
    }
}

/// Every library request, whatever the call, is sent to the call's URL
/// without a body and carries `Authorization: Bearer` with the access
/// token; a check reads, a save puts and a remove deletes, the two
/// mutations saying they send nothing.
pub proof fn law_library_requests_are_authorized(op: LibraryOp, url: Seq<char>, token: Seq<char>)
    ensures
        library_request_view(op, url, token).url == url,
        library_request_view(op, url, token).body is None,
        exists|i: int|
            0 <= i < library_request_view(op, url, token).headers.len()
                && #[trigger] library_request_view(op, url, token).headers[i] == (
                "Authorization"@,
                "Bearer "@ + token,
            ),
        op is Contains ==> library_request_view(op, url, token).method == HttpMethod::Get,
        op is Save ==> library_request_view(op, url, token).method == HttpMethod::Put,
        op is Remove ==> library_request_view(op, url, token).method == HttpMethod::Delete,
        !(op is Contains) ==> exists|i: int|
            0 <= i < library_request_view(op, url, token).headers.len()
                && #[trigger] library_request_view(op, url, token).headers[i] == (
                "Content-Length"@,
                "0"@,
            ),
{
    let h = library_request_view(op, url, token).headers;
    assert(h[0] == ("Authorization"@, "Bearer "@ + token));
    if !(op is Contains) {
        assert(h[1] == ("Content-Length"@, "0"@));
    }
}

fn library_request(op: LibraryOp, url: &str, token: &str) -> (r: HttpRequest)
    ensures
        r@ == library_request_view(op, url@, token@),
{
    let mut bearer = owned("Bearer ");
    bearer.append(token);
    let mut headers: Vec<(String, String)> = Vec::new();
    headers.push((owned("Authorization"), bearer));
    let method = match op {
        LibraryOp::Contains => HttpMethod::Get,
        LibraryOp::Save => {
            headers.push((owned("Content-Length"), owned("0")));
            HttpMethod::Put
        },
        LibraryOp::Remove => {
            headers.push((owned("Content-Length"), owned("0")));
            HttpMethod::Delete
        },
    };
    let r = HttpRequest { method, url: owned(url), headers, body: None };
    assert(r@.headers =~= library_request_view(op, url@, token@).headers);
    r
}

/// What a library response with a success `status` says: for `Contains`
/// the parsed body (an unreadable body, or one that does not parse, is an
/// error; a 5xx then counts as a server error); for the mutations, that
/// any 2xx status succeeded.
pub open spec fn spec_library_response(op: LibraryOp, status: u16, body: Option<String>) -> Result<
    Option<bool>,
    SpotifyApiError,
> {
    match op {
        LibraryOp::Contains => match body {
            None => Err(SpotifyApiError::Malformed("contains_body_read")),
            Some(b) => match spec_parse_contains(b@) {
                Ok(v) => Ok(Some(v)),
                Err(e) => if 500 <= status < 600 {
                    Err(SpotifyApiError::Http { status, category: HttpCategory::Server })
                } else if e is Empty {
                    Err(SpotifyApiError::Malformed("contains_empty"))
                } else {
                    Err(SpotifyApiError::Malformed("contains_response"))
                },
            },
        },
        _ => if 200 <= status < 300 {
            Ok(None)
        } else {
            Err(SpotifyApiError::Http { status, category: HttpCategory::Client })
        },
    }
}

/// What a library call's outcome yields, when no refresh is attempted.
pub open spec fn spec_attempt_result(op: LibraryOp, o: HttpOutcome) -> Result<Option<bool>, SpotifyApiError> {
    match o {
        HttpOutcome::Response { status, body } => spec_library_response(op, status, body),
        HttpOutcome::Status { status, retry_after } => Err(
            spec_status_error(status, opt_chars(retry_after)),
        ),
        HttpOutcome::Transport => Err(SpotifyApiError::Transport("request_failed")),
    }
}

fn attempt_result(op: LibraryOp, o: HttpOutcome) -> (r: Result<Option<bool>, SpotifyApiError>)
    ensures
        r == spec_attempt_result(op, o),
{
    match o {
        HttpOutcome::Response { status, body } => match op {
            LibraryOp::Contains => match body {
                None => Err(SpotifyApiError::Malformed("contains_body_read")),
                Some(b) => match parse_contains(b.as_str()) {
                    Ok(v) => Ok(Some(v)),
                    Err(e) => if 500 <= status && status < 600 {
                        Err(SpotifyApiError::Http { status, category: HttpCategory::Server })
                    } else {
                        match e {
                            ContainsError::Empty => Err(SpotifyApiError::Malformed("contains_empty")),
                            _ => Err(SpotifyApiError::Malformed("contains_response")),
                        }
                    },
                },
            },
            _ => if 200 <= status && status < 300 {
                Ok(None)
            } else {
                Err(SpotifyApiError::Http { status, category: HttpCategory::Client })
            },
        },
        HttpOutcome::Status { status, retry_after } => Err(map_status_error(status, &retry_after)),
        HttpOutcome::Transport => Err(SpotifyApiError::Transport("request_failed")),
    }
}

/// A failing outcome with status 401.
pub open spec fn is_unauthorized_status(o: HttpOutcome) -> bool {
    match o {
        HttpOutcome::Status { status, .. } => status == 401,
        _ => false,
    }
}

/// A success outcome with status 401.
pub open spec fn is_unauthorized_response(o: HttpOutcome) -> bool {
    match o {
        HttpOutcome::Response { status, .. } => status == 401,
        _ => false,
    }
}

/// Where a library call stands.
#[derive(Debug, Clone, Copy, PartialEq, Eq)]
pub enum LibraryStage {
    /// Waiting for the outcome of the first request.
    FirstAttempt,
    /// The first request was refused with 401: waiting for the token
    /// endpoint's answer to the refresh.
    Refreshing,
    /// Waiting for the outcome of the request sent again with the
    /// refreshed access token.
    Retry,
    /// The call is over.
    Finished,
}

/// The stages in the order a call goes through them.
pub open spec fn stage_rank(s: LibraryStage) -> int {
    match s {
        LibraryStage::FirstAttempt => 0,
        LibraryStage::Refreshing => 1,
        LibraryStage::Retry => 2,
        LibraryStage::Finished => 3,
    }
}

proof fn lemma_ranks_grow(stages: Seq<LibraryStage>, i: int)
    requires
        0 <= i < stages.len(),
        forall|j: int|
            0 <= j < stages.len() - 1 ==> stage_rank(#[trigger] stages[j]) < stage_rank(
                stages[j + 1],
            ),
    ensures
        stage_rank(stages[i]) >= stage_rank(stages[0]) + i,
    decreases i,
{
    if i > 0 {
        lemma_ranks_grow(stages, i - 1);
    }
}

/// A library call sends at most three requests. The stages a call goes
/// through strictly increase in rank ([`SpotifyClient::step_library_call`]
/// ensures it for every step), so they number at most four, and only the
/// last can be finished: a request goes out from each of the others.
pub proof fn law_at_most_three_requests(stages: Seq<LibraryStage>)
    requires
        forall|j: int|
            0 <= j < stages.len() - 1 ==> stage_rank(#[trigger] stages[j]) < stage_rank(
                stages[j + 1],
            ),
    ensures
        stages.len() <= 4,
        forall|j: int| 0 <= j < stages.len() - 1 ==> !(#[trigger] stages[j] is Finished),
{
    if stages.len() > 4 {
        lemma_ranks_grow(stages, 4);
    }
    assert forall|j: int| 0 <= j < stages.len() - 1 implies !(#[trigger] stages[j] is Finished) by {
        assert(stage_rank(stages[j]) < stage_rank(stages[j + 1]));
    }
}

/// The mutation latch across the start of a library call: a call that
/// ends at once leaves it as it was; one that goes on has taken it when it
/// is a save or remove (which needs it free).
pub open spec fn latch_after_start(op: LibraryOp, before: bool, after: bool, finished: bool) -> bool {
    if finished {
        after == before
    } else if op is Contains {
        after == before
    } else {
        !before && after
    }
}

/// The mutation latch across one step of a library call: a save or remove
/// that ends releases it; every other step leaves it as it was.
pub open spec fn latch_after_step(op: LibraryOp, before: bool, after: bool, finished: bool) -> bool {
    if finished && !(op is Contains) {
        !after
    } else {
        after == before
    }
}

proof fn lemma_latch_unchanged(
    op: LibraryOp,
    latches: Seq<bool>,
    finished: Seq<bool>,
    i: int,
)
    requires
        op is Contains,
        latches.len() == finished.len() + 1,
        1 <= i <= finished.len(),
        latch_after_start(op, latches[0], latches[1], finished[0]),
        forall|j: int|
            1 <= j < finished.len() ==> latch_after_step(
                op,
                #[trigger] latches[j],
                latches[j + 1],
                finished[j],
            ),
    ensures
        latches[i] == latches[0],
    decreases i,
{
    if i > 1 {
        lemma_latch_unchanged(op, latches, finished, i - 1);
        assert(latch_after_step(op, latches[i - 1], latches[i], finished[i - 1]));
    }
}

/// The mutation latch through one library call started with it free, step
/// by step: a call that goes on after its start holds the latch exactly
/// when it is a save or remove; a step that does not end the call keeps
/// the latch as it was; the step that ends such a call leaves the latch
/// free, and so does a start that ends the call at once.
pub proof fn law_latch_through_a_call(
    op: LibraryOp,
    running: bool,
    next: bool,
    ended: bool,
)
    ensures
        latch_after_start(op, false, running, false) ==> running == !(op is Contains),
        latch_after_step(op, running, next, false) ==> next == running,
        running == !(op is Contains) && latch_after_step(op, running, ended, true) ==> !ended,
        latch_after_start(op, false, ended, true) ==> !ended,
{
}

/// A whole library call leaves no mutation in flight: started with the
/// latch free and driven until it finishes, the latch is free again,
/// whether the call succeeded or failed. `latches` are the latch before
/// the start and after each of the start and the steps; `finished` says
/// whether each of them ended the call.
pub proof fn law_call_leaves_no_mutation_in_flight(
    op: LibraryOp,
    latches: Seq<bool>,
    finished: Seq<bool>,
)
    requires
        finished.len() >= 1,
        latches.len() == finished.len() + 1,
        !latches[0],
        latch_after_start(op, latches[0], latches[1], finished[0]),
        forall|j: int|
            1 <= j < finished.len() ==> latch_after_step(
                op,
                #[trigger] latches[j],
                latches[j + 1],
                finished[j],
            ),
        forall|j: int| 0 <= j < finished.len() - 1 ==> !(#[trigger] finished[j]),
        finished.last(),
    ensures
        !latches.last(),
{
    let n = finished.len() as int;
    if op is Contains {
        lemma_latch_unchanged(op, latches, finished, n);
    } else if n > 1 {
        assert(latch_after_step(op, latches[n - 1], latches[n], finished[n - 1]));
    }
}

/// A library call in progress.
#[derive(Debug)]
pub struct LibraryCall {
    /// Which call.
    pub op: LibraryOp,
    /// The request URL, track URI included.
    pub url: String,
    /// Where the call stands.
    pub stage: LibraryStage,
    /// The refresh token sent while refreshing.
    pub refresh_token: String,
}

/// What to do next for a library call.
#[derive(Debug)]
pub enum LibraryAction {
    /// Send this request and hand its outcome to
    /// [`SpotifyClient::step_library_call`].
    Send(HttpRequest),
    /// The call is over: `Contains` yields `Some(saved)`, the mutations
    /// `None`.
    Finish(Result<Option<bool>, SpotifyApiError>),
}

/// End `call` with `r`, releasing the mutation latch of a save or remove.
fn finish_call(
    call: &mut LibraryCall,
    latch: &mut bool,
    r: Result<Option<bool>, SpotifyApiError>,
) -> (a: LibraryAction)
    ensures
        a == LibraryAction::Finish(r),
        final(call).stage is Finished,
        final(call).op == old(call).op,
        final(call).url == old(call).url,
        old(call).op is Contains ==> *final(latch) == *old(latch),
        !(old(call).op is Contains) ==> !*final(latch),
{
    call.stage = LibraryStage::Finished;
    match call.op {
        LibraryOp::Contains => {},
        _ => release_mutation(latch),
    }
    LibraryAction::Finish(r)
}

impl<S: TokenStore> SpotifyClient<S> {
    /// The URL of a library call about the track `uri`: the Web API base,
    /// the call's path, and `uris=<uri>` form-encoded in the query.
    fn library_url(&self, op: LibraryOp, uri: &str) -> (r: Option<String>)
        ensures
            opt_chars(r) == url_with_query_pair(
                self.spec_api_base() + library_path(op),
                "uris"@,
                uri@,
            ),
    {
        let mut base = owned(self.api_base());
        match op {
            LibraryOp::Contains => base.append("/me/library/contains"),
            _ => base.append("/me/library"),
        }
        append_query_pair(base.as_str(), "uris", uri)
    }

    /// Start a library call about `track_id`. An invalid track id ends it
    /// at once; `None` when the Web API base does not parse as a URL. A
    /// save or remove takes the one-mutation-in-flight `latch` (and ends
    /// with `mutation_in_flight` when it is taken); without tokens the call
    /// ends with `Refresh("no_token")`; otherwise the first request goes
    /// out with the current access token.
    pub fn start_library_call(&self, op: LibraryOp, track_id: &str, latch: &mut bool) -> (r:
        Option<(LibraryCall, LibraryAction)>)
        ensures
            r matches Some((_c, a)) ==> latch_after_start(op, *old(latch), *final(latch), a is Finish),
            r is None ==> *final(latch) == *old(latch),
            match spec_track_id_check(track_id.spec_bytes()) {
                Err(_) => r matches Some((c, a)) && c.op == op && c.stage is Finished && a
                    == LibraryAction::Finish(
                    Err(SpotifyApiError::Malformed("invalid_track_id")),
                ) && *final(latch) == *old(latch),
                Ok(()) => match url_with_query_pair(
                    self.spec_api_base() + library_path(op),
                    "uris"@,
                    spec_track_uri(track_id@),
                ) {
                    None => r is None && *final(latch) == *old(latch),
                    Some(url) => r matches Some((c, a)) && c.op == op && c.url@ == url && if !(
                    op is Contains) && *old(latch) {
                        &&& c.stage is Finished
                        &&& a == LibraryAction::Finish(
                            Err(SpotifyApiError::Malformed("mutation_in_flight")),
                        )
                        &&& *final(latch)
                    } else {
                        match self.spec_tokens() {
                            None => {
                                &&& c.stage is Finished
                                &&& a == LibraryAction::Finish(
                                    Err(SpotifyApiError::Refresh("no_token")),
                                )
                                &&& *final(latch) == *old(latch)
                            },
                            Some(t) => {
                                &&& c.stage is FirstAttempt
                                &&& a matches LibraryAction::Send(req) && req@ == library_request_view(
                                    op,
                                    url,
                                    t.access_token@,
                                )
                                &&& *final(latch) == (*old(latch) || !(op is Contains))
                            },
                        }
                    },
                },
            },
    {
        let uri = match build_track_uri(track_id) {
            Ok(u) => u,
            Err(_) => {
                let call = LibraryCall {
                    op,
                    url: String::new(),
                    stage: LibraryStage::Finished,
                    refresh_token: String::new(),
                };
                return Some(
                    (call, LibraryAction::Finish(Err(SpotifyApiError::Malformed("invalid_track_id")))),
                );
            },
        };
        let url = match self.library_url(op, uri.as_str()) {
            Some(u) => u,
            None => return None,
        };
        let mutation = match op {
            LibraryOp::Contains => false,
            _ => true,
        };
        if mutation && !try_acquire_mutation(latch) {
            let call = LibraryCall {
                op,
                url,
                stage: LibraryStage::Finished,
                refresh_token: String::new(),
            };
            return Some(
                (call, LibraryAction::Finish(Err(SpotifyApiError::Malformed("mutation_in_flight")))),
            );
        }
        match self.current_tokens() {
            None => {
                if mutation {
                    release_mutation(latch);
                }
                let call = LibraryCall {
                    op,
                    url,
                    stage: LibraryStage::Finished,
                    refresh_token: String::new(),
                };
                Some((call, LibraryAction::Finish(Err(SpotifyApiError::Refresh("no_token")))))
            },
            Some(t) => {
                let req = library_request(op, url.as_str(), t.access_token.as_str());
                let call = LibraryCall {
                    op,
                    url,
                    stage: LibraryStage::FirstAttempt,
                    refresh_token: String::new(),
                };
                Some((call, LibraryAction::Send(req)))
            },
        }
    }

    /// Advance a library call with the `outcome` of the request it sent.
    ///
    /// A 401 on the first request triggers exactly one refresh (with the
    /// refresh token on file), then exactly one retry with the refreshed
    /// access token; a 401 on the retry asks for re-authorization. Every
    /// step moves the call to a later stage, so a call sends at most three
    /// requests; a save or remove releases the latch when it ends.
    pub fn step_library_call(
        &mut self,
        call: &mut LibraryCall,
        outcome: HttpOutcome,
        latch: &mut bool,
    ) -> (a: LibraryAction)
        requires
            !(old(call).stage is Finished),
        ensures
            final(call).op == old(call).op,
            final(call).url == old(call).url,
            stage_rank(final(call).stage) > stage_rank(old(call).stage),
            final(call).stage is Finished <==> a is Finish,
            latch_after_step(old(call).op, *old(latch), *final(latch), a is Finish),
            a is Finish && !(old(call).op is Contains) ==> !*final(latch),
            !(a is Finish && !(old(call).op is Contains)) ==> *final(latch) == *old(latch),
            old(call).stage is FirstAttempt ==> {
                &&& *final(self) == *old(self)
                &&& if is_unauthorized_status(outcome) {
                    match old(self).spec_tokens() {
                        None => a == LibraryAction::Finish(
                            Err(SpotifyApiError::Refresh("no_token")),
                        ),
                        Some(t) => if t.refresh_token matches Some(rt) && rt@.len() > 0 {
                            &&& final(call).stage is Refreshing
                            &&& final(call).refresh_token@ == t.refresh_token->0@
                            &&& a matches LibraryAction::Send(req) && req@ == form_post(
                                old(self).spec_token_url(),
                                refresh_pairs(t.refresh_token->0@, old(self).spec_client_id()),
                            )
                        } else {
                            a == LibraryAction::Finish(
                                Err(SpotifyApiError::Refresh("no_refresh_token")),
                            )
                        },
                    }
                } else {
                    a == LibraryAction::Finish(spec_attempt_result(old(call).op, outcome))
                }
            },
            old(call).stage is Refreshing ==> {
                ||| {
                    &&& a matches LibraryAction::Send(req) && req@ == library_request_view(
                        old(call).op,
                        old(call).url@,
                        final(self).spec_tokens()->0.access_token@,
                    )
                    &&& final(call).stage is Retry
                    &&& SpotifyClient::<S>::token_round_trip(
                        *old(self),
                        *final(self),
                        outcome,
                        Some(old(call).refresh_token@),
                        Ok(final(self).spec_tokens()->0),
                    )
                }
                ||| {
                    &&& a matches LibraryAction::Finish(Err(e))
                    &&& SpotifyClient::<S>::token_round_trip(
                        *old(self),
                        *final(self),
                        outcome,
                        Some(old(call).refresh_token@),
                        Err(e),
                    )
                }
            },
            old(call).stage is Retry ==> {
                &&& *final(self) == *old(self)
                &&& a == LibraryAction::Finish(
                    if is_unauthorized_response(outcome) {
                        Err(SpotifyApiError::Refresh("reauth_required"))
                    } else {
                        spec_attempt_result(old(call).op, outcome)
                    },
                )
            },
    {
        let op = call.op;
        match call.stage {
            LibraryStage::FirstAttempt => {
                let unauthorized = match &outcome {
                    HttpOutcome::Status { status, .. } => *status == 401,
                    _ => false,
                };
                if unauthorized {
                    match self.refresh_token_to_use() {
                        Ok(rt) => {
                            let req = self.refresh_request(rt.as_str());
                            call.stage = LibraryStage::Refreshing;
                            call.refresh_token = rt;
                            LibraryAction::Send(req)
                        },
                        Err(e) => finish_call(call, latch, Err(e)),
                    }
                } else {
                    let r = attempt_result(op, outcome);
                    finish_call(call, latch, r)
                }
            },
            LibraryStage::Refreshing => {
                match self.finish_refresh(call.refresh_token.as_str(), outcome) {
                    Ok(t) => {
                        let req = library_request(op, call.url.as_str(), t.access_token.as_str());
                        call.stage = LibraryStage::Retry;
                        LibraryAction::Send(req)
                    },
                    Err(e) => finish_call(call, latch, Err(e)),
                }
            },
            LibraryStage::Retry => {
                let unauthorized = match &outcome {
                    HttpOutcome::Response { status, .. } => *status == 401,
                    _ => false,
                };
                if unauthorized {
                    finish_call(call, latch, Err(SpotifyApiError::Refresh("reauth_required")))
                } else {
                    let r = attempt_result(op, outcome);
                    finish_call(call, latch, r)
                }
            },
            LibraryStage::Finished => vstd::pervasive::unreached(),
        }
    }
}

} // verus!
