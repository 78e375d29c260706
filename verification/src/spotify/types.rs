//! Pure Spotify types: endpoints, scopes, PKCE verifier, auth code, OAuth
//! state and `TokenSet`. Nothing in this file performs network, keyring or
//! UI work; randomness, hashing and the wall clock come in through the
//! trusted wrappers at the end of the file.

use vstd::prelude::*;
use vstd::string::StringSliceAdditionalSpecFns;
use vstd::utf8::encode_utf8;
use vstd::utf8::is_ascii_chars;
use vstd::utf8::is_ascii_chars_encode_utf8;

use base64::engine::general_purpose::URL_SAFE_NO_PAD;
use base64::Engine as _;
use rand::rngs::OsRng;
use rand::RngCore;
use sha2::Digest;
use sha2::Sha256;

use crate::text::decimal;
use crate::text::owned;
use crate::text::push_decimal;
use crate::text::push_signed_decimal;
use crate::text::signed_decimal;

verus! {

broadcast use vstd::string::group_string_axioms;

/// Spotify authorization endpoint.
pub const SPOTIFY_AUTH_URL: &'static str = "https://accounts.spotify.com/authorize";

/// Spotify token endpoint.
pub const SPOTIFY_TOKEN_URL: &'static str = "https://accounts.spotify.com/api/token";

/// Loopback redirect URI registered in the user's Spotify Developer app.
pub const REDIRECT_URI: &'static str = "http://127.0.0.1:43821/callback";

/// Scopes Cosmictify needs to check and toggle the user's library.
pub const REQUIRED_SCOPES: &'static str = "user-library-read user-library-modify";

/// Refresh the access token this many seconds before its reported expiry.
pub const REFRESH_SAFETY_MARGIN_SECS: u64 = 60;

/// Length of a Spotify Client ID (32 hex characters).
pub const CLIENT_ID_LEN: usize = 32;

// ---------------------------------------------------------------------------
// Byte classes
// ---------------------------------------------------------------------------

/// `u8::is_ascii_hexdigit`.
pub open spec fn is_hex_digit(b: u8) -> bool {
    (48 <= b <= 57) || (65 <= b <= 70) || (97 <= b <= 102)
}

/// `u8::is_ascii_alphanumeric`.
pub open spec fn is_alphanumeric(b: u8) -> bool {
    (48 <= b <= 57) || (65 <= b <= 90) || (97 <= b <= 122)
}

/// RFC 7636 unreserved characters: `[A-Za-z0-9-._~]`.
pub open spec fn is_unreserved(b: u8) -> bool {
    is_alphanumeric(b) || b == 45 || b == 46 || b == 95 || b == 126
}

/// Every byte of `bs` satisfies the class `class`.
pub open spec fn all_bytes(bs: Seq<u8>, class: spec_fn(u8) -> bool) -> bool {
    forall|i: int| 0 <= i < bs.len() ==> #[trigger] class(bs[i])
}

fn hex_digit(b: u8) -> (r: bool)
    ensures
        r == is_hex_digit(b),
{
    (48 <= b && b <= 57) || (65 <= b && b <= 70) || (97 <= b && b <= 102)
}

/// `u8::is_ascii_alphanumeric`.
pub fn alphanumeric(b: u8) -> (r: bool)
    ensures
        r == is_alphanumeric(b),
{
    (48 <= b && b <= 57) || (65 <= b && b <= 90) || (97 <= b && b <= 122)
}

fn unreserved(b: u8) -> (r: bool)
    ensures
        r == is_unreserved(b),
{
    alphanumeric(b) || b == 45 || b == 46 || b == 95 || b == 126
}

fn all_hex(bs: &[u8]) -> (r: bool)
    ensures
        r == all_bytes(bs@, |b: u8| is_hex_digit(b)),
{
    let mut i: usize = 0;
    while i < bs.len()
        invariant
            i <= bs@.len(),
            forall|j: int| 0 <= j < i ==> is_hex_digit(#[trigger] bs@[j]),
        decreases bs.len() - i,
    {
        if !hex_digit(bs[i]) {
            assert(!(|b: u8| is_hex_digit(b))(bs@[i as int]));
            return false;
        }
        i = i + 1;
    }
    true
}

fn all_unreserved(bs: &[u8]) -> (r: bool)
    ensures
        r == all_bytes(bs@, |b: u8| is_unreserved(b)),
{
    let mut i: usize = 0;
    while i < bs.len()
        invariant
            i <= bs@.len(),
            forall|j: int| 0 <= j < i ==> is_unreserved(#[trigger] bs@[j]),
        decreases bs.len() - i,
    {
        if !unreserved(bs[i]) {
            assert(!(|b: u8| is_unreserved(b))(bs@[i as int]));
            return false;
        }
        i = i + 1;
    }
    true
}

fn all_visible(bs: &[u8]) -> (r: bool)
    ensures
        r == all_bytes(bs@, |b: u8| 0x21 <= b <= 0x7e),
{
    let mut i: usize = 0;
    while i < bs.len()
        invariant
            i <= bs@.len(),
            forall|j: int| 0 <= j < i ==> 0x21 <= #[trigger] bs@[j] <= 0x7e,
        decreases bs.len() - i,
    {
        if !(0x21 <= bs[i] && bs[i] <= 0x7e) {
            assert(!(|b: u8| 0x21 <= b <= 0x7e)(bs@[i as int]));
            return false;
        }
        i = i + 1;
    }
    true
}

// ---------------------------------------------------------------------------
// Client ID validation
// ---------------------------------------------------------------------------

/// Reasons a candidate Client ID string may be rejected.
#[derive(Debug, Clone, Copy, PartialEq, Eq)]
pub enum ClientIdError {
    /// Wrong number of bytes (expected exactly 32).
    InvalidLength,
    /// Length is fine but a byte is not `[0-9a-fA-F]`.
    InvalidFormat,
}

/// A Spotify Client ID: exactly 32 ASCII hex digits.
pub open spec fn is_client_id(bs: Seq<u8>) -> bool {
    bs.len() == 32 && all_bytes(bs, |b: u8| is_hex_digit(b))
}

/// Validate a Spotify Client ID. Returns the same slice on success.
pub fn validate_client_id(s: &str) -> (r: Result<&str, ClientIdError>)
    ensures
        s.spec_bytes().len() != 32 ==> r == Err::<&str, _>(ClientIdError::InvalidLength),
        s.spec_bytes().len() == 32 && !is_client_id(s.spec_bytes()) ==> r == Err::<&str, _>(
            ClientIdError::InvalidFormat,
        ),
        is_client_id(s.spec_bytes()) ==> r == Ok::<&str, ClientIdError>(s),
{
    if s.as_bytes().len() != CLIENT_ID_LEN {
        return Err(ClientIdError::InvalidLength);
    }
    if !all_hex(s.as_bytes()) {
        return Err(ClientIdError::InvalidFormat);
    }
    Ok(s)
}

// ---------------------------------------------------------------------------
// PKCE verifier (RFC 7636 section 4.1)
// ---------------------------------------------------------------------------

/// Reasons a PKCE verifier may be rejected.
#[derive(Debug, Clone, PartialEq, Eq)]
pub enum PkceError {
    /// Length is outside the allowed `[43, 128]` byte range.
    InvalidLength,
    /// A byte is outside the RFC 7636 unreserved-character alphabet.
    InvalidAlphabet,
}

/// A valid PKCE verifier: 43 to 128 unreserved ASCII characters.
pub open spec fn is_pkce_verifier(bs: Seq<u8>) -> bool {
    43 <= bs.len() <= 128 && all_bytes(bs, |b: u8| is_unreserved(b))
}

/// PKCE code verifier (RFC 7636 section 4.1).
#[derive(Debug)]
pub struct PkceVerifier(String);

impl View for PkceVerifier {
    type V = Seq<char>;

    closed spec fn view(&self) -> Seq<char> {
        self.0@
    }
}

impl Clone for PkceVerifier {
    fn clone(&self) -> (r: Self)
        ensures
            r@ == self@,
    {
        proof {
            use_type_invariant(self);
        }
        PkceVerifier(self.0.clone())
    }
}

impl PkceVerifier {
    #[verifier::type_invariant]
    closed spec fn inv(self) -> bool {
        is_pkce_verifier(encode_utf8(self.0@))
    }

    /// Build a verifier from a candidate string. Validates length, then alphabet.
    pub fn new(s: &str) -> (r: Result<Self, PkceError>)
        ensures
            !(43 <= s.spec_bytes().len() <= 128) ==> r == Err::<Self, _>(PkceError::InvalidLength),
            43 <= s.spec_bytes().len() <= 128 && !is_pkce_verifier(s.spec_bytes()) ==> r == Err::<
                Self,
                _,
            >(PkceError::InvalidAlphabet),
            is_pkce_verifier(s.spec_bytes()) <==> r is Ok,
            r matches Ok(v) ==> v@ == s@,
    {
        let len: usize = s.as_bytes().len();
        if !(43 <= len && len <= 128) {
            return Err(PkceError::InvalidLength);
        }
        if !all_unreserved(s.as_bytes()) {
            return Err(PkceError::InvalidAlphabet);
        }
        Ok(PkceVerifier(owned(s)))
    }

    /// The verifier made from 64 random bytes: their unpadded base64url
    /// encoding, 86 characters of the URL-safe alphabet.
    pub fn from_random_bytes(bytes: &[u8]) -> (v: Self)
        requires
            bytes@.len() == 64,
        ensures
            v@ == base64url_nopad(bytes@),
            encode_utf8(v@).len() == 86,
            forall|i: int| 0 <= i < v@.len() ==> is_base64url_char(#[trigger] v@[i]),
    {
        let encoded = base64url_encode(bytes);
        proof {
            lemma_base64url_shape(bytes@);
            lemma_base64url_bytes(encoded@);
        }
        PkceVerifier(encoded)
    }

    /// Generate a fresh verifier from 64 bytes of OS randomness (see
    /// [`Self::from_random_bytes`]); `None` when the operating system
    /// cannot supply randomness.
    pub fn generate() -> (v: Option<Self>)
        ensures
            v matches Some(pv) ==> exists|b: Seq<u8>|
                b.len() == 64 && pv@ == #[trigger] base64url_nopad(b),
    {
        match os_random_bytes(64) {
            Some(buf) => {
                let v = PkceVerifier::from_random_bytes(buf.as_slice());
                assert(buf@.len() == 64 && v@ == base64url_nopad(buf@));
                Some(v)
            },
            None => None,
        }
    }

    /// The S256 challenge (RFC 7636 section 4.2): `BASE64URL(SHA256(verifier))`
    /// without padding.
    pub fn challenge_s256(&self) -> (c: String)
        ensures
            c@ == base64url_nopad(sha256(encode_utf8(self@))),
    {
        let digest = sha256_digest(self.0.as_str().as_bytes());
        base64url_encode(digest.as_slice())
    }

    /// Raw verifier string. Send this to Spotify in the token exchange.
    pub fn as_str(&self) -> (s: &str)
        ensures
            s@ == self@,
            is_pkce_verifier(s.spec_bytes()),
    {
        proof {
            use_type_invariant(self);
        }
        self.0.as_str()
    }
}

// ---------------------------------------------------------------------------
// Authorization code
// ---------------------------------------------------------------------------

/// Reasons an authorization code may be rejected.
#[derive(Debug, Clone, PartialEq, Eq)]
pub enum AuthCodeError {
    /// Empty input.
    Empty,
    /// Input is longer than 512 bytes; Spotify never returns codes this big.
    TooLong,
    /// Input contains a byte outside the visible ASCII range `0x21..=0x7e`.
    InvalidEncoding,
}

/// A plausible authorization code: 1 to 512 visible ASCII bytes.
pub open spec fn is_auth_code(bs: Seq<u8>) -> bool {
    1 <= bs.len() <= 512 && all_bytes(bs, |b: u8| 0x21 <= b <= 0x7e)
}

/// Spotify authorization code returned on the callback URL.
#[derive(Debug)]
pub struct AuthCode(String);

impl View for AuthCode {
    type V = Seq<char>;

    closed spec fn view(&self) -> Seq<char> {
        self.0@
    }
}

impl Clone for AuthCode {
    fn clone(&self) -> (r: Self)
        ensures
            r@ == self@,
    {
        proof {
            use_type_invariant(self);
        }
        AuthCode(self.0.clone())
    }
}

impl AuthCode {
    #[verifier::type_invariant]
    closed spec fn inv(self) -> bool {
        is_auth_code(encode_utf8(self.0@))
    }

    /// Build an auth code from a candidate string.
    pub fn new(s: &str) -> (r: Result<Self, AuthCodeError>)
        ensures
            s.spec_bytes().len() == 0 ==> r == Err::<Self, _>(AuthCodeError::Empty),
            s.spec_bytes().len() > 512 ==> r == Err::<Self, _>(AuthCodeError::TooLong),
            1 <= s.spec_bytes().len() <= 512 && !is_auth_code(s.spec_bytes()) ==> r == Err::<
                Self,
                _,
            >(AuthCodeError::InvalidEncoding),
            is_auth_code(s.spec_bytes()) <==> r is Ok,
            r matches Ok(c) ==> c@ == s@,
    {
        if s.as_bytes().len() == 0 {
            return Err(AuthCodeError::Empty);
        }
        if s.as_bytes().len() > 512 {
            return Err(AuthCodeError::TooLong);
        }
        if !all_visible(s.as_bytes()) {
            return Err(AuthCodeError::InvalidEncoding);
        }
        Ok(AuthCode(owned(s)))
    }

    /// The raw code.
    pub fn as_str(&self) -> (s: &str)
        ensures
            s@ == self@,
            is_auth_code(s.spec_bytes()),
    {
        proof {
            use_type_invariant(self);
        }
        self.0.as_str()
    }
}

// ---------------------------------------------------------------------------
// OAuth state (RFC 6749 section 10.12)
// ---------------------------------------------------------------------------

/// Reasons an OAuth state value may be rejected.
#[derive(Debug, Clone, PartialEq, Eq)]
pub enum OAuthStateError {
    /// Length is outside `[8, 128]`.
    InvalidLength,
    /// A byte is outside the unreserved-character alphabet.
    InvalidAlphabet,
}

/// A valid state value: 8 to 128 unreserved ASCII characters.
pub open spec fn is_oauth_state(bs: Seq<u8>) -> bool {
    8 <= bs.len() <= 128 && all_bytes(bs, |b: u8| is_unreserved(b))
}

/// Opaque state value used to bind the callback to the originating request.
#[derive(Debug)]
pub struct OAuthState(String);

impl View for OAuthState {
    type V = Seq<char>;

    closed spec fn view(&self) -> Seq<char> {
        self.0@
    }
}

impl Clone for OAuthState {
    fn clone(&self) -> (r: Self)
        ensures
            r@ == self@,
    {
        proof {
            use_type_invariant(self);
        }
        OAuthState(self.0.clone())
    }
}

impl OAuthState {
    #[verifier::type_invariant]
    closed spec fn inv(self) -> bool {
        is_oauth_state(encode_utf8(self.0@))
    }

    /// Build a state from a candidate string. Validates length, then alphabet.
    pub fn new(s: &str) -> (r: Result<Self, OAuthStateError>)
        ensures
            !(8 <= s.spec_bytes().len() <= 128) ==> r == Err::<Self, _>(
                OAuthStateError::InvalidLength,
            ),
            8 <= s.spec_bytes().len() <= 128 && !is_oauth_state(s.spec_bytes()) ==> r == Err::<
                Self,
                _,
            >(OAuthStateError::InvalidAlphabet),
            is_oauth_state(s.spec_bytes()) <==> r is Ok,
            r matches Ok(st) ==> st@ == s@,
    {
        let len: usize = s.as_bytes().len();
        if !(8 <= len && len <= 128) {
            return Err(OAuthStateError::InvalidLength);
        }
        if !all_unreserved(s.as_bytes()) {
            return Err(OAuthStateError::InvalidAlphabet);
        }
        Ok(OAuthState(owned(s)))
    }

    /// The state made from 16 random bytes: their unpadded base64url
    /// encoding, 22 characters of the URL-safe alphabet.
    pub fn from_random_bytes(bytes: &[u8]) -> (st: Self)
        requires
            bytes@.len() == 16,
        ensures
            st@ == base64url_nopad(bytes@),
            encode_utf8(st@).len() == 22,
            forall|i: int| 0 <= i < st@.len() ==> is_base64url_char(#[trigger] st@[i]),
    {
        let encoded = base64url_encode(bytes);
        proof {
            lemma_base64url_shape(bytes@);
            lemma_base64url_bytes(encoded@);
        }
        OAuthState(encoded)
    }

    /// Generate a fresh state from 16 bytes of OS randomness (see
    /// [`Self::from_random_bytes`]); `None` when the operating system
    /// cannot supply randomness.
    pub fn generate() -> (st: Option<Self>)
        ensures
            st matches Some(s) ==> exists|b: Seq<u8>|
                b.len() == 16 && s@ == #[trigger] base64url_nopad(b),
    {
        match os_random_bytes(16) {
            Some(buf) => {
                let st = OAuthState::from_random_bytes(buf.as_slice());
                assert(buf@.len() == 16 && st@ == base64url_nopad(buf@));
                Some(st)
            },
            None => None,
        }
    }

    /// The raw state value.
    pub fn as_str(&self) -> (s: &str)
        ensures
            s@ == self@,
            is_oauth_state(s.spec_bytes()),
    {
        proof {
            use_type_invariant(self);
        }
        self.0.as_str()
    }
}

// ---------------------------------------------------------------------------
// Wall-clock timestamps
// ---------------------------------------------------------------------------

/// A wall-clock instant: whole seconds since the UNIX epoch (negative
/// before it) and the nanoseconds within that second, as a Unix
/// `SystemTime` holds it.
#[derive(Clone, Copy, Debug, PartialEq, Eq, PartialOrd, Ord, Hash)]
pub struct Timestamp {
    pub secs: i64,
    pub nanos: u32,
}

/// `a` is strictly earlier than `b`.
pub open spec fn before(a: Timestamp, b: Timestamp) -> bool {
    a.secs < b.secs || (a.secs == b.secs && a.nanos < b.nanos)
}

impl Timestamp {
    /// The UNIX epoch.
    pub fn epoch() -> (t: Timestamp)
        ensures
            t == (Timestamp { secs: 0, nanos: 0 }),
    {
        Timestamp { secs: 0, nanos: 0 }
    }

    /// The current wall clock.
    pub fn now() -> (t: Timestamp)
        ensures
            t.nanos < 1_000_000_000,
    {
        Timestamp::from_epoch_offset(wall_clock_since_epoch())
    }

    /// The instant `secs.nanos` after the epoch (`Ok`) or before it
    /// (`Err`), as `SystemTime::duration_since(UNIX_EPOCH)` reports it;
    /// out-of-range seconds are clamped and out-of-range nanoseconds
    /// dropped.
    pub fn from_epoch_offset(offset: Result<(u64, u32), (u64, u32)>) -> (t: Timestamp)
        ensures
            t == spec_from_epoch_offset(offset),
            t.nanos < 1_000_000_000,
    {
        match offset {
            Ok((secs, nanos)) => {
                let s: i64 = if secs <= i64::MAX as u64 {
                    secs as i64
                } else {
                    i64::MAX
                };
                Timestamp { secs: s, nanos: if nanos < 1_000_000_000 { nanos } else { 0 } }
            },
            Err((secs, nanos)) => {
                let s: i64 = if secs < i64::MAX as u64 {
                    -(secs as i64)
                } else {
                    -i64::MAX
                };
                if nanos == 0 || nanos >= 1_000_000_000 {
                    Timestamp { secs: s, nanos: 0 }
                } else {
                    Timestamp { secs: s - 1, nanos: 1_000_000_000 - nanos }
                }
            },
        }
    }

    /// The instant as an offset from the epoch: `Ok` at or after it, `Err`
    /// (the distance back) before it.
    pub fn epoch_offset(&self) -> (r: Result<(u64, u32), (u64, u32)>)
        requires
            self.nanos < 1_000_000_000,
        ensures
            r == spec_epoch_offset(*self),
    {
        if self.secs >= 0 {
            Ok((self.secs as u64, self.nanos))
        } else if self.nanos == 0 {
            Err(((-(self.secs as i128)) as u64, 0))
        } else {
            Err(((-(self.secs as i128) - 1) as u64, 1_000_000_000 - self.nanos))
        }
    }

    /// `self` plus `secs` whole seconds, if it stays representable.
    pub fn checked_add_secs(self, secs: u64) -> (r: Option<Timestamp>)
        ensures
            self.secs + secs <= i64::MAX ==> r == Some(
                Timestamp { secs: (self.secs + secs) as i64, nanos: self.nanos },
            ),
            self.secs + secs > i64::MAX ==> r is None,
    {
        let t: i128 = self.secs as i128 + secs as i128;
        if t <= i64::MAX as i128 {
            Some(Timestamp { secs: t as i64, nanos: self.nanos })
        } else {
            None
        }
    }

    /// `self` minus `secs` whole seconds, if it stays representable.
    pub fn checked_sub_secs(self, secs: u64) -> (r: Option<Timestamp>)
        ensures
            self.secs - secs >= i64::MIN ==> r == Some(
                Timestamp { secs: (self.secs - secs) as i64, nanos: self.nanos },
            ),
            self.secs - secs < i64::MIN ==> r is None,
    {
        let t: i128 = self.secs as i128 - secs as i128;
        if t >= i64::MIN as i128 {
            Some(Timestamp { secs: t as i64, nanos: self.nanos })
        } else {
            None
        }
    }
}

/// The instant at an offset from the epoch (see
/// [`Timestamp::from_epoch_offset`]).
pub open spec fn spec_from_epoch_offset(offset: Result<(u64, u32), (u64, u32)>) -> Timestamp {
    match offset {
        Ok((secs, nanos)) => Timestamp {
            secs: if secs <= i64::MAX {
                secs as i64
            } else {
                i64::MAX
            },
            nanos: if nanos < 1_000_000_000 {
                nanos
            } else {
                0
            },
        },
        Err((secs, nanos)) => {
            let s: int = if secs < i64::MAX {
                -secs
            } else {
                -i64::MAX
            };
            if nanos == 0 || nanos >= 1_000_000_000 {
                Timestamp { secs: s as i64, nanos: 0 }
            } else {
                Timestamp { secs: (s - 1) as i64, nanos: (1_000_000_000 - nanos) as u32 }
            }
        },
    }
}

/// The offset from the epoch of an instant.
pub open spec fn spec_epoch_offset(t: Timestamp) -> Result<(u64, u32), (u64, u32)> {
    if t.secs >= 0 {
        Ok((t.secs as u64, t.nanos))
    } else if t.nanos == 0 {
        Err(((-t.secs) as u64, 0u32))
    } else {
        Err(((-t.secs - 1) as u64, (1_000_000_000 - t.nanos) as u32))
    }
}

/// Storing an instant as its offset from the epoch and reading it back
/// gives the same instant, for every instant with valid nanoseconds but
/// the lowest representable whole second.
pub proof fn law_epoch_offset_round_trip(t: Timestamp)
    requires
        t.nanos < 1_000_000_000,
        !(t.secs == i64::MIN && t.nanos == 0),
    ensures
        spec_from_epoch_offset(spec_epoch_offset(t)) == t,
{
}

/// The UNIX epoch, the `obtained_at` of a token set whose stored form
/// carries none.
pub fn epoch() -> (t: Timestamp)
    ensures
        t == (Timestamp { secs: 0, nanos: 0 }),
{
    Timestamp::epoch()
}

// ---------------------------------------------------------------------------
// Token set
// ---------------------------------------------------------------------------

/// Spotify token response (RFC 6749 section 5.1 plus Spotify extensions),
/// with the local instant at which it was received.
#[derive(PartialEq, Eq)]
pub struct TokenSet {
    pub access_token: String,
    pub token_type: String,
    /// Lifetime of the access token in seconds.
    pub expires_in: u64,
    pub refresh_token: Option<String>,
    pub scope: Option<String>,
    pub obtained_at: Timestamp,
}

/// A copy of an optional string.
pub fn clone_opt_string(s: &Option<String>) -> (r: Option<String>)
    ensures
        r == *s,
{
    match s {
        Some(v) => Some(v.clone()),
        None => None,
    }
}

impl Clone for TokenSet {
    fn clone(&self) -> (r: Self)
        ensures
            r == *self,
    {
        TokenSet {
            access_token: self.access_token.clone(),
            token_type: self.token_type.clone(),
            expires_in: self.expires_in,
            refresh_token: clone_opt_string(&self.refresh_token),
            scope: clone_opt_string(&self.scope),
            obtained_at: self.obtained_at,
        }
    }
}

/// The instant at which a token set obtained at `obtained` with lifetime
/// `expires_in` seconds expires, when representable.
pub open spec fn spec_expires_at(obtained: Timestamp, expires_in: u64) -> Timestamp {
    Timestamp { secs: (obtained.secs + expires_in) as i64, nanos: obtained.nanos }
}

/// The instant at which a refresh is due: the safety margin before expiry,
/// or the instant the tokens were obtained if that subtraction leaves the
/// representable range.
pub open spec fn spec_refresh_due_at(obtained: Timestamp, expires_in: u64) -> Timestamp {
    let exp = spec_expires_at(obtained, expires_in);
    if exp.secs - REFRESH_SAFETY_MARGIN_SECS >= i64::MIN {
        Timestamp { secs: (exp.secs - REFRESH_SAFETY_MARGIN_SECS) as i64, nanos: exp.nanos }
    } else {
        obtained
    }
}

/// A token set whose expiry instant is representable.
pub open spec fn expiry_representable(t: TokenSet) -> bool {
    t.obtained_at.secs + t.expires_in <= i64::MAX
}

impl TokenSet {
    /// Build a token set with `obtained_at` set to the current wall clock.
    pub fn new_now(
        access_token: &str,
        token_type: &str,
        expires_in: u64,
        refresh_token: Option<String>,
        scope: Option<String>,
    ) -> (t: Self)
        ensures
            t.access_token@ == access_token@,
            t.token_type@ == token_type@,
            t.expires_in == expires_in,
            t.refresh_token == refresh_token,
            t.scope == scope,
            t.obtained_at.nanos < 1_000_000_000,
    {
        TokenSet {
            access_token: owned(access_token),
            token_type: owned(token_type),
            expires_in,
            refresh_token,
            scope,
            obtained_at: Timestamp::now(),
        }
    }

    /// Wall-clock instant when the access token expires.
    pub fn expires_at(&self) -> (t: Timestamp)
        requires
            expiry_representable(*self),
        ensures
            t == spec_expires_at(self.obtained_at, self.expires_in),
    {
        match self.obtained_at.checked_add_secs(self.expires_in) {
            Some(t) => t,
            None => self.obtained_at,
        }
    }

    /// Wall-clock instant at which a refresh should be triggered.
    pub fn refresh_due_at(&self) -> (t: Timestamp)
        requires
            expiry_representable(*self),
        ensures
            t == spec_refresh_due_at(self.obtained_at, self.expires_in),
    {
        match self.expires_at().checked_sub_secs(REFRESH_SAFETY_MARGIN_SECS) {
            Some(t) => t,
            None => self.obtained_at,
        }
    }

    /// True when a non-empty refresh token is present.
    pub fn has_refresh_token(&self) -> (b: bool)
        ensures
            b == (self.refresh_token matches Some(r) && r@.len() > 0),
    {
        match &self.refresh_token {
            Some(r) => !r.as_str().is_empty(),
            None => false,
        }
    }
}

// ---------------------------------------------------------------------------
// Redacted debug form
// ---------------------------------------------------------------------------

/// What `format!("{:?}", s)` gives for a string `s`: the string quoted,
/// with the standard library's debug escapes.
pub uninterp spec fn debug_quoted(s: Seq<char>) -> Seq<char>;

/// `format!("{:?}", s)` for a string: named `debug_quoted` of it.
#[verifier::external_body]
fn debug_str(s: &str) -> (r: String)
    ensures
        r@ == debug_quoted(s@),
{
    format!("{:?}", s)
}

/// The debug form of an instant, as a Unix `SystemTime` prints itself.
pub open spec fn spec_timestamp_debug(t: Timestamp) -> Seq<char> {
    "SystemTime { tv_sec: "@ + signed_decimal(t.secs as int) + ", tv_nsec: "@ + decimal(
        t.nanos as nat,
    ) + " }"@
}

/// The debug form of an optional string.
pub open spec fn opt_debug(o: Option<String>) -> Seq<char> {
    match o {
        Some(s) => "Some("@ + debug_quoted(s@) + ")"@,
        None => "None"@,
    }
}

/// The debug form of a token set: its shape and non-secret fields, with
/// both tokens replaced by a redaction marker.
pub open spec fn spec_token_set_debug(t: TokenSet) -> Seq<char> {
    "TokenSet { access_token: Redacted(\"<redacted>\"), token_type: "@ + debug_quoted(
        t.token_type@,
    ) + ", expires_in: "@ + decimal(t.expires_in as nat)
        + ", refresh_token: Redacted(\"<redacted>\"), scope: "@ + opt_debug(t.scope)
        + ", obtained_at: "@ + spec_timestamp_debug(t.obtained_at) + " }"@
}

impl TokenSet {
    /// The debug form of the token set, for logs: the access and refresh
    /// tokens never appear in it.
    pub fn debug_string(&self) -> (s: String)
        ensures
            s@ == spec_token_set_debug(*self),
    {
        let mut s = owned("TokenSet { access_token: Redacted(\"<redacted>\"), token_type: ");
        let tt = debug_str(self.token_type.as_str());
        s.append(tt.as_str());
        s.append(", expires_in: ");
        push_decimal(&mut s, self.expires_in);
        s.append(", refresh_token: Redacted(\"<redacted>\"), scope: ");
        match &self.scope {
            Some(sc) => {
                s.append("Some(");
                let q = debug_str(sc.as_str());
                s.append(q.as_str());
                s.append(")");
            },
            None => s.append("None"),
        }
        s.append(", obtained_at: ");
        s.append("SystemTime { tv_sec: ");
        push_signed_decimal(&mut s, self.obtained_at.secs);
        s.append(", tv_nsec: ");
        push_decimal(&mut s, self.obtained_at.nanos as u64);
        s.append(" }");
        s.append(" }");
        assert(s@ =~= spec_token_set_debug(*self));
        s
    }
}

/// The debug form of a token set does not depend on its access or
/// refresh token: two token sets that differ only there print alike.
pub proof fn law_debug_form_hides_tokens(a: TokenSet, b: TokenSet)
    requires
        a.token_type == b.token_type,
        a.expires_in == b.expires_in,
        a.scope == b.scope,
        a.obtained_at == b.obtained_at,
    ensures
        spec_token_set_debug(a) == spec_token_set_debug(b),
{
}

/// The refresh instant is strictly before the expiry instant, unless the
/// tokens have a zero lifetime and sit so early that the margin cannot be
/// subtracted.
pub proof fn law_refresh_due_before_expiry(t: TokenSet)
    requires
        expiry_representable(t),
        t.expires_in > 0 || t.obtained_at.secs >= i64::MIN + REFRESH_SAFETY_MARGIN_SECS,
    ensures
        before(
            spec_refresh_due_at(t.obtained_at, t.expires_in),
            spec_expires_at(t.obtained_at, t.expires_in),
        ),
{
}

// ---------------------------------------------------------------------------
// Authorize URL parameters
// ---------------------------------------------------------------------------

/// The parameters that go into `build_authorize_url`.
#[derive(Clone, Debug)]
pub struct AuthorizeUrlParams {
    pub client_id: String,
    pub state: OAuthState,
    pub code_challenge: String,
    pub scopes: String,
    pub redirect_uri: String,
}

impl AuthorizeUrlParams {
    /// Begin building parameters with the loopback-flow defaults.
    pub fn builder() -> (b: AuthorizeUrlParamsBuilder)
        ensures
            b.client_id is None,
            b.state is None,
            b.code_challenge is None,
            b.scopes is None,
            b.redirect_uri is None,
    {
        AuthorizeUrlParamsBuilder {
            client_id: None,
            state: None,
            code_challenge: None,
            scopes: None,
            redirect_uri: None,
        }
    }
}

/// Convenience builder for `AuthorizeUrlParams`.
pub struct AuthorizeUrlParamsBuilder {
    pub client_id: Option<String>,
    pub state: Option<OAuthState>,
    pub code_challenge: Option<String>,
    pub scopes: Option<String>,
    pub redirect_uri: Option<String>,
}

impl AuthorizeUrlParamsBuilder {
    pub fn client_id(self, v: &str) -> (b: Self)
        ensures
            b.client_id matches Some(c) && c@ == v@,
            b.state == self.state,
            b.code_challenge == self.code_challenge,
            b.scopes == self.scopes,
            b.redirect_uri == self.redirect_uri,
    {
        AuthorizeUrlParamsBuilder { client_id: Some(owned(v)), ..self }
    }

    pub fn state(self, v: OAuthState) -> (b: Self)
        ensures
            b.client_id == self.client_id,
            b.state == Some(v),
            b.code_challenge == self.code_challenge,
            b.scopes == self.scopes,
            b.redirect_uri == self.redirect_uri,
    {
        AuthorizeUrlParamsBuilder { state: Some(v), ..self }
    }

    pub fn code_challenge(self, v: &str) -> (b: Self)
        ensures
            b.client_id == self.client_id,
            b.state == self.state,
            b.code_challenge matches Some(c) && c@ == v@,
            b.scopes == self.scopes,
            b.redirect_uri == self.redirect_uri,
    {
        AuthorizeUrlParamsBuilder { code_challenge: Some(owned(v)), ..self }
    }

    /// Override the default scopes. Default is [`REQUIRED_SCOPES`].
    pub fn scopes(self, v: &str) -> (b: Self)
        ensures
            b.client_id == self.client_id,
            b.state == self.state,
            b.code_challenge == self.code_challenge,
            b.scopes matches Some(c) && c@ == v@,
            b.redirect_uri == self.redirect_uri,
    {
        AuthorizeUrlParamsBuilder { scopes: Some(owned(v)), ..self }
    }

    /// Override the default redirect URI. Default is [`REDIRECT_URI`].
    pub fn redirect_uri(self, v: &str) -> (b: Self)
        ensures
            b.client_id == self.client_id,
            b.state == self.state,
            b.code_challenge == self.code_challenge,
            b.scopes == self.scopes,
            b.redirect_uri matches Some(c) && c@ == v@,
    {
        AuthorizeUrlParamsBuilder { redirect_uri: Some(owned(v)), ..self }
    }

    /// The parameters; scopes and redirect URI fall back to their defaults.
    pub fn build(self) -> (p: AuthorizeUrlParams)
        requires
            self.client_id is Some,
            self.state is Some,
            self.code_challenge is Some,
        ensures
            p.client_id == self.client_id->0,
            p.state == self.state->0,
            p.code_challenge == self.code_challenge->0,
            p.scopes@ == (match self.scopes {
                Some(s) => s@,
                None => REQUIRED_SCOPES@,
            }),
            p.redirect_uri@ == (match self.redirect_uri {
                Some(s) => s@,
                None => REDIRECT_URI@,
            }),
    {
        let scopes = match self.scopes {
            Some(s) => s,
            None => owned(REQUIRED_SCOPES),
        };
        let redirect_uri = match self.redirect_uri {
            Some(s) => s,
            None => owned(REDIRECT_URI),
        };
        AuthorizeUrlParams {
            client_id: self.client_id.unwrap(),
            state: self.state.unwrap(),
            code_challenge: self.code_challenge.unwrap(),
            scopes,
            redirect_uri,
        }
    }
}

// ---------------------------------------------------------------------------
// Randomness, hashing, encoding and the clock
// ---------------------------------------------------------------------------

/// The base64url alphabet without padding: `[A-Za-z0-9-_]`.
pub open spec fn is_base64url_char(c: char) -> bool {
    ('A' <= c <= 'Z') || ('a' <= c <= 'z') || ('0' <= c <= '9') || c == '-' || c == '_'
}

/// The digit of the base64url alphabet for the six-bit value `v`.
pub open spec fn base64url_digit(v: int) -> char {
    if v < 26 {
        (65 + v) as char
    } else if v < 52 {
        (97 + (v - 26)) as char
    } else if v < 62 {
        (48 + (v - 52)) as char
    } else if v == 62 {
        '-'
    } else {
        '_'
    }
}

/// The unpadded base64url encoding (RFC 4648, section 5) of `data`: each
/// group of three bytes gives four digits of six bits each, read from the
/// high bits; a last group of two bytes gives three digits and a last
/// single byte two, the missing low bits being zero.
pub open spec fn base64url_nopad(data: Seq<u8>) -> Seq<char>
    decreases data.len(),
{
    if data.len() == 0 {
        seq![]
    } else if data.len() == 1 {
        let a = data[0] as int;
        seq![base64url_digit(a / 4), base64url_digit((a % 4) * 16)]
    } else if data.len() == 2 {
        let a = data[0] as int;
        let b = data[1] as int;
        seq![
            base64url_digit(a / 4),
            base64url_digit((a % 4) * 16 + b / 16),
            base64url_digit((b % 16) * 4),
        ]
    } else {
        let a = data[0] as int;
        let b = data[1] as int;
        let c = data[2] as int;
        seq![
            base64url_digit(a / 4),
            base64url_digit((a % 4) * 16 + b / 16),
            base64url_digit((b % 16) * 4 + c / 64),
            base64url_digit(c % 64),
        ] + base64url_nopad(data.subrange(3, data.len() as int))
    }
}

/// Every digit of a six-bit value is in the base64url alphabet.
proof fn lemma_base64url_digit(v: int)
    requires
        0 <= v < 64,
    ensures
        is_base64url_char(base64url_digit(v)),
{
}

/// The encoding of `n` bytes has `ceil(4n / 3)` digits, all of them in the
/// base64url alphabet.
pub proof fn lemma_base64url_shape(data: Seq<u8>)
    ensures
        base64url_nopad(data).len() == (4 * data.len() + 2) / 3,
        forall|i: int|
            0 <= i < base64url_nopad(data).len() ==> is_base64url_char(
                #[trigger] base64url_nopad(data)[i],
            ),
    decreases data.len(),
{
    if data.len() == 0 {
    } else if data.len() == 1 {
        let a = data[0] as int;
        lemma_base64url_digit(a / 4);
        lemma_base64url_digit((a % 4) * 16);
    } else if data.len() == 2 {
        let a = data[0] as int;
        let b = data[1] as int;
        lemma_base64url_digit(a / 4);
        lemma_base64url_digit((a % 4) * 16 + b / 16);
        lemma_base64url_digit((b % 16) * 4);
    } else {
        let a = data[0] as int;
        let b = data[1] as int;
        let c = data[2] as int;
        let rest = data.subrange(3, data.len() as int);
        lemma_base64url_shape(rest);
        lemma_base64url_digit(a / 4);
        lemma_base64url_digit((a % 4) * 16 + b / 16);
        lemma_base64url_digit((b % 16) * 4 + c / 64);
        lemma_base64url_digit(c % 64);
        let head = seq![
            base64url_digit(a / 4),
            base64url_digit((a % 4) * 16 + b / 16),
            base64url_digit((b % 16) * 4 + c / 64),
            base64url_digit(c % 64),
        ];
        assert(base64url_nopad(data) == head + base64url_nopad(rest));
        assert forall|i: int|
            0 <= i < base64url_nopad(data).len() implies is_base64url_char(
                #[trigger] base64url_nopad(data)[i],
            ) by {
            if i >= 4 {
                assert(base64url_nopad(data)[i] == base64url_nopad(rest)[i - 4]);
            }
        }
    }
}

/// The SHA-256 digest of `data` that the `sha2` crate gives.
pub uninterp spec fn sha256(data: Seq<u8>) -> Seq<u8>;

proof fn lemma_base64url_bytes(s: Seq<char>)
    requires
        forall|i: int| 0 <= i < s.len() ==> is_base64url_char(#[trigger] s[i]),
    ensures
        encode_utf8(s).len() == s.len(),
        all_bytes(encode_utf8(s), |b: u8| is_unreserved(b)),
{
    assert(is_ascii_chars(s));
    is_ascii_chars_encode_utf8(s);
    assert forall|i: int| 0 <= i < encode_utf8(s).len() implies (|b: u8| is_unreserved(b))(
        #[trigger] encode_utf8(s)[i],
    ) by {
        assert(s[i] as u8 == encode_utf8(s)[i]);
        assert(is_base64url_char(s[i]));
    }
}

/// `base64::engine::general_purpose::URL_SAFE_NO_PAD.encode`: the unpadded
/// base64url encoding of RFC 4648, section 5, which is what the crate
/// documents for its URL-safe engine without padding.
#[verifier::external_body]
fn base64url_encode(data: &[u8]) -> (s: String)
    ensures
        s@ == base64url_nopad(data@),
{
    URL_SAFE_NO_PAD.encode(data)
}

/// `sha2::Sha256::digest`: the digest is named `sha256` and is 32 bytes long.
#[verifier::external_body]
fn sha256_digest(data: &[u8]) -> (d: Vec<u8>)
    ensures
        d@ == sha256(data@),
        d@.len() == 32,
{
    Sha256::digest(data).to_vec()
}

/// `rand::rngs::OsRng::try_fill_bytes` on a buffer of `n` bytes: `None`
/// when the operating system cannot supply randomness, else the buffer.
/// Nothing is said of the bytes beyond their number: they are random.
#[verifier::external_body]
fn os_random_bytes(n: usize) -> (v: Option<Vec<u8>>)
    ensures
        v matches Some(b) ==> b@.len() == n,
{
    let mut buf = vec![0u8; n];
    match OsRng.try_fill_bytes(&mut buf) {
        Ok(()) => Some(buf),
        Err(_) => None,
    }
}

/// `SystemTime::now().duration_since(UNIX_EPOCH)`: the current wall clock
/// as whole seconds and nanoseconds after the epoch (`Ok`) or before it
/// (`Err`). Nothing is said of the value: it is the clock's.
#[verifier::external_body]
fn wall_clock_since_epoch() -> (r: Result<(u64, u32), (u64, u32)>) {
    match std::time::SystemTime::now().duration_since(std::time::UNIX_EPOCH) {
        Ok(d) => Ok((d.as_secs(), d.subsec_nanos())),
        Err(e) => Err((e.duration().as_secs(), e.duration().subsec_nanos())),
    }
}

} // verus!
