//! The applet's Spotify session: whether the Web API is set up and
//! connected, and what the like button shows for the current track.
//!
//! Each function here is the decision part of one UI event. The applet
//! performs the work a decision asks for (a keyring read or delete, the
//! OAuth flow, a library call on a worker thread) and reports its result
//! back through the next function.

use vstd::prelude::*;
use vstd::string::StringSliceAdditionalSpecFns;
use vstd::utf8::encode_utf8;

use crate::config::Config;
use crate::spotify::client::SpotifyApiError;
use crate::spotify::json::opt_chars;
use crate::spotify::json::str_eq;
use crate::spotify::oauth::LoopbackError;
use crate::spotify::types::is_client_id;
use crate::spotify::types::validate_client_id;
use crate::text::trim;
use crate::text::trimmed;

verus! {

broadcast use vstd::string::group_string_axioms;

/// Authentication state with the Spotify Web API.
#[derive(Debug, Clone, Copy, PartialEq, Eq)]
pub enum AuthState {
    /// No valid Client ID configured.
    Unconfigured,
    /// A Client ID is set but no tokens are on file.
    Disconnected,
    /// The OAuth flow is in progress (browser open, waiting for callback).
    Connecting,
    /// Tokens are on file and the Web API is usable.
    Connected,
    /// The authorization failed: the user needs to authorize again.
    ReconnectRequired,
}

/// Like state of the current track.
#[derive(Debug, Clone, Copy, PartialEq, Eq)]
pub enum LikeState {
    /// No track id, or not authenticated.
    Unavailable,
    /// Asking the library about the track.
    Loading,
    /// The track is saved in the user's library.
    Saved,
    /// The track is not saved in the user's library.
    Unsaved,
    /// A save or remove is in progress.
    Mutating,
    /// The last operation failed.
    Error,
}

/// The category of a Web API error shown under the player; none carries
/// a token or a response body.
#[derive(Debug, Clone, Copy, PartialEq, Eq)]
pub enum ErrorNotice {
    /// Authorization problem (refresh failed, re-authorization needed).
    Auth,
    /// Account or allowlist refusal.
    Allowlist,
    /// Rate limited.
    RateLimited,
    /// Network failure.
    Network,
    /// Unexpected API answer.
    Api,
    /// Unexpected HTTP status, shown with its code.
    ApiStatus(u16),
}

/// The notice for a Web API error.
pub open spec fn spec_error_notice(e: SpotifyApiError) -> ErrorNotice {
    match e {
        SpotifyApiError::Refresh(_) => ErrorNotice::Auth,
        SpotifyApiError::Allowlist(_) => ErrorNotice::Allowlist,
        SpotifyApiError::RateLimited { .. } => ErrorNotice::RateLimited,
        SpotifyApiError::Transport(_) => ErrorNotice::Network,
        SpotifyApiError::Http { status, .. } => ErrorNotice::ApiStatus(status),
        SpotifyApiError::Malformed(_) => ErrorNotice::Api,
    }
}

/// Reduce a Web API error to the category shown to the user.
pub fn error_notice(e: &SpotifyApiError) -> (n: ErrorNotice)
    ensures
        n == spec_error_notice(*e),
{
    match e {
        SpotifyApiError::Refresh(_) => ErrorNotice::Auth,
        SpotifyApiError::Allowlist(_) => ErrorNotice::Allowlist,
        SpotifyApiError::RateLimited { .. } => ErrorNotice::RateLimited,
        SpotifyApiError::Transport(_) => ErrorNotice::Network,
        SpotifyApiError::Http { status, .. } => ErrorNotice::ApiStatus(*status),
        SpotifyApiError::Malformed(_) => ErrorNotice::Api,
    }
}

/// The Web API error that stands for a failed browser callback.
pub open spec fn spec_callback_failure(e: LoopbackError) -> SpotifyApiError {
    match e {
        LoopbackError::Timeout => SpotifyApiError::Transport("auth_timeout"),
        LoopbackError::UserDenied => SpotifyApiError::Allowlist("denied"),
        LoopbackError::StateMismatch => SpotifyApiError::Transport("state_mismatch"),
        _ => SpotifyApiError::Transport("callback_error"),
    }
}

/// Map a failed browser callback onto the Web API error surface.
pub fn callback_failure(e: &LoopbackError) -> (r: SpotifyApiError)
    ensures
        r == spec_callback_failure(*e),
{
    match e {
        LoopbackError::Timeout => SpotifyApiError::Transport("auth_timeout"),
        LoopbackError::UserDenied => SpotifyApiError::Allowlist("denied"),
        LoopbackError::StateMismatch => SpotifyApiError::Transport("state_mismatch"),
        _ => SpotifyApiError::Transport("callback_error"),
    }
}

/// The Client ID input can be saved: exactly 32 hex characters, as typed.
pub fn can_save_client_id(input: &str) -> (b: bool)
    ensures
        b == is_client_id(input.spec_bytes()),
{
    validate_client_id(input).is_ok()
}

/// A library lookup to start: is `track_id` saved?
#[derive(Debug, Clone, PartialEq, Eq)]
pub struct LikeQuery {
    pub client_id: String,
    pub track_id: String,
}

/// A library change to start: save (or remove) `track_id`.
#[derive(Debug, Clone, PartialEq, Eq)]
pub struct LikeMutation {
    pub client_id: String,
    pub track_id: String,
    pub save: bool,
}

/// What a new Client ID asks for: the trimmed ID to store, and whether
/// the tokens of the previous one must be deleted first.
#[derive(Debug, Clone, PartialEq, Eq)]
pub struct ClientIdChange {
    pub client_id: String,
    pub delete_tokens: bool,
}

/// The heart the like button shows.
#[derive(Debug, Clone, Copy, PartialEq, Eq)]
pub enum LikeGlyph {
    /// Saved (filled heart).
    Saved,
    /// Not saved (hollow heart).
    Unsaved,
    /// A lookup or change is in progress.
    Busy,
    /// The last operation failed.
    Warning,
}

/// What to do with the cover when a new snapshot arrives.
#[derive(Debug, Clone, Copy, PartialEq, Eq)]
pub enum ArtChange {
    /// Load the new snapshot's cover.
    Load,
    /// Drop the cover shown.
    Clear,
    /// Keep the cover shown.
    Keep,
}

/// The cover decision for art URL `current` (the one shown) and `next`
/// (the new snapshot's).
pub open spec fn spec_art_change(current: Option<Seq<char>>, next: Option<Seq<char>>) -> ArtChange {
    match (current, next) {
        (None, Some(_)) => ArtChange::Load,
        (Some(a), Some(b)) => if a != b {
            ArtChange::Load
        } else {
            ArtChange::Keep
        },
        (Some(_), None) => ArtChange::Clear,
        (None, None) => ArtChange::Keep,
    }
}


/// Decide what happens to the cover when a snapshot with art URL `next`
/// replaces the one whose cover came from `current`.
pub fn art_change(current: &Option<String>, next: &Option<String>) -> (c: ArtChange)
    ensures
        c == spec_art_change(opt_chars(*current), opt_chars(*next)),
{
    match (current, next) {
        (None, Some(_)) => ArtChange::Load,
        (Some(a), Some(b)) => if str_eq(a.as_str(), b.as_str()) {
            ArtChange::Keep
        } else {
            ArtChange::Load
        },
        (Some(_), None) => ArtChange::Clear,
        (None, None) => ArtChange::Keep,
    }
}

/// Whether a cover that finished loading from `loaded` still belongs to the
/// snapshot shown, whose art URL is `current`; a stale cover is dropped.
pub fn art_is_current(current: &Option<String>, loaded: &str) -> (b: bool)
    ensures
        b == (opt_chars(*current) == Some(loaded@)),
{
    match current {
        Some(c) => str_eq(c.as_str(), loaded),
        None => false,
    }
}

/// Whether a settings update changes the Client ID (and the session must
/// be set up again).
pub fn client_id_changed(old: &Config, new: &Config) -> (b: bool)
    ensures
        b == (old.spotify_client_id@ != new.spotify_client_id@),
{
    !str_eq(old.spotify_client_id.as_str(), new.spotify_client_id.as_str())
}

/// The Spotify session state of the applet.
#[derive(Debug, Clone, PartialEq, Eq)]
pub struct SpotifySession {
    pub auth: AuthState,
    pub like: LikeState,
    /// The track the like state is about.
    pub like_track: Option<String>,
    /// The last Web API error, if the last operation failed.
    pub error: Option<ErrorNotice>,
    /// The Client ID of the configured Web API client, if there is one.
    pub client_id: Option<String>,
}

/// What starting a library lookup for `track_id` does to the like state:
/// without a track id it becomes unavailable and forgets its track;
/// without a client it becomes unavailable; otherwise it is loading, for
/// that track, and the query names the client and the track.
pub open spec fn like_check_effect(
    client_id: Option<String>,
    like_track0: Option<String>,
    track_id: Option<String>,
    like1: LikeState,
    like_track1: Option<String>,
    q: Option<LikeQuery>,
) -> bool {
    match (track_id, client_id) {
        (None, _) => q is None && like1 == LikeState::Unavailable && like_track1 is None,
        (Some(_), None) => q is None && like1 == LikeState::Unavailable && like_track1
            == like_track0,
        (Some(t), Some(c)) => {
            &&& q matches Some(query) && query.client_id@ == c@ && query.track_id@ == t@
            &&& like1 == LikeState::Loading
            &&& like_track1 matches Some(lt) && lt@ == t@
        },
    }
}

impl SpotifySession {
    /// Nothing configured yet.
    pub fn new() -> (s: Self)
        ensures
            s.auth == AuthState::Unconfigured,
            s.like == LikeState::Unavailable,
            s.like_track is None,
            s.error is None,
            s.client_id is None,
    {
        SpotifySession {
            auth: AuthState::Unconfigured,
            like: LikeState::Unavailable,
            like_track: None,
            error: None,
            client_id: None,
        }
    }

    /// Set the session up from the configured Client ID. An empty or
    /// invalid ID (once trimmed) leaves it unconfigured and returns `None`;
    /// a valid one is returned, for the applet to look its tokens up and
    /// report with [`Self::finish_setup`].
    pub fn begin_setup(&mut self, configured: &str) -> (id: Option<String>)
        ensures
            is_client_id(encode_utf8(trim(configured@))) ==> {
                &&& id matches Some(i) && i@ == trim(configured@)
                &&& *final(self) == *old(self)
            },
            !is_client_id(encode_utf8(trim(configured@))) ==> {
                &&& id is None
                &&& final(self).auth == AuthState::Unconfigured
                &&& final(self).client_id is None
                &&& final(self).like == LikeState::Unavailable
                &&& final(self).like_track == old(self).like_track
                &&& final(self).error == old(self).error
            },
    {
        let id = trimmed(configured);
        if can_save_client_id(id.as_str()) {
            Some(id)
        } else {
            self.auth = AuthState::Unconfigured;
            self.client_id = None;
            self.like = LikeState::Unavailable;
            None
        }
    }

    /// Finish setting up with a valid `client_id`: connected when tokens
    /// were found on file, disconnected otherwise.
    pub fn finish_setup(&mut self, client_id: String, tokens_found: bool)
        ensures
            final(self).client_id == Some(client_id),
            final(self).auth == (if tokens_found {
                AuthState::Connected
            } else {
                AuthState::Disconnected
            }),
            final(self).like == LikeState::Unavailable,
            final(self).like_track == old(self).like_track,
            final(self).error == old(self).error,
    {
        self.client_id = Some(client_id);
        self.auth = if tokens_found {
            AuthState::Connected
        } else {
            AuthState::Disconnected
        };
        self.like = LikeState::Unavailable;
    }

    /// Start a library lookup for the current track: none without a track
    /// id (the like state becomes unavailable and forgets its track) or
    /// without a client; otherwise the like state is loading, for that
    /// track.
    pub fn start_like_check(&mut self, track_id: &Option<String>) -> (q: Option<LikeQuery>)
        ensures
            final(self).auth == old(self).auth,
            final(self).client_id == old(self).client_id,
            final(self).error == old(self).error,
            like_check_effect(
                old(self).client_id,
                old(self).like_track,
                *track_id,
                final(self).like,
                final(self).like_track,
                q,
            ),
    {
        let track = match track_id {
            Some(t) => t,
            None => {
                self.like = LikeState::Unavailable;
                self.like_track = None;
                return None;
            },
        };
        let client_id = match &self.client_id {
            Some(c) => c.clone(),
            None => {
                self.like = LikeState::Unavailable;
                return None;
            },
        };
        self.like = LikeState::Loading;
        self.like_track = Some(track.clone());
        Some(LikeQuery { client_id, track_id: track.clone() })
    }

    /// The user asks to connect: without a client nothing happens;
    /// otherwise the session is connecting and the OAuth flow runs for the
    /// returned Client ID.
    pub fn connect(&mut self) -> (id: Option<String>)
        ensures
            old(self).client_id is None ==> id is None && *final(self) == *old(self),
            old(self).client_id matches Some(c) ==> {
                &&& id matches Some(i) && i@ == c@
                &&& final(self).auth == AuthState::Connecting
                &&& final(self).like == old(self).like
                &&& final(self).like_track == old(self).like_track
                &&& final(self).error == old(self).error
                &&& final(self).client_id == old(self).client_id
            },
    {
        match &self.client_id {
            None => None,
            Some(c) => {
                let id = c.clone();
                self.auth = AuthState::Connecting;
                Some(id)
            },
        }
    }

    /// The OAuth flow ended: connected (and a lookup for the current track
    /// starts) when it succeeded, reconnect-required otherwise.
    pub fn callback_done(&mut self, succeeded: bool, track_id: &Option<String>) -> (q: Option<
        LikeQuery,
    >)
        ensures
            succeeded ==> final(self).auth == AuthState::Connected,
            !succeeded ==> {
                &&& q is None
                &&& final(self).auth == AuthState::ReconnectRequired
                &&& final(self).like == old(self).like
                &&& final(self).like_track == old(self).like_track
            },
            succeeded ==> like_check_effect(
                old(self).client_id,
                old(self).like_track,
                *track_id,
                final(self).like,
                final(self).like_track,
                q,
            ),
            final(self).client_id == old(self).client_id,
            final(self).error == old(self).error,
    {
        if succeeded {
            self.auth = AuthState::Connected;
            self.start_like_check(track_id)
        } else {
            self.auth = AuthState::ReconnectRequired;
            None
        }
    }

    /// The user disconnects: the stored tokens are to be deleted when a
    /// client is configured (the result); the session is disconnected, or
    /// unconfigured without a client, and the like state is cleared.
    pub fn disconnect(&mut self) -> (delete_tokens: bool)
        ensures
            delete_tokens == old(self).client_id is Some,
            final(self).auth == (if old(self).client_id is Some {
                AuthState::Disconnected
            } else {
                AuthState::Unconfigured
            }),
            final(self).like == LikeState::Unavailable,
            final(self).like_track is None,
            final(self).client_id == old(self).client_id,
            final(self).error == old(self).error,
    {
        let has_client = self.client_id.is_some();
        self.auth = if has_client {
            AuthState::Disconnected
        } else {
            AuthState::Unconfigured
        };
        self.like = LikeState::Unavailable;
        self.like_track = None;
        has_client
    }

    /// A library lookup answered: saved or unsaved (clearing the error),
    /// or the error state with its notice.
    pub fn like_check_result(&mut self, result: &Result<bool, SpotifyApiError>)
        ensures
            match *result {
                Ok(saved) => final(self).error is None && final(self).like == (if saved {
                    LikeState::Saved
                } else {
                    LikeState::Unsaved
                }),
                Err(e) => final(self).error == Some(spec_error_notice(e)) && final(self).like
                    == LikeState::Error,
            },
            final(self).auth == old(self).auth,
            final(self).like_track == old(self).like_track,
            final(self).client_id == old(self).client_id,
    {
        match result {
            Ok(saved) => {
                self.error = None;
                self.like = if *saved {
                    LikeState::Saved
                } else {
                    LikeState::Unsaved
                };
            },
            Err(e) => {
                self.error = Some(error_notice(e));
                self.like = LikeState::Error;
            },
        }
    }

    /// The user toggles the like: without a track id or a client nothing
    /// happens; otherwise the track is saved unless it is saved already
    /// (then removed), and the like state is mutating.
    pub fn like_toggle(&mut self, track_id: &Option<String>) -> (m: Option<LikeMutation>)
        ensures
            match (track_id, old(self).client_id) {
                (Some(t), Some(c)) => {
                    &&& m matches Some(mu) && mu.client_id@ == c@ && mu.track_id@ == t@ && mu.save
                        == (old(self).like != LikeState::Saved)
                    &&& final(self).like == LikeState::Mutating
                    &&& final(self).auth == old(self).auth
                    &&& final(self).like_track == old(self).like_track
                    &&& final(self).error == old(self).error
                    &&& final(self).client_id == old(self).client_id
                },
                _ => m is None && *final(self) == *old(self),
            },
    {
        let track = match track_id {
            Some(t) => t.clone(),
            None => return None,
        };
        let client_id = match &self.client_id {
            Some(c) => c.clone(),
            None => return None,
        };
        let save = match self.like {
            LikeState::Saved => false,
            _ => true,
        };
        self.like = LikeState::Mutating;
        Some(LikeMutation { client_id, track_id: track, save })
    }

    /// A save (`saved`) or remove finished: on success the like state is
    /// the confirmed target and the error is cleared; on failure the error
    /// state with its notice.
    pub fn like_done(&mut self, saved: bool, result: &Result<(), SpotifyApiError>)
        ensures
            match *result {
                Ok(()) => final(self).error is None && final(self).like == (if saved {
                    LikeState::Saved
                } else {
                    LikeState::Unsaved
                }),
                Err(e) => final(self).error == Some(spec_error_notice(e)) && final(self).like
                    == LikeState::Error,
            },
            final(self).auth == old(self).auth,
            final(self).like_track == old(self).like_track,
            final(self).client_id == old(self).client_id,
    {
        match result {
            Ok(()) => {
                self.error = None;
                self.like = if saved {
                    LikeState::Saved
                } else {
                    LikeState::Unsaved
                };
            },
            Err(e) => {
                self.error = Some(error_notice(e));
                self.like = LikeState::Error;
            },
        }
    }

    /// The user saves the Client ID typed as `input` while `configured` is
    /// the stored one: the trimmed input becomes the ID, and the tokens of
    /// a configured client are deleted first when the ID changes (refresh
    /// tokens are bound to the app that issued them).
    pub fn save_client_id(&self, input: &str, configured: &str) -> (c: ClientIdChange)
        ensures
            c.client_id@ == trim(input@),
            c.delete_tokens == (trim(input@) != configured@ && self.client_id is Some),
    {
        let id = trimmed(input);
        let changed = !str_eq(id.as_str(), configured);
        ClientIdChange { client_id: id, delete_tokens: changed && self.client_id.is_some() }
    }

    /// A new snapshot replaced the one about `previous_track`: when the
    /// track changed while connected, a lookup for `current_track` starts.
    pub fn track_changed(&mut self, previous_track: &Option<String>, current_track: &Option<
        String,
    >) -> (q: Option<LikeQuery>)
        ensures
            (opt_chars(*previous_track) == opt_chars(*current_track) || old(self).auth
                != AuthState::Connected) ==> q is None && *final(self) == *old(self),
            (opt_chars(*previous_track) != opt_chars(*current_track) && old(self).auth
                == AuthState::Connected) ==> like_check_effect(
                old(self).client_id,
                old(self).like_track,
                *current_track,
                final(self).like,
                final(self).like_track,
                q,
            ),
            final(self).auth == old(self).auth,
            final(self).client_id == old(self).client_id,
            final(self).error == old(self).error,
    {
        let same = match (previous_track, current_track) {
            (None, None) => true,
            (Some(a), Some(b)) => str_eq(a.as_str(), b.as_str()),
            _ => false,
        };
        let connected = match self.auth {
            AuthState::Connected => true,
            _ => false,
        };
        if !same && connected {
            self.start_like_check(current_track)
        } else {
            None
        }
    }

    /// The like button: shown only while connected, for a track with an
    /// id, once the like state is known or pending; a saved, unsaved or
    /// failed state can be pressed, a pending one cannot.
    pub fn like_button(&self, has_track_id: bool) -> (b: Option<(LikeGlyph, bool)>)
        ensures
            (self.auth != AuthState::Connected || !has_track_id || self.like
                == LikeState::Unavailable) ==> b is None,
            (self.auth == AuthState::Connected && has_track_id && self.like
                != LikeState::Unavailable) ==> b == Some(
                match self.like {
                    LikeState::Saved => (LikeGlyph::Saved, true),
                    LikeState::Unsaved => (LikeGlyph::Unsaved, true),
                    LikeState::Error => (LikeGlyph::Warning, true),
                    _ => (LikeGlyph::Busy, false),
                },
            ),
    {
        match self.auth {
            AuthState::Connected => {},
            _ => return None,
        }
        if !has_track_id {
            return None;
        }
        match self.like {
            LikeState::Saved => Some((LikeGlyph::Saved, true)),
            LikeState::Unsaved => Some((LikeGlyph::Unsaved, true)),
            LikeState::Loading | LikeState::Mutating => Some((LikeGlyph::Busy, false)),
            LikeState::Error => Some((LikeGlyph::Warning, true)),
            LikeState::Unavailable => None,
        }
    }
}

} // verus!
