//! Spotify OAuth and Web API integration.

pub mod client;
pub mod json;
pub mod keyring;
pub mod library;
pub mod oauth;
pub mod types;

pub use client::{
    categorize, parse_retry_after, HttpCategory, HttpMethod, HttpOutcome, HttpRequest,
    SpotifyApiError, SpotifyClient, DEFAULT_API_BASE,
};
pub use json::{parse_token_response, parse_token_response_at};
pub use keyring::{
    InMemoryTokenStore, KeyringError, KeyringFailure, SecretServiceTokenStore, TokenStore,
    ACCOUNT_NAME, SERVICE_NAME,
};
pub use library::{
    build_track_uri, parse_contains, release_mutation, try_acquire_mutation, validate_track_id,
    ContainsError, LibraryAction, LibraryCall, LibraryOp, LibraryStage, TrackIdError,
};
pub use oauth::{
    accept_step, answer_callback_request, build_authorize_url, callback_from_pairs,
    callback_response_html, extract_query, generate_pkce_verifier, map_callback_error,
    parse_callback, parse_http_request, read_step,
    AcceptPoll, AcceptStep, CallbackError, CallbackReply, CallbackRequest, LoopbackError, ReadStep,
    DEFAULT_LOOPBACK_ADDR,
};
pub use types::{
    validate_client_id, AuthCode, AuthCodeError, AuthorizeUrlParams, AuthorizeUrlParamsBuilder,
    ClientIdError, OAuthState, OAuthStateError, PkceError, PkceVerifier, Timestamp, TokenSet,
    CLIENT_ID_LEN, REDIRECT_URI, REFRESH_SAFETY_MARGIN_SECS, REQUIRED_SCOPES, SPOTIFY_AUTH_URL,
    SPOTIFY_TOKEN_URL,
};
