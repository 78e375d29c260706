use cosmictify::logging::{filter_directives, requested_filter, InitError, LogSink, DEFAULT_FILTER};
use cosmictify::art::{check_art_body, ArtLoadError};
use cosmictify::config::Config;
use cosmictify::session::{
    art_change, art_is_current, callback_failure, can_save_client_id, client_id_changed,
    error_notice, ArtChange, AuthState, ErrorNotice, LikeGlyph, LikeState, SpotifySession,
};
use cosmictify::spotify::{HttpCategory, LoopbackError, SpotifyApiError};

const ID: &str = "e117d2b248334356b28cdf56be6eba18";

fn connected() -> SpotifySession {
    let mut s = SpotifySession::new();
    let id = s.begin_setup(ID).unwrap();
    s.finish_setup(id, true);
    s
}

#[test]
fn empty_artwork_body_is_rejected() {
    assert_eq!(check_art_body(Vec::new()), Err(ArtLoadError::EmptyBody));
    assert_eq!(check_art_body(vec![1, 2]), Ok(vec![1, 2]));
}

#[test]
fn artwork_errors_do_not_contain_request_urls() {
    for error in [ArtLoadError::Worker, ArtLoadError::Request, ArtLoadError::Read, ArtLoadError::EmptyBody]
    {
        assert!(!error.message().contains("http"));
    }
}

#[test]
fn setup_needs_a_valid_client_id() {
    let mut s = SpotifySession::new();
    assert_eq!(s.begin_setup("  "), None);
    assert_eq!(s.auth, AuthState::Unconfigured);
    assert_eq!(s.begin_setup("xyz"), None);
    assert_eq!(s.begin_setup(&format!("  {ID}\n")), Some(ID.to_string()));
    s.finish_setup(ID.to_string(), false);
    assert_eq!(s.auth, AuthState::Disconnected);
    assert_eq!(s.client_id.as_deref(), Some(ID));
    s.finish_setup(ID.to_string(), true);
    assert_eq!(s.auth, AuthState::Connected);
}

#[test]
fn like_flow_from_lookup_to_toggle() {
    let mut s = connected();
    assert_eq!(s.start_like_check(&None), None);
    assert_eq!(s.like, LikeState::Unavailable);
    let q = s.start_like_check(&Some("abc".into())).unwrap();
    assert_eq!(q.client_id, ID);
    assert_eq!(q.track_id, "abc");
    assert_eq!(s.like, LikeState::Loading);
    assert_eq!(s.like_button(true), Some((LikeGlyph::Busy, false)));
    s.like_check_result(&Ok(true));
    assert_eq!(s.like, LikeState::Saved);
    assert_eq!(s.like_button(true), Some((LikeGlyph::Saved, true)));
    let m = s.like_toggle(&Some("abc".into())).unwrap();
    assert!(!m.save);
    assert_eq!(s.like, LikeState::Mutating);
    s.like_done(false, &Ok(()));
    assert_eq!(s.like, LikeState::Unsaved);
    let m = s.like_toggle(&Some("abc".into())).unwrap();
    assert!(m.save);
    s.like_done(true, &Err(SpotifyApiError::RateLimited { retry_after: 3 }));
    assert_eq!(s.like, LikeState::Error);
    assert_eq!(s.error, Some(ErrorNotice::RateLimited));
    assert_eq!(s.like_button(true), Some((LikeGlyph::Warning, true)));
    assert_eq!(s.like_button(false), None);
    s.like_check_result(&Ok(false));
    assert_eq!(s.error, None);
}

#[test]
fn connect_callback_and_disconnect() {
    let mut s = SpotifySession::new();
    assert_eq!(s.connect(), None);
    assert_eq!(s.disconnect(), false);
    assert_eq!(s.auth, AuthState::Unconfigured);
    let id = s.begin_setup(ID).unwrap();
    s.finish_setup(id, false);
    assert_eq!(s.connect(), Some(ID.to_string()));
    assert_eq!(s.auth, AuthState::Connecting);
    assert_eq!(s.callback_done(false, &Some("t".into())), None);
    assert_eq!(s.auth, AuthState::ReconnectRequired);
    let q = s.callback_done(true, &Some("t".into())).unwrap();
    assert_eq!(q.track_id, "t");
    assert_eq!(s.auth, AuthState::Connected);
    assert!(s.disconnect());
    assert_eq!(s.auth, AuthState::Disconnected);
    assert_eq!(s.like, LikeState::Unavailable);
    assert_eq!(s.like_track, None);
}

#[test]
fn changing_the_client_id_deletes_old_tokens() {
    let s = connected();
    let c = s.save_client_id(" 00000000000000000000000000000000 ", ID);
    assert_eq!(c.client_id, "00000000000000000000000000000000");
    assert!(c.delete_tokens);
    let c = s.save_client_id(ID, ID);
    assert!(!c.delete_tokens);
    assert!(can_save_client_id(ID));
    assert!(!can_save_client_id(&format!(" {ID}")));
    let old = Config { demo: String::new(), spotify_client_id: ID.into() };
    let mut new = old.clone();
    assert!(!client_id_changed(&old, &new));
    new.spotify_client_id = String::new();
    assert!(client_id_changed(&old, &new));
    assert_eq!(Config::default().spotify_client_id, "");
}

#[test]
fn a_track_change_starts_a_lookup_only_when_connected() {
    let mut s = connected();
    assert_eq!(s.track_changed(&Some("a".into()), &Some("a".into())), None);
    assert!(s.track_changed(&Some("a".into()), &Some("b".into())).is_some());
    s.auth = AuthState::Disconnected;
    assert_eq!(s.track_changed(&Some("a".into()), &Some("c".into())), None);
}

#[test]
fn errors_become_safe_notices() {
    assert_eq!(error_notice(&SpotifyApiError::Refresh("no_token")), ErrorNotice::Auth);
    assert_eq!(error_notice(&SpotifyApiError::Allowlist("forbidden")), ErrorNotice::Allowlist);
    assert_eq!(error_notice(&SpotifyApiError::Transport("x")), ErrorNotice::Network);
    assert_eq!(error_notice(&SpotifyApiError::Malformed("x")), ErrorNotice::Api);
    assert_eq!(
        error_notice(&SpotifyApiError::Http { status: 404, category: HttpCategory::Client }),
        ErrorNotice::ApiStatus(404)
    );
    assert_eq!(callback_failure(&LoopbackError::Timeout), SpotifyApiError::Transport("auth_timeout"));
    assert_eq!(callback_failure(&LoopbackError::UserDenied), SpotifyApiError::Allowlist("denied"));
    assert_eq!(
        callback_failure(&LoopbackError::StateMismatch),
        SpotifyApiError::Transport("state_mismatch")
    );
    assert_eq!(
        callback_failure(&LoopbackError::BindFailed),
        SpotifyApiError::Transport("callback_error")
    );
}

#[test]
fn cover_changes_follow_the_art_url() {
    let a = Some("a".to_string());
    let b = Some("b".to_string());
    assert_eq!(art_change(&None, &a), ArtChange::Load);
    assert_eq!(art_change(&a, &b), ArtChange::Load);
    assert_eq!(art_change(&a, &a), ArtChange::Keep);
    assert_eq!(art_change(&a, &None), ArtChange::Clear);
    assert_eq!(art_change(&None, &None), ArtChange::Keep);
}

#[test]
fn a_cover_loaded_for_another_track_is_stale() {
    let shown = Some("https://i.scdn.co/image/a".to_string());
    assert!(art_is_current(&shown, "https://i.scdn.co/image/a"));
    assert!(!art_is_current(&shown, "https://i.scdn.co/image/b"));
    assert!(!art_is_current(&None, "https://i.scdn.co/image/a"));
    assert!(!art_is_current(&Some(String::new()), "x"));
}

#[test]
fn blank_log_filters_fall_back_to_the_default() {
    assert_eq!(DEFAULT_FILTER, "warn,cosmictify=info");
    assert_eq!(requested_filter(None), None);
    assert_eq!(requested_filter(Some("  ")), None);
    assert_eq!(requested_filter(Some("cosmictify=debug")), Some("cosmictify=debug"));
    assert_eq!(LogSink::Journald.name(), "journald");
    assert_eq!(InitError.message(), "a global logging subscriber is already initialized");
}

fn build_filter(requested: Option<&str>) -> tracing_subscriber::EnvFilter {
    tracing_subscriber::EnvFilter::new(filter_directives(requested))
}

#[test]
fn default_filter_is_quiet_for_dependencies() {
    assert_eq!(DEFAULT_FILTER, "warn,cosmictify=info");
    assert_eq!(build_filter(None).to_string(), "cosmictify=info,warn");
}

#[test]
fn runtime_filter_uses_valid_rust_log() {
    let filter = build_filter(Some("cosmictify=debug"));

    assert_eq!(filter.to_string(), "cosmictify=debug");
}

#[test]
fn runtime_filter_falls_back_for_invalid_rust_log() {
    let filter = build_filter(Some("cosmictify=[invalid"));

    assert_eq!(filter.to_string(), "cosmictify=info,warn");
}

#[test]
fn filter_directives_choose_between_request_and_default() {
    assert_eq!(filter_directives(None), DEFAULT_FILTER);
    assert_eq!(filter_directives(Some("   ")), DEFAULT_FILTER);
    assert_eq!(filter_directives(Some("cosmictify=[invalid")), DEFAULT_FILTER);
    assert_eq!(filter_directives(Some("debug")), "debug");
}
