//! Cosmictify: the verified core of a Spotify panel applet.
//!
//! `spotify` holds the OAuth PKCE types, the callback and token-response
//! parsers, the library endpoint helpers and the request flows that the
//! applet drives; `mpris` holds the track metadata helpers; `session` holds
//! the applet's Spotify connection and like-button state machine.

pub mod text;
pub mod mpris;
pub mod spotify;
pub mod art;
pub mod config;
pub mod session;
pub mod logging;
