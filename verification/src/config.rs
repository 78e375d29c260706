//! The applet's persistent settings.

use vstd::prelude::*;

verus! {

/// The applet's settings, as stored in the desktop's configuration.
#[derive(Debug, Clone, PartialEq, Eq)]
pub struct Config {
    pub demo: String,
    /// The Client ID of the user's personal Spotify Developer app: 32 hex
    /// characters, or empty while the like button is not set up.
    pub spotify_client_id: String,
}

impl Default for Config {
    fn default() -> (c: Self)
        ensures
            c.demo@.len() == 0,
            c.spotify_client_id@.len() == 0,
    {
        Config { demo: String::new(), spotify_client_id: String::new() }
    }
}

} // verus!
