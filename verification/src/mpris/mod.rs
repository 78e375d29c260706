//! What the applet shows of the MPRIS player: the track snapshot and its
//! labels, the Spotify track id found in a URL or object path, and the
//! choice of player.

pub mod player;
pub mod types;


pub use types::{
    format_duration, nonempty_id, track_id_from_url_or_path, PlaybackStatus, TrackSnapshot,
};
pub use player::{pick_spotify, sanitize_one_line, snapshot_from_readings, PlayerReadings};
