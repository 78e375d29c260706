use cosmictify::mpris::{
    format_duration, nonempty_id, pick_spotify, sanitize_one_line, snapshot_from_readings,
    track_id_from_url_or_path, PlaybackStatus, PlayerReadings, TrackSnapshot,
};

#[test]
fn parses_open_spotify_url() {
    assert_eq!(
        track_id_from_url_or_path("https://open.spotify.com/track/3bymDcsSDlZo6WkhFpkVAx"),
        Some("3bymDcsSDlZo6WkhFpkVAx".into())
    );
}

#[test]
fn parses_spotify_uri() {
    assert_eq!(
        track_id_from_url_or_path("spotify:track:3bymDcsSDlZo6WkhFpkVAx"),
        Some("3bymDcsSDlZo6WkhFpkVAx".into())
    );
}

#[test]
fn parses_mpris_track_path() {
    assert_eq!(
        track_id_from_url_or_path("/com/spotify/track/3bymDcsSDlZo6WkhFpkVAx"),
        Some("3bymDcsSDlZo6WkhFpkVAx".into())
    );
}

#[test]
fn track_ids_are_cut_at_query_fragment_and_slash() {
    assert_eq!(
        track_id_from_url_or_path(" https://open.spotify.com/track/abc?si=1 "),
        Some("abc".into())
    );
    assert_eq!(track_id_from_url_or_path("spotify:track:abc#x"), Some("abc".into()));
    assert_eq!(track_id_from_url_or_path("spotify:track:a/b"), Some("a/b".into()));
    assert_eq!(track_id_from_url_or_path("/a/track/one/track/two/x"), Some("two".into()));
    assert_eq!(track_id_from_url_or_path("spotify:track:"), None);
    assert_eq!(track_id_from_url_or_path("   "), None);
    assert_eq!(track_id_from_url_or_path("spotify:album:abc"), None);
    assert_eq!(nonempty_id("  x "), Some("x".into()));
    assert_eq!(nonempty_id("   "), None);
}

#[test]
fn durations_format_as_minutes_and_two_digit_seconds() {
    assert_eq!(format_duration(0), "0:00");
    assert_eq!(format_duration(65), "1:05");
    assert_eq!(format_duration(3600), "60:00");
    assert_eq!(format_duration(599), "9:59");
}

#[test]
fn labels_and_display_line() {
    let mut snap = TrackSnapshot::default();
    assert_eq!(snap.display_line(), "");
    assert_eq!(snap.length_label(), "--:--");
    assert_eq!(snap.status, PlaybackStatus::Stopped);
    assert!(!snap.status.is_playing());
    snap.connected = true;
    snap.identity = "Spotify".into();
    assert_eq!(snap.display_line(), "Spotify");
    snap.title = "Song".into();
    assert_eq!(snap.display_line(), "Song");
    snap.artist = "Band".into();
    assert_eq!(snap.display_line(), "Song — Band");
    snap.length_micros = Some(215_900_000);
    snap.position_micros = 61_000_001;
    assert_eq!(snap.length_label(), "3:35");
    assert_eq!(snap.position_label(), "1:01");
    assert!(PlaybackStatus::Playing.is_playing());
}

#[test]
fn one_line_collapses_whitespace() {
    assert_eq!(sanitize_one_line("  a \n\t b  c "), "a b c");
    assert_eq!(sanitize_one_line(""), "");
    assert_eq!(sanitize_one_line("\n"), "");
    assert_eq!(sanitize_one_line("x"), "x");
}

#[test]
fn spotify_player_is_picked_by_bus_or_identity() {
    let players = vec![
        ("firefox.instance1".to_string(), "Mozilla Firefox".to_string()),
        ("vlc".to_string(), "VLC".to_string()),
        ("spotifyd".to_string(), "x".to_string()),
        ("spotify".to_string(), "Spotify".to_string()),
    ];
    assert_eq!(pick_spotify(&players), Some(2));
    let players = vec![("chromium".to_string(), "SPOTIFY Web".to_string())];
    assert_eq!(pick_spotify(&players), Some(0));
    let players = vec![("vlc".to_string(), "VLC".to_string())];
    assert_eq!(pick_spotify(&players), None);
}

#[test]
fn snapshot_from_readings_cleans_and_derives() {
    let snap = snapshot_from_readings(PlayerReadings {
        identity: "Spotify".into(),
        bus_name: "spotify".into(),
        status: PlaybackStatus::Playing,
        title: Some(" A\nsong ".into()),
        artists: Some(vec!["One".into(), "Two  Three".into()]),
        album: None,
        art_url: Some("https://i.scdn.co/image/x".into()),
        url: None,
        track_path: Some("/com/spotify/track/3bymDcsSDlZo6WkhFpkVAx".into()),
        length_micros: Some(10),
        position_micros: None,
        can_go_next: Some(true),
        can_go_previous: None,
        can_play: Some(true),
        can_pause: Some(false),
        can_seek: None,
        shuffle: None,
    });
    assert!(snap.connected);
    assert_eq!(snap.title, "A song");
    assert_eq!(snap.artist, "One, Two Three");
    assert_eq!(snap.album, "");
    assert_eq!(snap.track_id.as_deref(), Some("3bymDcsSDlZo6WkhFpkVAx"));
    assert_eq!(snap.position_micros, 0);
    assert!(snap.can_go_next && !snap.can_go_previous && snap.can_play && !snap.can_pause);
    assert_eq!(snap.display_line(), "A song — One, Two Three");
}
