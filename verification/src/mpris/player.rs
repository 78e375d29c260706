//! Choosing the Spotify player among the MPRIS players, and turning what
//! was read from it into a [`TrackSnapshot`].
//!
//! The D-Bus calls that read a player happen outside this library; they
//! hand the values they read over as [`PlayerReadings`].

use vstd::prelude::*;

use crate::mpris::types::spec_track_id;
use crate::mpris::types::track_id_from_url_or_path;
use crate::mpris::types::PlaybackStatus;
use crate::mpris::types::TrackSnapshot;
use crate::text::chars_of;
use crate::text::find_sub;
use crate::text::find_substring;
use crate::text::is_whitespace;
use crate::text::push_char;
use crate::text::whitespace;

verus! {

broadcast use vstd::string::group_string_axioms;

// ---------------------------------------------------------------------------
// One-line text
// ---------------------------------------------------------------------------

/// `s` with every run of whitespace turned into one space and leading and
/// trailing whitespace dropped: its words joined by single spaces.
pub open spec fn one_line(s: Seq<char>) -> Seq<char>
    decreases s.len(),
{
    if s.len() == 0 {
        seq![]
    } else {
        let prev = one_line(s.drop_last());
        let c = s.last();
        if is_whitespace(c) {
            prev
        } else if prev.len() > 0 && s.len() >= 2 && is_whitespace(s[s.len() - 2]) {
            prev.push(' ').push(c)
        } else {
            prev.push(c)
        }
    }
}

/// `s` with every whitespace character deleted.
pub open spec fn without_whitespace(s: Seq<char>) -> Seq<char>
    decreases s.len(),
{
    if s.len() == 0 {
        seq![]
    } else if is_whitespace(s.last()) {
        without_whitespace(s.drop_last())
    } else {
        without_whitespace(s.drop_last()).push(s.last())
    }
}

/// One-line text keeps every character of its input but whitespace, in
/// order, and separates them only by single spaces: deleting its spaces
/// gives the input with its whitespace deleted, the only whitespace it
/// holds is a space, never at either end and never two in a row.
pub proof fn law_one_line_keeps_the_words(s: Seq<char>)
    ensures
        without_whitespace(one_line(s)) == without_whitespace(s),
        forall|i: int|
            0 <= i < one_line(s).len() && is_whitespace(#[trigger] one_line(s)[i]) ==> one_line(
                s,
            )[i] == ' ',
        one_line(s).len() > 0 ==> !is_whitespace(one_line(s)[0]) && !is_whitespace(
            one_line(s).last(),
        ),
        forall|i: int|
            0 <= i < one_line(s).len() - 1 && is_whitespace(#[trigger] one_line(s)[i])
                ==> !is_whitespace(one_line(s)[i + 1]),
    decreases s.len(),
{
    if s.len() > 0 {
        let rest = s.drop_last();
        let prev = one_line(rest);
        let c = s.last();
        law_one_line_keeps_the_words(rest);
        let r = one_line(s);
        if is_whitespace(c) {
        } else if prev.len() > 0 && s.len() >= 2 && is_whitespace(s[s.len() - 2]) {
            let mid = prev.push(' ');
            assert(r == mid.push(c));
            assert(r.drop_last() =~= mid);
            assert(mid.drop_last() =~= prev);
            assert(without_whitespace(mid) == without_whitespace(prev));
            assert(without_whitespace(r) == without_whitespace(mid).push(c));
            assert forall|i: int| 0 <= i < r.len() && is_whitespace(#[trigger] r[i]) implies r[i]
                == ' ' by {
                if i < prev.len() {
                    assert(r[i] == prev[i]);
                }
            }
            assert(r[0] == prev[0]);
            assert forall|i: int| 0 <= i < r.len() - 1 && is_whitespace(#[trigger] r[i]) implies !is_whitespace(r[i + 1]) by {
                if i + 1 < prev.len() {
                    assert(r[i] == prev[i] && r[i + 1] == prev[i + 1]);
                } else if i + 1 == prev.len() {
                    assert(r[i] == prev.last());
                }
            }
        } else {
            assert(r == prev.push(c));
            assert(r.drop_last() =~= prev);
            assert forall|i: int| 0 <= i < r.len() && is_whitespace(#[trigger] r[i]) implies r[i]
                == ' ' by {
                if i < prev.len() {
                    assert(r[i] == prev[i]);
                }
            }
            if prev.len() > 0 {
                assert(r[0] == prev[0]);
            }
            assert forall|i: int| 0 <= i < r.len() - 1 && is_whitespace(#[trigger] r[i]) implies !is_whitespace(r[i + 1]) by {
                if i + 1 < prev.len() {
                    assert(r[i] == prev[i] && r[i + 1] == prev[i + 1]);
                } else {
                    assert(r[i] == prev.last());
                }
            }
        }
    }
}

/// Collapse whitespace and newlines so panel text never wraps vertically.
pub fn sanitize_one_line(s: &str) -> (r: String)
    ensures
        r@ == one_line(s@),
{
    let v = chars_of(s);
    let mut out = String::new();
    let mut i: usize = 0;
    while i < v.len()
        invariant
            i <= v@.len(),
            out@ == one_line(v@.take(i as int)),
        decreases v.len() - i,
    {
        let c = v[i];
        let ghost t = v@.take(i + 1);
        assert(t.drop_last() =~= v@.take(i as int));
        if !whitespace(c) {
            if out.as_str().is_empty() == false && i >= 1 && whitespace(v[i - 1]) {
                push_char(&mut out, ' ');
            }
            push_char(&mut out, c);
        }
        i = i + 1;
    }
    assert(v@.take(v@.len() as int) =~= v@);
    out
}

/// One-line text never breaks the line: its only whitespace is single
/// spaces between words, never at either end.
pub proof fn law_one_line_has_no_line_breaks(s: Seq<char>)
    ensures
        forall|i: int|
            0 <= i < one_line(s).len() ==> (!is_whitespace(#[trigger] one_line(s)[i]) || (
            one_line(s)[i] == ' ' && 0 < i < one_line(s).len() - 1 && !is_whitespace(
                one_line(s)[i - 1],
            ) && !is_whitespace(one_line(s)[i + 1]))),
        one_line(s).len() > 0 ==> !is_whitespace(one_line(s).last()),
    decreases s.len(),
{
    if s.len() > 0 {
        law_one_line_has_no_line_breaks(s.drop_last());
        let prev = one_line(s.drop_last());
        let c = s.last();
        if !is_whitespace(c) {
            let out = one_line(s);
            assert forall|i: int|
                0 <= i < out.len() implies (!is_whitespace(#[trigger] out[i]) || (out[i] == ' '
                && 0 < i < out.len() - 1 && !is_whitespace(out[i - 1]) && !is_whitespace(
                out[i + 1]))) by {
                if i < prev.len() {
                    assert(out[i] == prev[i]);
                    if i + 1 < prev.len() {
                        assert(out[i + 1] == prev[i + 1]);
                    }
                    if i > 0 {
                        assert(out[i - 1] == prev[i - 1]);
                    }
                }
            }
        }
    }
}

/// `parts` joined with `sep` between consecutive parts.
pub open spec fn join(parts: Seq<Seq<char>>, sep: Seq<char>) -> Seq<char>
    decreases parts.len(),
{
    if parts.len() == 0 {
        seq![]
    } else if parts.len() == 1 {
        parts[0]
    } else {
        join(parts.drop_last(), sep) + sep + parts.last()
    }
}

/// The character views of owned strings.
pub open spec fn views(parts: Seq<String>) -> Seq<Seq<char>> {
    parts.map_values(|p: String| p@)
}

/// `parts` joined with `sep`.
pub fn join_strings(parts: &Vec<String>, sep: &str) -> (r: String)
    ensures
        r@ == join(views(parts@), sep@),
{
    let mut out = String::new();
    let mut i: usize = 0;
    while i < parts.len()
        invariant
            i <= parts@.len(),
            out@ == join(views(parts@).take(i as int), sep@),
        decreases parts.len() - i,
    {
        let ghost t = views(parts@).take(i + 1);
        assert(t.drop_last() =~= views(parts@).take(i as int));
        if i > 0 {
            out.append(sep);
        }
        out.append(parts[i].as_str());
        assert(out@ =~= join(t, sep@));
        i = i + 1;
    }
    assert(views(parts@).take(parts@.len() as int) =~= views(parts@));
    out
}

// ---------------------------------------------------------------------------
// Choosing the player
// ---------------------------------------------------------------------------

/// `c` in ASCII lower case (`char::to_ascii_lowercase`).
pub open spec fn ascii_lower(c: char) -> char {
    if 'A' <= c <= 'Z' {
        ((c as u32) + 32) as char
    } else {
        c
    }
}

/// `s` in ASCII lower case (`str::to_ascii_lowercase`).
pub open spec fn lower(s: Seq<char>) -> Seq<char> {
    s.map_values(|c: char| ascii_lower(c))
}

/// A player is Spotify's when its bus name or its identity mentions
/// `spotify`, in any ASCII case.
pub open spec fn is_spotify_player(bus: Seq<char>, identity: Seq<char>) -> bool {
    find_sub(lower(bus), "spotify"@) is Some || find_sub(lower(identity), "spotify"@) is Some
}

fn lowercase(s: &str) -> (r: Vec<char>)
    ensures
        r@ == lower(s@),
{
    let v = chars_of(s);
    let mut out: Vec<char> = Vec::new();
    let mut i: usize = 0;
    while i < v.len()
        invariant
            i <= v@.len(),
            out@ == lower(v@).take(i as int),
        decreases v.len() - i,
    {
        let c = v[i];
        let l = if 'A' <= c && c <= 'Z' {
            ((c as u8) + 32) as char
        } else {
            c
        };
        out.push(l);
        assert(out@ =~= lower(v@).take(i + 1));
        i = i + 1;
    }
    assert(lower(v@).take(v@.len() as int) =~= lower(v@));
    out
}

fn mentions_spotify(s: &str) -> (b: bool)
    ensures
        b == find_sub(lower(s@), "spotify"@) is Some,
{
    let l = lowercase(s);
    let hint = chars_of("spotify");
    find_substring(l.as_slice(), hint.as_slice()).is_some()
}

/// The (bus name, identity) views of the players.
pub open spec fn player_views(players: Seq<(String, String)>) -> Seq<(Seq<char>, Seq<char>)> {
    players.map_values(|p: (String, String)| (p.0@, p.1@))
}

/// The index of the first player, given as (trimmed bus name, identity),
/// that is Spotify's.
pub fn pick_spotify(players: &[(String, String)]) -> (r: Option<usize>)
    ensures
        match r {
            Some(k) => k < players@.len() && is_spotify_player(players@[k as int].0@, players@[k as int].1@)
                && forall|j: int|
                0 <= j < k ==> !is_spotify_player(#[trigger] players@[j].0@, players@[j].1@),
            None => forall|j: int|
                0 <= j < players@.len() ==> !is_spotify_player(
                    #[trigger] players@[j].0@,
                    players@[j].1@,
                ),
        },
{
    let mut i: usize = 0;
    while i < players.len()
        invariant
            i <= players@.len(),
            forall|j: int| 0 <= j < i ==> !is_spotify_player(#[trigger] players@[j].0@, players@[j].1@),
        decreases players.len() - i,
    {
        let (bus, identity) = &players[i];
        if mentions_spotify(bus.as_str()) || mentions_spotify(identity.as_str()) {
            return Some(i);
        }
        i = i + 1;
    }
    None
}

// ---------------------------------------------------------------------------
// Building the snapshot
// ---------------------------------------------------------------------------

/// What was read from the chosen player; `None` where a read failed or
/// the player has no such value.
pub struct PlayerReadings {
    pub identity: String,
    /// The bus name without its MPRIS prefix.
    pub bus_name: String,
    pub status: PlaybackStatus,
    pub title: Option<String>,
    pub artists: Option<Vec<String>>,
    pub album: Option<String>,
    pub art_url: Option<String>,
    pub url: Option<String>,
    /// The `mpris:trackid` object path.
    pub track_path: Option<String>,
    pub length_micros: Option<u64>,
    pub position_micros: Option<u64>,
    pub can_go_next: Option<bool>,
    pub can_go_previous: Option<bool>,
    pub can_play: Option<bool>,
    pub can_pause: Option<bool>,
    pub can_seek: Option<bool>,
    pub shuffle: Option<bool>,
}

/// The one-line form of an optional text, empty when absent.
pub open spec fn one_line_or_empty(t: Option<String>) -> Seq<char> {
    match t {
        Some(s) => one_line(s@),
        None => seq![],
    }
}

/// The track id found in an optional URL or path.
pub open spec fn id_of(t: Option<String>) -> Option<Seq<char>> {
    match t {
        Some(s) => spec_track_id(s@),
        None => None,
    }
}

/// The flag a read gave, false when it failed.
pub open spec fn flag(b: Option<bool>) -> bool {
    match b {
        Some(v) => v,
        None => false,
    }
}

fn opt_flag(b: Option<bool>) -> (r: bool)
    ensures
        r == flag(b),
{
    match b {
        Some(v) => v,
        None => false,
    }
}

fn one_line_of(t: &Option<String>) -> (r: String)
    ensures
        r@ == one_line_or_empty(*t),
{
    match t {
        Some(s) => sanitize_one_line(s.as_str()),
        None => String::new(),
    }
}

fn id_in(t: &Option<String>) -> (r: Option<String>)
    ensures
        match id_of(*t) {
            Some(x) => r matches Some(s) && s@ == x,
            None => r is None,
        },
{
    match t {
        Some(s) => track_id_from_url_or_path(s.as_str()),
        None => None,
    }
}

/// The snapshot of a connected player: texts on one line (artists joined
/// with `, `), the track id taken from the URL or else from the track
/// path, a failed position read counting as 0 and a failed capability
/// read as false.
pub fn snapshot_from_readings(r: PlayerReadings) -> (s: TrackSnapshot)
    ensures
        s.connected,
        s.identity == r.identity,
        s.bus_name == r.bus_name,
        s.title@ == one_line_or_empty(r.title),
        s.artist@ == match r.artists {
            Some(a) => one_line(join(views(a@), ", "@)),
            None => seq![],
        },
        s.album@ == one_line_or_empty(r.album),
        s.status == r.status,
        s.art_url == r.art_url,
        s.url == r.url,
        match (if id_of(r.url) is Some {
            id_of(r.url)
        } else {
            id_of(r.track_path)
        }) {
            Some(x) => s.track_id matches Some(t) && t@ == x,
            None => s.track_id is None,
        },
        s.length_micros == r.length_micros,
        s.position_micros == match r.position_micros {
            Some(p) => p,
            None => 0,
        },
        s.can_go_next == flag(r.can_go_next),
        s.can_go_previous == flag(r.can_go_previous),
        s.can_play == flag(r.can_play),
        s.can_pause == flag(r.can_pause),
        s.can_seek == flag(r.can_seek),
        s.shuffle == flag(r.shuffle),
{
    let title = one_line_of(&r.title);
    let artist = match &r.artists {
        Some(a) => {
            let joined = join_strings(a, ", ");
            sanitize_one_line(joined.as_str())
        },
        None => String::new(),
    };
    let album = one_line_of(&r.album);
    let track_id = match id_in(&r.url) {
        Some(t) => Some(t),
        None => id_in(&r.track_path),
    };
    let position_micros = match r.position_micros {
        Some(p) => p,
        None => 0,
    };
    TrackSnapshot {
        connected: true,
        identity: r.identity,
        bus_name: r.bus_name,
        title,
        artist,
        album,
        status: r.status,
        art_url: r.art_url,
        track_id,
        url: r.url,
        length_micros: r.length_micros,
        position_micros,
        can_go_next: opt_flag(r.can_go_next),
        can_go_previous: opt_flag(r.can_go_previous),
        can_play: opt_flag(r.can_play),
        can_pause: opt_flag(r.can_pause),
        can_seek: opt_flag(r.can_seek),
        shuffle: opt_flag(r.shuffle),
    }
}

} // verus!
