//! The track snapshot mirrored from MPRIS and the helpers the UI reads it
//! through.

use vstd::prelude::*;
use vstd::utf8::encode_scalar;
use vstd::utf8::encode_utf8;

use crate::spotify::library::spec_track_id_check;
use crate::spotify::library::spec_track_uri;
use crate::spotify::types::all_bytes;
use crate::spotify::types::is_alphanumeric;
use crate::text::chars_of;
use crate::text::decimal;
use crate::text::digit;
use crate::text::digit_char;
use crate::text::find_substring;
use crate::text::find_sub;
use crate::text::lemma_find_sub_from;
use crate::text::lemma_rfind_sub_below;
use crate::text::matches_at;
use crate::text::occurs_at;
use crate::text::owned;
use crate::text::push_char;
use crate::text::push_decimal;
use crate::text::rfind_sub;
use crate::text::rfind_substring;
use crate::text::string_from_chars;
use crate::text::is_whitespace;
use crate::text::trim;
use crate::text::trim_start;
use crate::text::trim_bounds;

verus! {

broadcast use vstd::string::group_string_axioms;

/// Playback state mirrored from MPRIS.
#[derive(Debug, Clone, Copy, PartialEq, Eq)]
pub enum PlaybackStatus {
    Playing,
    Paused,
    Stopped,
}

impl Default for PlaybackStatus {
    fn default() -> (s: Self)
        ensures
            s == PlaybackStatus::Stopped,
    {
        PlaybackStatus::Stopped
    }
}

impl PlaybackStatus {
    /// True while the player is playing.
    pub fn is_playing(self) -> (b: bool)
        ensures
            b == (self == PlaybackStatus::Playing),
    {
        match self {
            PlaybackStatus::Playing => true,
            _ => false,
        }
    }
}

/// Snapshot of the current Spotify track for the UI. Lengths and positions
/// are in microseconds, as MPRIS reports them.
#[derive(Debug, Clone, PartialEq, Eq)]
pub struct TrackSnapshot {
    pub connected: bool,
    pub identity: String,
    pub bus_name: String,
    pub title: String,
    pub artist: String,
    pub album: String,
    pub status: PlaybackStatus,
    pub art_url: Option<String>,
    /// Track id for the Spotify Web API, if one could be found.
    pub track_id: Option<String>,
    /// Open URL (`xesam:url`).
    pub url: Option<String>,
    pub length_micros: Option<u64>,
    pub position_micros: u64,
    pub can_go_next: bool,
    pub can_go_previous: bool,
    pub can_play: bool,
    pub can_pause: bool,
    pub can_seek: bool,
    pub shuffle: bool,
}

/// The snapshot of "no player": disconnected, empty, stopped.
pub open spec fn is_empty_snapshot(s: TrackSnapshot) -> bool {
    &&& !s.connected
    &&& s.identity@.len() == 0
    &&& s.bus_name@.len() == 0
    &&& s.title@.len() == 0
    &&& s.artist@.len() == 0
    &&& s.album@.len() == 0
    &&& s.status == PlaybackStatus::Stopped
    &&& s.art_url is None
    &&& s.track_id is None
    &&& s.url is None
    &&& s.length_micros is None
    &&& s.position_micros == 0
    &&& !s.can_go_next && !s.can_go_previous && !s.can_play && !s.can_pause
    &&& !s.can_seek && !s.shuffle
}

impl Default for TrackSnapshot {
    fn default() -> (s: Self)
        ensures
            is_empty_snapshot(s),
    {
        TrackSnapshot {
            connected: false,
            identity: String::new(),
            bus_name: String::new(),
            title: String::new(),
            artist: String::new(),
            album: String::new(),
            status: PlaybackStatus::Stopped,
            art_url: None,
            track_id: None,
            url: None,
            length_micros: None,
            position_micros: 0,
            can_go_next: false,
            can_go_previous: false,
            can_play: false,
            can_pause: false,
            can_seek: false,
            shuffle: false,
        }
    }
}

/// `m:ss` for a duration of `secs` whole seconds: the minutes in decimal,
/// then the seconds on two digits.
pub open spec fn spec_format_duration(secs: nat) -> Seq<char> {
    decimal(secs / 60) + ":"@ + seq![digit_char((secs % 60) / 10), digit_char((secs % 60) % 10)]
}

/// Format `secs` whole seconds as `m:ss`.
pub fn format_duration(secs: u64) -> (s: String)
    ensures
        s@ == spec_format_duration(secs as nat),
{
    let m = secs / 60;
    let r = secs % 60;
    let mut s = String::new();
    push_decimal(&mut s, m);
    s.append(":");
    push_char(&mut s, digit(r / 10));
    push_char(&mut s, digit(r % 10));
    assert(s@ =~= spec_format_duration(secs as nat));
    s
}

/// The line the panel shows: nothing when disconnected, the player's name
/// when there is no title, the title alone without an artist, else
/// `title — artist`.
pub open spec fn spec_display_line(s: TrackSnapshot) -> Seq<char> {
    if !s.connected {
        seq![]
    } else if s.title@.len() == 0 {
        s.identity@
    } else if s.artist@.len() == 0 {
        s.title@
    } else {
        s.title@ + " — "@ + s.artist@
    }
}

impl TrackSnapshot {
    /// The position as `m:ss`.
    pub fn position_label(&self) -> (s: String)
        ensures
            s@ == spec_format_duration((self.position_micros / 1_000_000) as nat),
    {
        format_duration(self.position_micros / 1_000_000)
    }

    /// The length as `m:ss`, or `--:--` when unknown.
    pub fn length_label(&self) -> (s: String)
        ensures
            s@ == match self.length_micros {
                Some(l) => spec_format_duration((l / 1_000_000) as nat),
                None => "--:--"@,
            },
    {
        match self.length_micros {
            Some(l) => format_duration(l / 1_000_000),
            None => owned("--:--"),
        }
    }

    /// The line the panel shows for this snapshot.
    pub fn display_line(&self) -> (s: String)
        ensures
            s@ == spec_display_line(*self),
    {
        if !self.connected {
            return String::new();
        }
        if self.title.as_str().is_empty() {
            return self.identity.clone();
        }
        if self.artist.as_str().is_empty() {
            self.title.clone()
        } else {
            let mut s = self.title.clone();
            s.append(" — ");
            s.append(self.artist.as_str());
            s
        }
    }
}

// ---------------------------------------------------------------------------
// Track ids
// ---------------------------------------------------------------------------

/// A character that ends a track id: `?` or `#`, and `/` when `slash`.
pub open spec fn id_stop(c: char, slash: bool) -> bool {
    c == '?' || c == '#' || (slash && c == '/')
}

/// The first index at or after `i` holding a character that ends an id.
pub open spec fn id_end(s: Seq<char>, i: int, slash: bool) -> int
    decreases s.len() - i,
{
    if i >= s.len() || id_stop(s[i], slash) {
        i
    } else {
        id_end(s, i + 1, slash)
    }
}

/// `s` up to the first character that ends an id.
pub open spec fn first_piece(s: Seq<char>, slash: bool) -> Seq<char> {
    s.subrange(0, id_end(s, 0, slash))
}

/// `id` trimmed, unless that leaves nothing.
pub open spec fn spec_nonempty_id(id: Seq<char>) -> Option<Seq<char>> {
    if trim(id).len() == 0 {
        None
    } else {
        Some(trim(id))
    }
}

/// The track id in a `spotify:track:` URI, an `open.spotify.com/track/`
/// URL, or a path with a `/track/` segment (the last one), cut at `?`,
/// `#` (and `/`, but in a URI) and trimmed.
pub open spec fn spec_track_id(input: Seq<char>) -> Option<Seq<char>> {
    let s = trim(input);
    let uri = "spotify:track:"@;
    let web = "open.spotify.com/track/"@;
    let seg = "/track/"@;
    if s.len() == 0 {
        None
    } else if occurs_at(s, uri, 0) {
        spec_nonempty_id(first_piece(s.subrange(uri.len() as int, s.len() as int), false))
    } else {
        match find_sub(s, web) {
            Some(i) => spec_nonempty_id(
                first_piece(s.subrange(i + web.len(), s.len() as int), true),
            ),
            None => match rfind_sub(s, seg) {
                Some(i) => spec_nonempty_id(
                    first_piece(s.subrange(i + seg.len(), s.len() as int), true),
                ),
                None => None,
            },
        }
    }
}

/// An ASCII letter or digit.
pub open spec fn is_ascii_alnum_char(c: char) -> bool {
    let u = c as u32;
    (48 <= u <= 57) || (65 <= u <= 90) || (97 <= u <= 122)
}

proof fn lemma_id_end_without_stops(s: Seq<char>, i: int, slash: bool)
    requires
        0 <= i <= s.len(),
        forall|j: int| i <= j < s.len() ==> !id_stop(#[trigger] s[j], slash),
    ensures
        id_end(s, i, slash) == s.len(),
    decreases s.len() - i,
{
    if i < s.len() {
        lemma_id_end_without_stops(s, i + 1, slash);
    }
}

/// The end of the run of characters from `i` that do not end an id, when
/// the character at `e` does.
proof fn lemma_id_end_at(s: Seq<char>, i: int, e: int, slash: bool)
    requires
        0 <= i <= e < s.len(),
        forall|j: int| i <= j < e ==> !id_stop(#[trigger] s[j], slash),
        id_stop(s[e], slash),
    ensures
        id_end(s, i, slash) == e,
    decreases e - i,
{
    if i < e {
        lemma_id_end_at(s, i + 1, e, slash);
    }
}

/// The first occurrence of `pat` at or after `i`, when it is at `k`.
proof fn lemma_find_sub_at(s: Seq<char>, pat: Seq<char>, i: int, k: int)
    requires
        0 <= i <= k,
        occurs_at(s, pat, k),
        forall|j: int| i <= j < k ==> !occurs_at(s, pat, j),
    ensures
        crate::text::find_sub_from(s, pat, i) == Some(k),
    decreases k - i,
{
    if i < k {
        lemma_find_sub_at(s, pat, i + 1, k);
    }
}

/// Trailing whitespace is trimmed no further than a last character that
/// is not whitespace.
proof fn lemma_trim_end_keeps(x: Seq<char>, q: Seq<char>)
    requires
        x.len() > 0,
        !is_whitespace(x.last()),
    ensures
        crate::text::trim_end(x + q).len() >= x.len(),
        crate::text::trim_end(x + q).subrange(0, x.len() as int) == x,
    decreases q.len(),
{
    if q.len() == 0 {
        assert(x + q =~= x);
    } else if is_whitespace(q.last()) {
        assert((x + q).drop_last() =~= x + q.drop_last());
        lemma_trim_end_keeps(x, q.drop_last());
    } else {
        assert((x + q).subrange(0, x.len() as int) =~= x);
    }
}

/// Trimming the end of `x + q`, where `x` ends with something else than
/// whitespace, keeps `x` and a prefix of `q`.
proof fn lemma_trim_end_prefix(x: Seq<char>, q: Seq<char>)
    requires
        x.len() > 0,
        !is_whitespace(x.last()),
    ensures
        x.len() <= crate::text::trim_end(x + q).len() <= x.len() + q.len(),
        crate::text::trim_end(x + q) == x + q.subrange(
            0,
            crate::text::trim_end(x + q).len() - x.len(),
        ),
    decreases q.len(),
{
    if q.len() == 0 {
        assert(x + q =~= x);
        assert(x + q.subrange(0, 0) =~= x);
    } else if is_whitespace(q.last()) {
        assert((x + q).drop_last() =~= x + q.drop_last());
        lemma_trim_end_prefix(x, q.drop_last());
        let k = crate::text::trim_end(x + q).len() - x.len();
        assert(q.drop_last().subrange(0, k) =~= q.subrange(0, k));
    } else {
        assert(q.subrange(0, q.len() as int) =~= q);
    }
}

/// No occurrence from `i` on: the search finds none.
proof fn lemma_find_sub_none(s: Seq<char>, pat: Seq<char>, i: int)
    requires
        forall|k: int| i <= k ==> !occurs_at(s, pat, k),
    ensures
        crate::text::find_sub_from(s, pat, i) is None,
    decreases s.len() + 1 - i,
{
    if !(i < 0 || i > s.len() || i + pat.len() > s.len()) {
        lemma_find_sub_none(s, pat, i + 1);
    }
}

/// The last occurrence below `n` is at `k` when none lies between.
proof fn lemma_rfind_sub_at(s: Seq<char>, pat: Seq<char>, n: nat, k: int)
    requires
        0 <= k < n,
        occurs_at(s, pat, k),
        forall|j: int| k < j < n ==> !occurs_at(s, pat, j),
    ensures
        crate::text::rfind_sub_below(s, pat, n) == Some(k),
    decreases n,
{
    if n - 1 > k {
        lemma_rfind_sub_at(s, pat, (n - 1) as nat, k);
    }
}

/// Where `/` and `.` stand in `https://open.spotify.com/`.
proof fn lemma_web_head()
    ensures
        "https://open.spotify.com/"@.len() == 25,
        forall|j: int|
            0 <= j < 25 && #[trigger] "https://open.spotify.com/"@[j] == '/' ==> j == 6 || j == 7
                || j == 24,
        forall|j: int|
            0 <= j < 25 && #[trigger] "https://open.spotify.com/"@[j] == '.' ==> j == 12 || j
                == 20,
        "https://open.spotify.com/"@[0] == 'h',
        "https://open.spotify.com/"@[16] == 't',
{
    reveal_strlit("https://open.spotify.com/");
    let a = "https://open.spotify.com/"@;
    assert forall|j: int| 0 <= j < 25 && #[trigger] a[j] == '/' implies j == 6 || j == 7 || j == 24 by {
        if j == 0 {} else if j == 1 {} else if j == 2 {} else if j == 3 {} else if j == 4 {}
        else if j == 5 {} else if j == 8 {} else if j == 9 {} else if j == 10 {}
        else if j == 11 {} else if j == 12 {} else if j == 13 {} else if j == 14 {}
        else if j == 15 {} else if j == 16 {} else if j == 17 {} else if j == 18 {}
        else if j == 19 {} else if j == 20 {} else if j == 21 {} else if j == 22 {}
        else if j == 23 {}
    }
    assert forall|j: int| 0 <= j < 25 && #[trigger] a[j] == '.' implies j == 12 || j == 20 by {
        if j == 0 {} else if j == 1 {} else if j == 2 {} else if j == 3 {} else if j == 4 {}
        else if j == 5 {} else if j == 6 {} else if j == 7 {} else if j == 8 {}
        else if j == 9 {} else if j == 10 {} else if j == 11 {} else if j == 13 {}
        else if j == 14 {} else if j == 15 {} else if j == 16 {} else if j == 17 {}
        else if j == 18 {} else if j == 19 {} else if j == 21 {} else if j == 22 {}
        else if j == 23 {} else if j == 24 {}
    }
}

/// A locale segment of a web URL: letters, digits and `-`.
pub open spec fn is_locale_char(c: char) -> bool {
    is_ascii_alnum_char(c) || c == '-'
}

/// Extracting the track id from an `open.spotify.com` URL with a locale
/// segment before `/track/` (such as `intl-de`) gives back every id the
/// validator accepts, whatever query without `/` follows the id.
pub proof fn law_track_id_from_locale_url(locale: Seq<char>, id: Seq<char>, query: Seq<char>)
    requires
        locale.len() > 0,
        forall|i: int| 0 <= i < locale.len() ==> is_locale_char(#[trigger] locale[i]),
        locale != "track"@,
        spec_track_id_check(encode_utf8(id)) is Ok,
        forall|i: int| 0 <= i < query.len() ==> #[trigger] query[i] != '/',
    ensures
        spec_track_id(
            "https://open.spotify.com/"@ + locale + "/track/"@ + id + "?"@ + query,
        ) == Some(id),
{
    lemma_track_id_chars(id);
    lemma_web_head();
    reveal_strlit("/track/");
    reveal_strlit("?");
    reveal_strlit("spotify:track:");
    reveal_strlit("open.spotify.com/track/");
    reveal_strlit("track");
    let a = "https://open.spotify.com/"@;
    let b = "/track/"@;
    let uri = "spotify:track:"@;
    let web = "open.spotify.com/track/"@;
    let l = locale.len() as int;
    let n = id.len() as int;
    let x = a + locale + b + id + "?"@;
    let input = "https://open.spotify.com/"@ + locale + "/track/"@ + id + "?"@ + query;
    assert(input == x + query);
    assert(x.len() == 33 + l + n);
    assert(x.last() == '?');
    assert(!is_whitespace(input[0]));
    assert(trim_start(input) == input);
    lemma_trim_end_prefix(x, query);
    let t = trim(input);
    let q2 = query.subrange(0, t.len() - x.len());
    assert(t == x + q2);
    // What stands where.
    assert forall|j: int| 0 <= j < 25 implies #[trigger] t[j] == a[j] by {}
    assert forall|j: int| 0 <= j < l implies #[trigger] t[25 + j] == locale[j] by {}
    assert forall|j: int| 0 <= j < 7 implies #[trigger] t[25 + l + j] == b[j] by {}
    assert forall|j: int| 0 <= j < n implies #[trigger] t[32 + l + j] == id[j] by {}
    assert(t[32 + l + n] == '?');
    assert forall|j: int| 0 <= j < q2.len() implies #[trigger] t[33 + l + n + j] == q2[j] by {}
    // The slashes of `t`.
    assert forall|j: int| 0 <= j < t.len() && #[trigger] t[j] == '/' implies j == 6 || j == 7 || j
        == 24 || j == 25 + l || j == 31 + l by {
        if j < 25 {
            assert(a[j] == '/');
        } else if j < 25 + l {
            assert(t[25 + (j - 25)] == locale[j - 25]);
            assert(is_locale_char(locale[j - 25]));
        } else if j < 32 + l {
            let m = j - 25 - l;
            assert(t[25 + l + m] == b[m]);
            if m == 1 {} else if m == 2 {} else if m == 3 {} else if m == 4 {} else if m == 5 {}
        } else if j < 32 + l + n {
            assert(t[32 + l + (j - 32 - l)] == id[j - 32 - l]);
            assert(is_ascii_alnum_char(id[j - 32 - l]));
        } else if j == 32 + l + n {
        } else {
            assert(t[33 + l + n + (j - 33 - l - n)] == q2[j - 33 - l - n]);
            assert(q2[j - 33 - l - n] == query[j - 33 - l - n]);
        }
    }
    // Not a URI.
    assert(!occurs_at(t, uri, 0)) by {
        if occurs_at(t, uri, 0) {
            assert(t.subrange(0, uri.len() as int)[0] == t[0]);
        }
    }
    // No `open.spotify.com/track/` anywhere.
    assert forall|k: int| 0 <= k implies !occurs_at(t, web, k) by {
        if occurs_at(t, web, k) {
            let w = t.subrange(k, k + web.len());
            assert(w[16] == t[k + 16] && w[22] == t[k + 22]);
            assert(t[k + 16] == '/' && t[k + 22] == '/');
            if k == 8 {
                assert(l == 5);
                assert forall|j: int| 0 <= j < 5 implies locale[j] == "track"@[j] by {
                    assert(w[17 + j] == t[25 + j]);
                }
                assert(locale =~= "track"@);
            } else {
                assert(k == 9 + l);
                assert(w[4] == t[k + 4]);
                assert(t[13 + l] == '.');
                if 13 + l >= 25 {
                    assert(t[25 + (l - 12)] == locale[l - 12]);
                    assert(is_locale_char(locale[l - 12]));
                } else {
                    assert(a[13 + l] == '.');
                    assert(l == 7);
                    assert(w[0] == t[16]);
                }
            }
        }
    }
    lemma_find_sub_none(t, web, 0);
    // The last `/track/` is the one before the id.
    assert(occurs_at(t, b, 25 + l)) by {
        assert(t.subrange(25 + l, 32 + l) =~= b);
    }
    assert forall|j: int| 25 + l < j < t.len() + 1 implies !occurs_at(t, b, j) by {
        if occurs_at(t, b, j) {
            let w = t.subrange(j, j + 7);
            assert(w[0] == t[j] && w[6] == t[j + 6]);
        }
    }
    lemma_rfind_sub_at(t, b, (t.len() + 1) as nat, 25 + l);
    assert(rfind_sub(t, b) == Some(25 + l));
    // The id, cut at `?`.
    let after = t.subrange(32 + l, t.len() as int);
    assert forall|j: int| 0 <= j < n implies after[j] == id[j] by {
        assert(after[j] == t[32 + l + j]);
    }
    assert(after[n] == '?') by {
        assert(after[n] == t[32 + l + n]);
    }
    assert forall|j: int| 0 <= j < n implies !id_stop(#[trigger] after[j], true) by {
        assert(after[j] == id[j]);
    }
    lemma_id_end_at(after, 0, n, true);
    assert(first_piece(after, true) =~= id);
    assert(!is_whitespace(id[0]));
    assert(trim_start(id) == id);
    assert(!is_whitespace(id.last()));
    assert(trim(id) == id);
}

/// A string the validator accepts as a track id (1 to 64 ASCII letters and
/// digits, checked byte by byte) is, as characters, ASCII letters and
/// digits, as many as its bytes.
proof fn lemma_track_id_chars(id: Seq<char>)
    requires
        all_bytes(encode_utf8(id), |b: u8| is_alphanumeric(b)),
    ensures
        id.len() == encode_utf8(id).len(),
        forall|i: int| 0 <= i < id.len() ==> is_ascii_alnum_char(#[trigger] id[i]),
    decreases id.len(),
{
    if id.len() > 0 {
        let c = id[0] as u32;
        let head = encode_scalar(c);
        let rest = id.drop_first();
        assert(encode_utf8(id) == head + encode_utf8(rest));
        assert(head.len() >= 1);
        assert(encode_utf8(id)[0] == head[0]);
        assert((|b: u8| is_alphanumeric(b))(encode_utf8(id)[0]));
        assert(is_alphanumeric(head[0]));
        if c >= 0x80 {
            let y2 = ((c >> 6) & 0x1F) as u8;
            let y3 = ((c >> 12) & 0x0F) as u8;
            let y4 = ((c >> 18) & 0x7) as u8;
            assert((0xC0u8 | y2) >= 0xC0u8) by (bit_vector);
            assert((0xE0u8 | y3) >= 0xE0u8) by (bit_vector);
            assert((0xF0u8 | y4) >= 0xF0u8) by (bit_vector);
            assert(head[0] >= 0xC0u8);
            assert(false);
        }
        assert((c & 0x7F) as u8 == c) by (bit_vector)
            requires
                c < 0x80u32,
        ;
        assert(head =~= seq![c as u8]);
        assert forall|k: int| 0 <= k < encode_utf8(rest).len() implies (|b: u8| is_alphanumeric(b))(
            #[trigger] encode_utf8(rest)[k],
        ) by {
            assert(encode_utf8(rest)[k] == encode_utf8(id)[k + 1]);
        }
        lemma_track_id_chars(rest);
        assert forall|i: int| 0 <= i < id.len() implies is_ascii_alnum_char(#[trigger] id[i]) by {
            if i > 0 {
                assert(id[i] == rest[i - 1]);
            } else {
                assert(is_alphanumeric(c as u8));
                assert(c == id[0] as u32);
            }
        }
    }
}

/// Everything before the end of an id is a character that does not end it.
proof fn lemma_id_end_clean(s: Seq<char>, i: int, slash: bool)
    requires
        0 <= i,
    ensures
        i <= id_end(s, i, slash),
        i <= s.len() ==> id_end(s, i, slash) <= s.len(),
        forall|j: int| i <= j < id_end(s, i, slash) ==> !id_stop(#[trigger] s[j], slash),
    decreases s.len() - i,
{
    if i < s.len() && !id_stop(s[i], slash) {
        lemma_id_end_clean(s, i + 1, slash);
    }
}

/// Trimming keeps only characters that were there.
proof fn lemma_trim_keeps_clean(y: Seq<char>, slash: bool)
    requires
        forall|j: int| 0 <= j < y.len() ==> !id_stop(#[trigger] y[j], slash),
    ensures
        forall|j: int| 0 <= j < trim(y).len() ==> !id_stop(#[trigger] trim(y)[j], slash),
{
    lemma_trim_start_clean(y, slash);
    lemma_trim_end_clean(trim_start(y), slash);
}

proof fn lemma_trim_start_clean(y: Seq<char>, slash: bool)
    requires
        forall|j: int| 0 <= j < y.len() ==> !id_stop(#[trigger] y[j], slash),
    ensures
        forall|j: int| 0 <= j < trim_start(y).len() ==> !id_stop(#[trigger] trim_start(y)[j], slash),
    decreases y.len(),
{
    if y.len() > 0 && is_whitespace(y[0]) {
        assert forall|j: int| 0 <= j < y.drop_first().len() implies !id_stop(
            #[trigger] y.drop_first()[j],
            slash,
        ) by {
            assert(y.drop_first()[j] == y[j + 1]);
        }
        lemma_trim_start_clean(y.drop_first(), slash);
        assert(trim_start(y) == trim_start(y.drop_first()));
    } else {
        assert(trim_start(y) == y);
    }
}

proof fn lemma_trim_end_clean(y: Seq<char>, slash: bool)
    requires
        forall|j: int| 0 <= j < y.len() ==> !id_stop(#[trigger] y[j], slash),
    ensures
        forall|j: int| 0 <= j < crate::text::trim_end(y).len() ==> !id_stop(
            #[trigger] crate::text::trim_end(y)[j],
            slash,
        ),
    decreases y.len(),
{
    if y.len() > 0 && is_whitespace(y.last()) {
        assert forall|j: int| 0 <= j < y.drop_last().len() implies !id_stop(
            #[trigger] y.drop_last()[j],
            slash,
        ) by {
            assert(y.drop_last()[j] == y[j]);
        }
        lemma_trim_end_clean(y.drop_last(), slash);
        assert(crate::text::trim_end(y) == crate::text::trim_end(y.drop_last()));
    } else {
        assert(crate::text::trim_end(y) == y);
    }
}

/// The id found after position `from` of `s`: it is not empty and holds
/// no character that ends an id.
proof fn lemma_found_id_clean(s: Seq<char>, from: int, slash: bool)
    requires
        0 <= from <= s.len(),
    ensures
        spec_nonempty_id(first_piece(s.subrange(from, s.len() as int), slash)) matches Some(id)
            ==> id.len() > 0 && forall|j: int| 0 <= j < id.len() ==> !id_stop(#[trigger] id[j], slash),
{
    let rest = s.subrange(from, s.len() as int);
    lemma_id_end_clean(rest, 0, slash);
    let piece = first_piece(rest, slash);
    assert forall|j: int| 0 <= j < piece.len() implies !id_stop(#[trigger] piece[j], slash) by {
        assert(piece[j] == rest[j]);
    }
    lemma_trim_keeps_clean(piece, slash);
}

/// A track id, whatever the input, is not empty and holds no `?` or `#`;
/// and, unless the input is a `spotify:track:` URI, no `/` either.
pub proof fn law_track_id_has_no_separators(input: Seq<char>)
    ensures
        spec_track_id(input) matches Some(id) ==> {
            &&& id.len() > 0
            &&& forall|j: int| 0 <= j < id.len() ==> #[trigger] id[j] != '?' && id[j] != '#'
            &&& !crate::text::occurs_at(trim(input), "spotify:track:"@, 0) ==> forall|j: int|
                0 <= j < id.len() ==> #[trigger] id[j] != '/'
        },
{
    let s = trim(input);
    let uri = "spotify:track:"@;
    let web = "open.spotify.com/track/"@;
    let seg = "/track/"@;
    if s.len() == 0 {
    } else if occurs_at(s, uri, 0) {
        lemma_found_id_clean(s, uri.len() as int, false);
    } else {
        lemma_find_sub_from(s, web, 0);
        match find_sub(s, web) {
            Some(i) => {
                lemma_found_id_clean(s, i + web.len(), true);
            },
            None => {
                lemma_rfind_sub_below(s, seg, (s.len() + 1) as nat);
                match rfind_sub(s, seg) {
                    Some(i) => {
                        lemma_found_id_clean(s, i + seg.len(), true);
                    },
                    None => {},
                }
            },
        }
    }
}

/// Extracting the track id gives back every id the validator accepts:
/// from the canonical URI that `build_track_uri` builds, and from an
/// `open.spotify.com` track URL with any query after the id; and an input
/// that is blank once trimmed has no track id.
pub proof fn law_track_id_round_trip(id: Seq<char>, query: Seq<char>, blank: Seq<char>)
    requires
        spec_track_id_check(encode_utf8(id)) is Ok,
    ensures
        spec_track_id(spec_track_uri(id)) == Some(id),
        spec_track_id("https://open.spotify.com/track/"@ + id + "?"@ + query) == Some(id),
        trim(blank).len() == 0 ==> spec_track_id(blank) is None,
{
    lemma_track_id_chars(id);
    reveal_strlit("spotify:track:");
    reveal_strlit("open.spotify.com/track/");
    reveal_strlit("https://open.spotify.com/track/");
    reveal_strlit("?");
    assert(1 <= id.len() <= 64);
    assert(!is_whitespace(id[0]));
    assert(trim_start(id) == id);
    assert(!is_whitespace(id.last()));
    assert(trim(id) == id);
    // The canonical URI.
    let uri = "spotify:track:"@;
    let s = uri + id;
    assert(!is_whitespace(s[0]));
    assert(trim_start(s) == s);
    assert(s.last() == id.last());
    assert(trim(s) == s);
    assert(s.subrange(0, uri.len() as int) =~= uri);
    assert(occurs_at(s, uri, 0));
    assert(s.subrange(uri.len() as int, s.len() as int) =~= id);
    lemma_id_end_without_stops(id, 0, false);
    assert(first_piece(id, false) =~= id);
    // The web URL with a query.
    let lead = "https://open.spotify.com/track/"@;
    let web = "open.spotify.com/track/"@;
    let x = lead + id + "?"@;
    let input = x + query;
    assert("https://open.spotify.com/track/"@ + id + "?"@ + query == input);
    assert(!is_whitespace(input[0]));
    assert(trim_start(input) == input);
    assert(x.last() == '?');
    lemma_trim_end_keeps(x, query);
    let t = trim(input);
    assert(t.subrange(0, x.len() as int) == x);
    assert forall|k: int| 0 <= k < x.len() implies t[k] == x[k] by {
        assert(t.subrange(0, x.len() as int)[k] == t[k]);
    }
    assert(!occurs_at(t, uri, 0)) by {
        if occurs_at(t, uri, 0) {
            assert(t.subrange(0, uri.len() as int)[0] == t[0]);
        }
    }
    assert(occurs_at(t, web, 8)) by {
        assert(t.subrange(8, 8int + web.len()) =~= web);
    }
    assert forall|j: int| 0 <= j < 8 implies !occurs_at(t, web, j) by {
        if occurs_at(t, web, j) {
            assert(t.subrange(j, j + web.len())[0] == t[j]);
        }
    }
    lemma_find_sub_at(t, web, 0, 8);
    assert(find_sub(t, web) == Some(8int));
    let after = t.subrange(8int + web.len(), t.len() as int);
    assert forall|j: int| 0 <= j < id.len() implies after[j] == id[j] by {
        assert(after[j] == t[31 + j]);
        assert(t[31 + j] == x[31 + j]);
    }
    assert(after[id.len() as int] == '?') by {
        assert(after[id.len() as int] == t[31int + id.len()]);
        assert(t[31int + id.len()] == x[31int + id.len()]);
    }
    assert forall|j: int| 0 <= j < id.len() implies !id_stop(#[trigger] after[j], true) by {
        assert(after[j] == id[j]);
    }
    lemma_id_end_at(after, 0, id.len() as int, true);
    assert(first_piece(after, true) =~= id);
}

/// `id` trimmed, or `None` when that leaves nothing.
pub fn nonempty_id(id: &str) -> (r: Option<String>)
    ensures
        match spec_nonempty_id(id@) {
            Some(t) => r matches Some(s) && s@ == t,
            None => r is None,
        },
{
    let v = chars_of(id);
    let (a, b) = trim_bounds(v.as_slice());
    if a == b {
        None
    } else {
        Some(string_from_chars(v.as_slice(), a, b))
    }
}

/// The id in `v[from..]`, cut at the first character that ends an id.
fn id_from(v: &[char], from: usize, slash: bool) -> (r: Option<String>)
    requires
        from <= v@.len(),
    ensures
        match spec_nonempty_id(first_piece(v@.subrange(from as int, v@.len() as int), slash)) {
            Some(t) => r matches Some(s) && s@ == t,
            None => r is None,
        },
{
    let ghost rest = v@.subrange(from as int, v@.len() as int);
    let mut i = from;
    while i < v.len() && !(v[i] == '?' || v[i] == '#' || (slash && v[i] == '/'))
        invariant
            from <= i <= v@.len(),
            rest == v@.subrange(from as int, v@.len() as int),
            id_end(rest, 0, slash) == id_end(rest, i - from, slash),
        decreases v.len() - i,
    {
        i = i + 1;
    }
    let piece = string_from_chars(v, from, i);
    assert(piece@ =~= first_piece(rest, slash));
    nonempty_id(piece.as_str())
}

/// Extract a Spotify track id from an `open.spotify.com` URL, a
/// `spotify:track:` URI, or an MPRIS object path.
pub fn track_id_from_url_or_path(input: &str) -> (r: Option<String>)
    ensures
        match spec_track_id(input@) {
            Some(t) => r matches Some(s) && s@ == t,
            None => r is None,
        },
{
    let all = chars_of(input);
    let (a, b) = trim_bounds(all.as_slice());
    let s = &all[a..b];
    assert(s@ =~= trim(input@));
    if a == b {
        return None;
    }
    let uri = chars_of("spotify:track:");
    let web = chars_of("open.spotify.com/track/");
    let seg = chars_of("/track/");
    if matches_at(s, 0, uri.as_slice()) {
        return id_from(s, uri.len(), false);
    }
    match find_substring(s, web.as_slice()) {
        Some(i) => {
            proof {
                lemma_find_sub_from(s@, web@, 0);
            }
            id_from(s, i + web.len(), true)
        },
        None => match rfind_substring(s, seg.as_slice()) {
            Some(i) => {
                proof {
                    lemma_rfind_sub_below(s@, seg@, (s@.len() + 1) as nat);
                }
                id_from(s, i + seg.len(), true)
            },
            None => None,
        },
    }
}

} // verus!
