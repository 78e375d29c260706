# Cosmictify

A Spotify panel applet for the COSMIC desktop: now playing, playback
controls over MPRIS, and a library "like" button backed by the Spotify Web
API (OAuth 2.0 with PKCE, tokens kept in the Secret Service).

The project is written in Verus. Its core is a verified library; a thin
program around it does the input and output.

## Layout

- `src/` — the verified library.
  - `spotify/types.rs` — endpoints, PKCE verifier and S256 challenge, OAuth
    state, authorization code, Client ID validation, token set and its
    redacted debug form.
  - `spotify/oauth.rs` — authorization URL, callback parsing, and the
    loopback listener's decisions (request line, response page, when a
    request has been read in full, what a callback yields).
  - `spotify/json.rs` — the token-endpoint JSON reader.
  - `spotify/client.rs` — the client state, the token exchange and refresh
    requests and their outcomes, the error surface.
  - `spotify/library.rs` — track ids and URIs, the `contains` response,
    and the library call state machine (one refresh and one retry on 401,
    one mutation in flight).
  - `spotify/keyring.rs` — token store trait, in-memory store, keyring
    failure categories.
  - `mpris/` — track snapshot, labels, track id extraction, player choice.
  - `session.rs` — connection and like-button state of the applet.
  - `art.rs`, `config.rs`, `logging.rs`, `text.rs` — small pieces and
    shared string helpers.
- `tests/` — tests of the library.
- `app/` — the applet: the COSMIC UI, D-Bus (MPRIS), HTTP (`ureq`), the
  Secret Service (`keyring`), the loopback socket and the browser.

