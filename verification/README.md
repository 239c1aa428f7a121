# r_audio

The core of the R-Audio Spotify kiosk, written in Verus: the parsing,
paging, caching, queueing, session and account logic are executable
functions with contracts proved by the verifier, and the program around it
(UI, network, disk, audio) calls into them, keeping only small glue
decisions of its own.

Layout:

- `src/` — the verified library.
  - `text.rs` character-level helpers (splitting, trimming, clock texts,
    keyboard editing), `json.rs` JSON documents as plain values.
  - `parser.rs`, `api.rs` — reading Web API responses into tracks, paging
    plans, request URLs, the discography order.
  - `queue.rs` the playback queue; `player.rs` the engine event relay and
    duration texts; `session.rs` the audio-session manager (backoff,
    rebuilds, resuming).
  - `cache.rs` the in-memory cache layers, the track→playlist index and the
    cache file names; `accounts.rs` the multi-account token book and token
    expiry arithmetic; `pairing.rs` remote pairing over server-sent events;
    `dashboard.rs` dashboard feeds and retries; `oobe.rs` the first-run
    Wi-Fi flow; `setup.rs` network scans, settings and the setup page; `imaging.rs` QR codes, decoded pictures,
    cover-art cache names and the visualiser seed; `covers.rs` the
    in-memory least-recently-used cover-art cache.
  - Laws that relate several calls are public proof functions named `law_*`.
- `tests/` — executable tests of the library.
- `app/` — the kiosk program: slint UI, HTTP, librespot playback, disk and
  system commands.
