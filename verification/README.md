# androiptv

The backend of an IPTV player: it imports M3U playlists and Xtream Codes
panels into SQLite, and runs a LAN HTTP server so a TV browser can play the
channels (an HLS proxy that rewrites playlists to stay same-origin, and an
ffmpeg remuxer for raw MPEG-TS, which copies the video and re-encodes the
audio to AAC, since browsers cannot decode the AC3/EAC3 audio of many IPTV
streams).

## Layout

- `src/` — the library, verified with Verus. Every public function states
  what it returns in its `ensures`, over models built from `Seq`, `Option`
  and spec functions; the laws that relate several functions are public
  proof functions (`lemma_*`).
  - `m3u` — the playlist parser, specified over the decoded text.
  - `xtream` — panel URLs, credential check, rows, series episodes.
  - `json` — the JSON values the Xtream logic reads.
  - `server` — advertised address, play resolution; `hls_proxy` (playlist
    rewriting, playlist detection), `ffmpeg` (remux command line, session
    eviction and expiry, stderr ring, segment names).
  - `net` — which local addresses are advertised, and in what order.
  - `db` — rows, group resolution, import statistics, search patterns.
  - `commands` — playlist naming, server preferences, import assembly.
  - `text`, `urls` — character helpers, and the calls into the `url` crate.
- `app/` — the I/O around the library: SQLite (`rusqlite`), HTTP
  (`reqwest`, `axum`), processes and files (`tokio`), and the interface
  list (`local-ip-address`).
- `tests/` — tests of the library on concrete values.
