# media_manager

A client/server tool that scans a media library, probes files with ffprobe
and re-encodes them with ffmpeg. This crate is its verified core, written in
Verus; `app/` holds the server (axum, SQLite through rusqlite, the ffmpeg and
ffprobe processes) and the HTTP client (reqwest) around it.

Layout of `src/`:

- `media.rs` — resolution profiles, codecs, job status, their wire names, and
  the media-file, request and job records.
- `text.rs` — characters, decimal numerals, `u64` parsing, prefixes, ASCII
  case, lexicographic order.
- `numeral.rs` — numbers in the forms `f64` parsing accepts (sign, point,
  exponent, infinity, NaN), read exactly and scaled by powers of ten.
- `order.rs` — stable ordering of items by key.
- `paths.rs` — path parts (std `Path`) and the output path of an encode.
- `ffmpeg.rs` — the ffmpeg command line, progress lines, exit verdict, media
  extensions, order of scanned paths.
- `probe.rs` — ffprobe's JSON report (serde_json) read into a media file.
- `ids.rs` — fresh identifiers (getrandom, uuid) and timestamps (std clock, chrono).
- `jobs.rs` — job creation, lifecycle updates, database rows.
- `routes.rs` — the answers of the HTTP handlers.
- `browse.rs` — directory listing order and the browse answers.
- `api.rs`, `client.rs` — the response envelope and client URLs.

Durations are held in whole microseconds and progress in hundredths of a
percent; the JSON and SQL forms in `app/` carry them as floating point.
