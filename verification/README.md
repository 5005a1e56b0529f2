# stream_archive

The verified core of Stream Archive, a local archive that records SOOP and
CHZZK LIVE broadcasts and downloads their VODs with Streamlink, yt-dlp and
FFmpeg.

## Layout

- `src/` is the library, written in Verus: every executable function
  carries a `requires`/`ensures` contract that Verus proves, and the
  properties that span several functions stand as public proof functions
  (their names begin with `law_`).  It holds the rules of the runtime:
  settings, secret and channel validation; platform routing and account
  checks; the LIVE watcher's state machine (polls, rechecks, recorder
  events, commands, hot reloads); the Streamlink and yt-dlp command lines;
  VOD naming, progress and retries; history search; backups, diagnostics,
  tool discovery, the login limiter and session cookies; and the texts of
  the files the runtime writes.
- Outside crates (`regex`, `url`, `chrono`, `base64`, `uuid`, `sha2`) are
  called from `src/` through small wrappers whose contracts name what the
  crate returns; those contracts are trusted, not proved.
- `app/` is an ordinary Rust command-line front end: it reads the SQLite
  database and the file system, keeps new secrets in the Linux Secret
  Service, hands plain values (and the outcome of each outside action) to
  the library, and prints or writes what comes back.
- `tests/` runs the library on concrete values.
