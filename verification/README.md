# waverunner

The core of a media-library application, verified with Verus: how media
files and folders are named and classified, content fingerprints, the
catalog's saved orders and scan reconciliation, interactive (branching)
titles and their playback engine, and the small state machines around them
(background jobs, rich presence).

## Layout

- `src/` — the verified library. Every function carries a contract; the
  laws the library promises are proof functions named `law_*`.
  - `text`, `json`, `keyed`, `state` — strings, JSON values and keyed lists.
  - `naming` — episode, season, song and folder name conventions; file kinds.
  - `content_hash`, `fingerprint_reads` — media-region fingerprints (retagging
    keeps them), and the byte ranges a fingerprint needs read.
  - `scan`, `music`, `migrate` — library scan and rescan decisions (video and
    music libraries); schema migrations.
  - `catalog`, `scope`, `credits`, `people`, `ratings` — catalog records, saved
    orders, sort scopes, credit captions and a person's credits, ratings answers.
  - `interactive`, `validate`, `expr`, `choice`, `session`, `engine`,
    `driver`, `resume` — interactive titles: files, validation, the
    precondition language, routing, and the tick-by-tick playback decisions.
  - `jobs`, `presence`, `config` — the job table, the presence worker, and
    the configuration file's rules.
- `tests/` — tests run against the compiled library.
- `app/` — the command-line program and the I/O around the library: reading
  folders and files, JSON parsing, the configuration file, and the loops that
  drive the player, the presence connection and the job table.
