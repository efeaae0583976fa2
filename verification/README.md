# bms_get

A downloader for BMS rhythm-game charts. Given a chart's MD5, a difficulty
table URL or an event page URL, it asks several sources for download URLs,
resolves hosting pages to files, fetches and unpacks them, merges them into
one library directory and checks that the chart and most of the files it
refers to are present.

## Layout

- `src/` — the verified library (Verus). It holds every decision the
  program makes: which provider to ask next, which URL to resolve, which
  name a download is saved under, which extractor applies, where archive
  entries may go, which directory is a package's root, how pages are read,
  and when a download counts as complete. Network and file-system effects
  are not performed here; the download procedures are state machines that
  return the next action and take its outcome.
  - `download.rs` — the MD5 and event-entry download machines and the URL
    walker (each URL resolved at most once).
  - `analyze.rs`, `validation.rs` — chart detection, `#WAV`/`#BMP`
    references and the completeness check.
  - `extract.rs`, `organize.rs`, `merge.rs`, `store.rs` — extraction
    planning, package roots and merging, and the content-addressed store.
  - `provider.rs`, `song.rs`, `parser.rs`, `event.rs`, `table.rs` — the
    sources of URLs and the pages they serve.
  - `path.rs`, `text.rs`, `url.rs`, `html.rs`, `sjis.rs`, `pattern.rs`,
    `hashing.rs`, `filename.rs` — paths, text, and the calls into the
    `url`, `scraper`, `encoding_rs`, `regex`, `md5`, `sha2` and `hex` crates.
- `app/` — the command line and the effects: HTTP through a rate-limited
  `reqwest` client, JSON decoding, progress bars, zip/rar unpacking and file
  moves, each driven by the library's decisions.
- `tests/` — tests of the library on concrete inputs.
