# stockgo

A console tool that keeps lists of stock-market data sources (URLs with
`@num`, `@date` and `@Post:` placeholders), downloads them day by day,
reads the downloaded HTML, JSON or CSV tables, selects and exports columns,
back-tests strategies on them, and signs and shares articles and lists
through a small trust layer.

The library in `src/` is verified with Verus: every public function states
what it returns in its `requires`/`ensures`, and the laws of the library
(adding then deleting a list, taking in a shared list twice, daily date
streams, aligned columns, deleting a just-posted record, reading back a
saved relay or a new identity, ...) are proof functions or `ensures`
clauses.

- `config`, `manager`: the download lists, their date and number streams,
  the relay file, and the downloads they call for.
- `crawl`: one fetch — host tag, codec, headers, decoding, tagging.
- `lib_utils`, `html`, `parse`: reading downloaded tables and the requested
  columns.
- `selecter`, `backtest`, `formula`: selections of columns, their export,
  the trades of a strategy, and the script, input and output of a column
  formula.
- `trust`, `share`: node identity, articles, sealing, signing, the record
  store, and the payload a shared list travels in.
- `cli`: the console's menus and commands.
- `text`, `codec`, `crypto`, `dates`, `json`, `pattern`, `random`: text
  helpers, and the calls into `hex`, `encoding_rs`, `sha2`, `aes`,
  `ed25519-dalek`, `chrono`, `serde_json`, `regex`, `scraper`, `csv` and
  `rand`, each behind a small trusted wrapper whose contract says what the
  crate gives.

`app/` is the program around the library: files, HTTP (`ureq`), threads,
`bun` for strategies and formulas, `rkyv` for records, and the menus' I/O.

The trust layer's record store is the library's own: a `Vec` of signed
records of the library's own type, which `app/` writes with `rkyv`. It does
not use the `cdDB`, `io_oi_core` or `io_oi_engine` crates, which are not on
the crates.io registry, and it keeps no separate on-disk cache of records.
