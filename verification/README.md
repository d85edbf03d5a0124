# cloudgrepper

grep for cloud storage: search log objects (plain, gzip or zip) in AWS S3,
Azure Blob Storage and Google Cloud Storage, printing matching lines the way
the Python `cloudgrep` tool prints them.

The search logic is a Verus library whose functions carry contracts proved by
Verus; the command-line program around it is ordinary Rust.

- `src/` — the verified library:
  - `text` character helpers (trimming, splitting, searching);
  - `decompress` UTF-8 decoding that drops undecodable bytes, universal
    newlines, line splitting, gzip/zip unpacking;
  - `json`, `pyjson` JSON values and their rendering as Python's
    `json.dumps` and `repr()` (floats in Python's `repr` form, such as
    `1e+16`; non-printable characters escaped by their Unicode category);
  - `logparse` the `json`/`jsonl`/`csv` log formats and property paths;
  - `output` the printed forms of matches;
  - `search` the matching engine, including two-stage matching of parsed
    log records and Azure export files;
  - `filters` listing filters and date parsing;
  - `cli`, `runner` option handling and the decisions of a run;
  - `yara` Yara scanning and its report.
- `app/` — the `cloudgrepper` binary: clap, logging, tokio, the cloud
  providers and the concurrent fetch-and-search loop.
- `tests/` — tests of the library with concrete inputs.
