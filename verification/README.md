# system-monitor-web

A small self-hosted system monitor: an HTTP service that reads Linux `/proc`
and `/sys` files and a few tools (`ps`, `ss`, `nvidia-smi`), and serves the
readings as text, JSON and a dashboard page.

## Layout

- `src/` — the library, verified with Verus. It holds everything that
  decides what the readings are: the text parsers for `/proc/stat`,
  `/proc/meminfo`, `/proc/net/dev`, `/proc/cpuinfo`, `ps` and `ss` output,
  the per-sample trackers that turn counters into growth between samples,
  power-supply and RAPL energy arithmetic, and sensor naming.
  - `text` — `str` behaviour over characters: lines, words, split, trim,
    integer parsing and formatting, each with a spec function.
  - `label_map` — a map from labels to values with distinct labels.
  - `cpu`, `mem`, `net`, `procs`, `bandwidth`, `power`, `gpu`, `temps`,
    `sysinfo` — one module per kind of reading.
  - `patterns` — regular expressions, matched by the `regex` crate.
- `app/` — the HTTP service (axum), file, process and clock access, the
  shared state, and the floating-point rates and percentages.
- `tests/` — tests of the library.
