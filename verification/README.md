# brewy

A search-first terminal interface for Homebrew, with its core verified by Verus.

## Layout

- `src/` — the verified library.
  - `text.rs`: control-character filtering, truncation, case folding, trimming,
    line splitting and decimal rendering.
  - `order.rs`, `sort.rs`: the byte order of names and a generic merge sort.
  - `fuzzy.rs`: the ranked fuzzy match used by search.
  - `model.rs`: packages and the Homebrew operations that act on them.
  - `catalog.rs`: building the catalog from `brew` listings and JSON reports,
    bulk metadata, and the cached catalog.
  - `app.rs`: the application state and how it answers keys, mouse wheel and
    background events; each answer names the work to start next.
  - `screen.rs`: the rows, captions and preview texts the interface shows.
  - `worker.rs`: background events, when to refresh metadata, how a refreshed
    catalog is put together, and the order in which staged operations run.
- `app/` — the program around the library: the terminal, the event loop,
  running `brew` and `curl`, the JSON and cache files, and drawing with ratatui.
- `tests/` — tests of the library.

Each public function states what it returns in its contract; the laws that
relate several functions are public proof functions named `law_*`.
