# quantaradar

Market-data ingestion and research bookkeeping for crypto markets, written in
Verus: the library's functions carry `requires`/`ensures` contracts that Verus
proves.

## Layout

- `src/` — the verified library.
  - Feeds: `websocket` (per-feed sequencing, buffering under a drop policy,
    connection bookkeeping, reconnect backoff), `feed_manager` (the feeds of
    many symbols, the global buffer, gap fill, staleness and
    auto-resubscription), `sequence`.
  - Books: `order_book` (sorted book sides, deltas, snapshots, replay,
    bounded delta history), `book_manager` (books of many symbols).
  - Storage and archives: `storage` (sequence-gap detection, deduplication),
    `archives` (timestamp gaps per stream, gap statistics, delta
    reconstruction, write batches), `archive_manager`, `batching`,
    `data_model` (dataset manifests and their checksum).
  - Research: `experiment` (experiment registry and lineage), `research`
    (sector map), `backtest` (walk-forward fold selection), `regime`,
    `screeners`, `classic_screeners`, `features`.
  - Sources: `kraken` (spot-market discovery and scan selection), `rss`
    (news items of an RSS document), `news` (keyword alerts, block numbers).
  - Shared: `domain` (including lineage manifests and their checksum),
    `core_types`, `cli`, `text`, `ingestion`, `reporting`.
- `tests/` — tests of the library on concrete values.
- `app/` — the command line: reading and writing files (manifests, batches,
  reports), the run loops, and the floating-point analytics (features,
  screener scores, backtests, factor models, ensembles, paper trading),
  calling the library for its decisions.

Outside crates (chrono, rand, uuid, std's hashing and formatting) are reached
from `src/` through a few trusted wrappers, each documented with what its
contract assumes.
