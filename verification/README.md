# papr_sync

Synchronises a local news reader with a server that speaks the Google Reader
interface (FreshRSS, Miniflux). The library under `src/` is written in Verus: its
executable functions carry contracts, and the promises that span several of them
are proof functions named `law_*`.

- `src/world.rs` lists what the library asks of the world around it and what it
  hears back. Every operation is a machine with `action` and `accept`.
- `src/sync.rs` puts the whole synchronisation together from the passes in
  `queue.rs`, `folders.rs`, `feeds.rs`, `pull.rs` and `reconcile.rs`; `src/shelf.rs`
  and `src/second_run.rs` state what applying the server's articles comes to on a
  model of the store.
- `src/opening.rs`, `src/settings.rs` and `src/provider.rs` hold the connection;
  `src/greader.rs` and `src/http.rs` the requests; `src/tags.rs`, `src/item.rs` and
  `src/paging.rs` the data that comes back; `src/text.rs` the text operations.
- `app/` performs the actions: it sends the requests, reads the JSON of the
  replies and calls the local store.

Two results come from outside crates and are named rather than specified: the
value that a JSON text writes (`serde_json`) and the RFC 3339 text of a point in
time (`chrono`).
