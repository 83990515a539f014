# mybops-wasm

The web client of mybops, an app for rating and ranking lists of items
(songs, shows, restaurants) and for following NFL standings.

- `src/` is the verified library (Verus). It holds the client's decisions:
  reading Spotify and setlist.fm links, the settings form of a list, the item
  page's saves, the random match and random round queues, the NFL season with
  its records and tiebreakers, the addresses the client requests, and which
  page, tab, menu and view is shown. Each public function states its result
  in its `ensures`; the `law_*` proof functions state what holds across calls.
- `app/` is the browser side: the requests to the server and to the
  scoreboard service, and the JSON forms of the library's types.
- `tests/` runs the library on concrete values.

Verify with `verus` on `src/lib.rs`; the tests run with `cargo test`.
