# moviebox_tui

The rules of a self-hosted media download server, written in Verus and proved
against their contracts: the catalogue adapters and opaque identifiers, source
ranking, TMDB discovery, the MovieBox client's mirror rotation and session
handling, the download job lifecycle and its store, DASH manifest rewriting and
the local DASH proxy, library naming and path containment, authentication and
login throttling, configuration, notifications, and the MCP and HTTP route
checks.

## Layout

- `src/` — the verified library.
  - `json.rs`, `text.rs`, `urls.rs` — JSON values as plain data, character-level
    text helpers, and URLs read with the `url` crate.
  - `catalog/` — catalogue models, opaque identifiers (HMAC-signed), source
    ranking, the MovieBox adapters, TMDB rows and titles.
  - `providers/moviebox/` — mirror rotation (`host_step`), visitor sessions and
    token claims.
  - `server/` — configuration, authentication, events, notifications, routes,
    path security, the job model, store plans (`jobs/repository.rs`), the
    worker's decisions (`jobs/pipeline.rs`, `jobs/worker.rs`), DASH transfers
    (`jobs/dash.rs`, `jobs/manifest.rs`, `jobs/proxy.rs`), and the media library.
- `tests/` — tests of the library on concrete values.
- `app/` — the process side: serde wire forms, conversion of parsed JSON,
  gathering configuration and filesystem facts, running the containment check
  against the filesystem, reading proxy request heads, and the floating-point
  media checks.

Outside work that alternates with decisions (talking to mirrors, the DASH
transfer, path resolution, a claimed job) is written as step functions: the
library takes the state and what the outside work reported and returns the next
state and what to do, and the caller performs it.
