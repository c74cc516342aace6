# matchmaker

A matchmaking server for party-based games: parties submit tickets, a periodic
tick expires stale tickets, widens the search of tickets that have waited, orders
the queue by priority and age, groups compatible tickets into matches and
announces each match to the game's messaging service.

## Layout

- `src/` — the verified library (Verus).
  - `numbers.rs` — ratings as IEEE order keys (`Real`), with float comparison, `max`, `min`.
  - `types.rs` — tickets, parties, game modes, answers, and their views.
  - `configuration.rs` — the configuration, its validation rules, the standard region tables.
  - `matchmaker.rs` — search expansion and ticket expiry.
  - `buckets.rs`, `matching.rs` — rating buckets, candidates, and the match search.
  - `matching_laws.rs`, `matchmaker_laws.rs` — proved properties of matching, expansion and expiry.
  - `queue.rs` — queue selection, priority order, positions, bookkeeping of matched tickets.
  - `service.rs`, `auth.rs`, `delivery.rs`, `metrics.rs` — decisions of the HTTP endpoints,
    API key checks, match announcement retries, counters.
  - `settings.rs` — reading integer settings from their text.
  - `clock.rs`, `ids.rs` — the clock and random identifiers (trusted wrappers).
- `tests/` — tests of the library.
- `app/` — the server: environment, Redis, HTTP (axum), rate limiting, float arithmetic
  on ratings, JSON forms of the library's types.
