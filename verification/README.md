# zenproxy

The proxy pool of a forwarding service, verified with Verus: which proxies a client is given, how
the pool is listed, and how a request is relayed through a proxy.

## Layout

- `src/` is the library. Every function has a contract that Verus proves, but for the calls into
  other crates that are named below.
  - `pool`, `proxy`, `store`: the pool, what it holds, and the concurrent map underneath
  - `query`, `order`, `listing`, `paging`: filters, list queries, sort orders, pages, and how the
    pages of several calls fit together
  - `sample`, `fairness`: random choice by reservoir sampling, and why it is fair
  - `fetch`: the answers of the fetch and list endpoints
  - `relay`: the relay endpoint as a state machine
  - `clients`, `request`, `headers`: the HTTP clients, the request to the target, and the headers of
    both directions
  - `json`, `risk`, `text`, `error`: values
- `app/` holds the HTTP handlers. They read and write, await, and do what `relay` decides.
- `tests/` runs the library with the crates that it calls.

## What is taken on trust

Calls into `dashmap`, `rand`, `serde_json`, `reqwest`, `axum::http`, `percent_encoding` and
`str::to_uppercase` are small functions marked `external_body`. The comment above each says what is
claimed of the call. What a value of one of these crates holds has a name without a definition, such
as `pool_contents` for a map of proxies.

Functions named `law_...` state what holds of several functions together: for example that pages
cover a listing, that a relay sends at most five requests, and that every proxy is equally likely to
be chosen.

Risk scores are double-precision numbers. The library holds them as their bits and compares those.
