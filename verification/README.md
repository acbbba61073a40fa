# bsky_context

Conversation graphs ("context webs") of Bluesky posts: the reply tree of a
post and every quote post, recursively, with lenses that render such a graph
as text. The library is written in Verus; each function carries a contract
that the verifier proves.

## Layout

- `src/` — the verified library.
  - `uri`, `strings`, `text` — post references, string and number formatting.
  - `model`, `ordered_map`, `collections` — the web model (threads, posts,
    quote edges, the URI index) and the keyed collections it rests on.
  - `api` — wire types of the AppView requests, the `Fetch` and `Clock`
    traits that platform adapters implement.
  - `crawler` — the thread-level breadth-first crawl as a state machine, the
    retry policy and the rate limiter.
  - `lens/` — the renderings (tree, linear, by-author, stats, threads,
    highlights, neighborhood, timeline, search, raw), with the shared
    depth-first walk in `lens/walk.rs`.
  - `json` — the stored JSON document of a web.
  - `storage`, `route`, `cache`, `mcp` — choosing a stored web by
    identifier, the worker's routes and cache rules, and the MCP framing.
- `tests/` — tests of the library on concrete values.
- `app/` — the command-line program: argument handling, HTTP, the clock,
  files, and JSON decoding.
