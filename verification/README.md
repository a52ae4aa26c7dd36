# prefix_x

A gateway in front of xAI's chat completions that makes requests about a
trending topic share one cacheable prompt prefix. For each of the current top
X trends it builds one fixed context block from the topic's most engaging
posts, puts that block first in every chat request that names the topic, and
sends those requests under one conversation id derived from the topic.

## Layout

- `src/` — the library, verified with Verus:
  - `text.rs`: white space, words, decimal and hexadecimal digits, trimming,
    substring search, and the few std calls they rest on;
  - `x.rs`: X trends and posts, the search query, and the ranking of posts;
  - `prefix.rs`: the context block of a trend and its conversation id;
  - `allocator.rs`: the table of held trends, its refresh and its lookups;
  - `json.rs`: JSON values as the library holds them, the reads it makes, and
    the serde_json calls that parse and write them;
  - `proxy.rs`: how a chat request is routed and how the block is injected;
  - `measure.rs`: the body of a measured streamed request, the reading of its
    server-sent events, and the resulting sample;
  - `state.rs`: the settings and how they are read from text;
  - `grok.rs`: chat messages and response counts.
- `app/` — the program around it: the Axum server, the X and xAI HTTP calls,
  the background refresh, and a few command-line tools (`run-test`, `grok-call`, `x-trends`, `trends`).
- `tests/` — tests of the library on concrete values.

## Running

`X_BEARER_TOKEN` and `XAI_API_KEY` must be set (a `.env` file is read).
`TREND_COUNT` (default 5), `POSTS_PER_TREND` (default 8) and
`REFRESH_INTERVAL_SECS` (default 300) tune the gateway.

```
GET  /trends                    active trends
GET  /trends/{name}             that trend's context block
POST /v1/chat/completions       header x-trend: <name> injects the block
```
