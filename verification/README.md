# signals-sdk

A reconnecting Server-Sent-Events client for signal streams, with its
decision logic verified in Verus.

- `src/` — the verified library:
  - `text` — character-level helpers on strings (whitespace, trimming, search);
  - `sse` — the SSE line parser and its laws (CR handling, comments, event
    boundaries, what a `data:` line gives back);
  - `stream` — turning response-body chunks into lines and events, tracking
    the latest event id; laws on chunking;
  - `config`, `error` — configuration validation, HTTP status classification;
  - `request` — the subscription URL (through `reqwest::Url`) and headers;
  - `reconnect` — the step of the reconnection loop, and the replay law;
  - `signal` — the signal value.
- `app/` — the asynchronous client around it: the HTTP requests, the
  spawned connection task, the backoff timing, and serde conversions.
- `tests/` — tests of the library.
