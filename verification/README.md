# resonance

A Pusher-protocol WebSocket server whose logic is a Verus-verified library.

- `src/` — the verified library. `rest_auth` (REST request signing),
  `channel_auth` (private and presence channel authorization), `channels`
  and `session` (subscriptions, presence, client events, connect and
  disconnect), `api` (the HTTP API: publishing and inspection), `webhook`,
  `connection` (upgrade admission, activity timer), `config`, `rate`, the
  JSON frames (`json`, `roster`), and the building blocks (`bytes`, `query`,
  `crypto`, `clock`, `state`). `laws` states properties of the whole:
  signed requests are accepted and stale or unsigned ones refused, senders
  never receive their own events, subscribing then unsubscribing restores a
  channel, and more.
- `app/` — the server program: configuration, axum routes, sockets, the
  delivery of frames and webhooks.
- `tests/` — tests of the library on concrete values.

Outside crates (`hmac`/`sha2`, `md-5`, `hex`, `subtle`, `dashmap`, `tokio`'s
clock) are reached from the library through small trusted wrappers whose
contracts say what the crates document.
