# fpvjp_app

Signaling server for FPV video streams: senders (video sources) and
receivers (viewers) connect over a websocket, learn about each other, and
exchange WebRTC signaling messages that the server relays by session id. The
server also hosts the viewer's static files.

- `src/` is the verified library (Verus). Each server event is a step from
  the registry state to the next state and a list of addressed messages:
  `relay.rs` (connect, message, disconnect, idle sweep), `registry.rs` (the
  clients and pairings and their lookups), `protocol.rs` (client types and
  message type codes), `json.rs` (reading incoming messages with
  serde_json), `session.rs` (random session ids with nanoid),
  `connection.rs` (what a connection does with each websocket frame),
  `static_files.rs` (which file a request names, whether it lies inside
  the served directory, and how it is answered),
  `text.rs` (string helpers) and `laws.rs` (properties proved over the step
  specifications).
- `app/` is the server program: axum routes, websocket tasks, channels,
  timers, logging and file system access. It performs what the library
  decides.
- `tests/` runs the library on concrete scenarios.

## Design notes

- The registry keeps its clients and pairings in vectors, each session id
  at most once (`ids_unique`, `keys_unique`), rather than in
  `HashMap<String, _>`. Verus specifies `HashMap` only for keys whose
  hashing and equality it models, and with `String` keys not even the length
  after one insert can be proved, so no contract over a `String`-keyed map
  would verify. The vectors are viewed as sequences, looked up by key, and
  every step is proved against that model. A side effect is that sender
  lists and the idle sweep follow registration order, one of the orders a
  hash map could have produced.
- Well-formedness of the registry is a type invariant of `AppState`, so no
  step has a precondition. Its settings are read through `debug()` and
  `keep_alive()`, since a type invariant needs private fields.
