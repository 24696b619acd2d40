# twitch_pubsub

Connect to Twitch [PubSub](https://dev.twitch.tv/docs/pubsub): a pool of
WebSocket connections, each subscribed to at most fifty topics, with automatic
resubscription when a connection closes and custom token handling.

The decisions are a library verified with Verus (`src/`); the tasks, channels
and sockets that carry them out are ordinary Rust (`app/`).

## Layout

- `src/pubsub.rs`, `src/handler.rs`, `src/worker.rs`: the PubSub manager. The
  handler places batches of topics on workers, sends a worker's pending
  subscriptions when its connection opens, settles Twitch's answers, and
  subscribes again to every topic of a closed connection. Laws: every
  connection's topics (confirmed, waiting for an answer, and pending) stay
  within the limit and are counted, no topic is lost or added by subscribing or
  by opening a connection, ids and nonces stay distinct.
- `src/client.rs`, `src/connection.rs`: the pooled client. The client loop
  routes LISTEN and UNLISTEN requests, keeps each connection's active topics as
  Twitch confirms them, and answers callbacks; each connection is
  a state machine from setup through its open life to its closing.
- `src/wire.rs`: requests written and messages parsed by `twitch_api`, behind
  trusted wrappers whose results are named.
- `src/token_provider.rs`, `src/providers.rs`: where tokens come from.
- `app/`: `create_manager` and `PubsubClient`, the Tokio tasks around the
  library.
- `tests/`: the library's behaviour on concrete values.
