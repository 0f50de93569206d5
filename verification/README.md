# synapse

A websocket publish/subscribe server. Clients connect over a websocket,
join named channels, and broadcast JSON messages to the other members of a
channel; channels can announce who is in them and can ask an HTTP service
whether a client may join. An HTTP API creates, lists, looks up and deletes
channels, which are kept in RocksDB.

The logic is a Verus-verified library:

- `src/channel/`: channels and their connections (`map`), the handling of
  client and API commands (`store`), a storage-free relay variant (`relay`),
  and the laws that relate the operations (`laws`).
- `src/ws/upgrade.rs`: the websocket opening handshake (request checks,
  subprotocol choice, `Sec-WebSocket-Accept`).
- `src/api/channels.rs`: how API requests become commands and results become
  HTTP answers.
- `src/connection.rs`, `src/message.rs`, `src/auth.rs`, `src/addr.rs`: the
  connection's answers to its client, the protocol messages, authorization,
  and peer addresses.

Operations that change the channels do not send anything themselves: they
queue deliveries (a frame and the addresses of its recipients), which the
program around the library takes and sends.

`app/` is that program: the axum server, the websocket tasks, JSON
encoding, the RocksDB storage, the authorization requests and the
Prometheus metrics.
