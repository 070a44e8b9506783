# wsrelay

A WebSocket relay for EasyTier networks that runs as a Cloudflare Worker. Peers that cannot reach
each other directly connect to a room; the relay passes their packets on and keeps all peers of a
network group up to date about each other.

- `src/` is the verified library: packet framing, network digests and keys, the route state of
  every group, RPC dispatch, and the decisions of a relay room, with contracts that Verus proves.
  `route_model.rs` holds the mathematical model of a group, `route_laws.rs` and
  `relay_laws.rs` state what holds whatever happens.
- `app/` is the worker around it: sockets, the Web Crypto API, message encoding, the clock.
- `tests/` runs the library on concrete values.

The library takes the time as an argument and draws random bytes through `getrandom`. Messages
reach it decoded; it returns the messages to send, and the worker encodes them.
