# nexum

A verified core for an authoritative multiplayer server: a runtime that
coordinates worlds and workers, a realtime gateway with its wire protocol, and
the registry of reducers (server functions that run in one transaction). The
library is written in Verus: what the functions under `src/` do is stated in
contracts that Verus proves, and the laws that span functions are public proof
functions. The traits that users implement state what they log, not what they
answer.

## Layout

- `src/base`: identifiers, values, rows, changes, queries, messages, ordered
  tables and bounded logs.
- `src/reducer`: arguments, events, the context a reducer sees, definitions and
  the registry.
- `src/runtime`: the runtime as a state machine. `model.rs`, `setup.rs` and
  `report.rs` hold its transitions, `coordinator.rs` the code that implements
  them, `laws.rs`, `order.rs` and `steps.rs` what holds of them.
- `src/network`: the protocol (`wire.rs`, `payload.rs`, `protocol.rs`,
  `frame.rs`, `checksum.rs`), the transports, sessions, rate limits, and the
  gateway. `gateway_model.rs` holds the gateway's transitions, the other
  `gateway_*.rs` files the code, `gateway_laws.rs`, `laws.rs` and `answers.rs`
  what holds of them.
- `app`: sockets, the clock, directories and the host loop.
- `tests`: the library from outside, against toy worlds in memory.

## How outside work enters

The library performs no I/O. The runtime plans a tick, the host runs it and
hands back what came of it, and the runtime settles it. The gateway asks
transports, an authenticator, a policy and subscription registries through
traits; each question and its answer is kept in a ghost record, and each
operation is a function of the gateway's state and that record. The record is
borne out by those it speaks of: transports and registries log every contact,
and what the authenticator and the policy said is what they may say. A reducer
reaches its transaction through a context that holds it, and an invocation
gives the transaction back, so what was done to it is stated to the last
access. The logs are ghosts: an implementation of these traits in plain Rust
keeps none, and that it behaves as the traits say is its author's word.

Request ids are the clients' own: they are unique per connection only, so two
clients may use the same one at the same time.
