# Consensus-layer peer-to-peer node

The logic of a small node of a consensus layer's peer-to-peer network, verified with
Verus, and the program around it.

- `src/` is the library: the codecs, messages and connection handler of the
  request/response domain, peer management, discovery bookkeeping, node records, and
  gossip messages. Every function in it has a contract that Verus proves, but for the
  wrappers of outside crates, whose contracts are believed.
- `tests/` runs the library with the outside crates linked.
- `app/` is the node: transport, timers, streams and the event loop, over `libp2p` and
  `discv5`.

A poll of a connection's handler, of the peer manager and of discovery is a dialogue: each
step tells the program what to try next, and is answered with what came of it.
