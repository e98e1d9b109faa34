# tabbify_mesh

The core of an overlay mesh, written and verified with Verus: a coordinator
that keeps the roster of peers, and the fabrics that carry messages between the
applications behind them.

## Layout

- `src/roster/` is the coordinator: allocation of addresses, joining and
  leaving, heartbeats, commands, connectivity, what each viewer may see, and
  the snapshot that a restart begins with. It takes the time and the answers of
  other services as arguments and returns what is to be published, broadcast
  and saved as a list of effects.
- `src/traversal/` decides under which endpoint a peer can be reached and which
  pairs of peers are told to dial each other.
- `src/fabric/` has the packets, frames and routing tables of the three fabrics
  (in one process, over loopback sockets, over WireGuard tunnels).
- `src/tun/` has the names, frames and setup steps of TUN devices.
- `src/net/`, `src/text.rs`, `src/numeral.rs`, `src/radix.rs` and
  `src/order.rs` hold addresses, their textual forms, and what the rest is
  stated with.
- `src/bindings/` is all that is trusted: each item there that is not proved
  stands for one function or type of std or of another crate, and its contract
  says what is taken to hold of it.
- `app/` runs the library: sockets, files, timers, locks and devices.

Contracts are stated over views, mathematical values of the types. A property
that spans several functions is a public proof function whose name begins with
`law_`; those on the coordinator stand in `src/roster/coordinator/laws.rs`.
