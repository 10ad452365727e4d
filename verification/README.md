# kvmesh

A small replicated key-value store whose nodes talk JSON over UDP. A client sends a command to
one node; the node carries it out, forwards it to the servers that it knows, and answers with
what most of them answered.

- `src/`: the logic, verified with Verus: commands on the stored pairs, collecting answers,
  the state machine of a node, message ordering, and the arguments of node and client. `model.rs`
  says what a node does, `node.rs` does it, `laws.rs` says what follows for the network.
- `app/`: sockets, clocks and tasks around the library. The program is a node; called as
  `client` it is the client.
- `tests/`: the library at work on concrete values.

`serde_json` and `chrono`, and two functions of the standard library, are called through a few
small functions in `json.rs`, `clock.rs`, `config.rs` and `client.rs` of `src/`. Their contracts
are taken as given; each says in its comment what it claims.
