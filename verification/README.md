# resurreccion

Capture and restore of terminal workspaces: a daemon that keeps workspaces,
snapshots and events in a store, multiplexer and editor adapters, aigent
clients, a planner, federation routing and a command-line client.

## Layout

- `src/` is the library, verified with Verus. Public functions state what
  they return in their contracts; where a result comes from a trait the
  caller implements (a verb handler, a walk visitor, a multiplexer backend,
  an aigent), the contract says which calls are made, with what arguments,
  and ties the result to what that implementation returned. The laws that
  relate several functions are public proof functions beside them.
  - `dag/`: the event topology checks (acyclicity, termination, wiring,
    completeness) and the depth-first walk they share.
  - `proto/`: the wire protocol (requests, replies, envelopes, verbs,
    capability messages) and JSON string escaping.
  - `daemon/`: verb dispatch, capability negotiation, the daemon's own
    topology, the store records and the store verbs, the event bus records,
    timestamps. A store verb is a machine: from its state and the last
    answer it either asks the next question (of the store, the file system,
    the clock or the shell) or replies.
  - `domain/`: identifiers, binding keys, fidelity levels, events, error
    codes.
  - `editor/`, `mux/`, `aigents/`: what the adapters decide (arguments,
    requests, how answers are read); the processes, sockets and HTTP calls
    are the caller's.
  - `planner`, `federation`, `headless`, `bundles`, `dir`, `cli/`: plans and
    their execution against a multiplexer, peer routing, batch mode, bundles,
    directory binding keys, command-line parsing.
- `app/` is the command-line program and the glue that needs the operating
  system or serialisation: process and socket I/O, HTTP, `clap` and `serde`
  forms of the library's types.
- `tests/` runs the library on concrete values.
