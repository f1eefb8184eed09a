# mux

The bookkeeping of a terminal multiplexer, verified with Verus.

`src/` is the library. `state.rs` describes the multiplexer as a mathematical
object and says what each operation makes of it; `store.rs` holds the tables and
the elementary ways to change them; the operations themselves are in `removal.rs`,
`pruning.rs`, `growth.rs`, `spawn.rs`, `focus.rs`, `clients.rs`, `workspaces.rs`,
`subscribers.rs`, `domains.rs`, `lookup.rs` and `global.rs`. Each of them is proved
to do exactly what `state.rs` says. `laws.rs` and `pruning_laws.rs` state what holds
across operations.

What may yet produce a window holds pruning back; `activity.rs` counts it, for all
multiplexers together. Whether a pane is dead is for the host to see: it reports so,
and then has what is dead pruned.

Four state machines stand beside the multiplexer: `parser.rs` batches the output
of a pane, whose text `actions.rs` puts together, `reader.rs` keeps that output
flowing, `listener.rs` runs the socket on which clients connect, and `win_child.rs`
follows a child process on Windows.

The library makes no system call. It is told what happened, and it says what has to
be done. `app/` does these things: it owns the threads, the locks and the sockets.

`tests/` runs the library.
