# steel

The core of a plugin framework for a game server, written in Verus.

`src/` is the verified library:

- `identifier` — `namespace:path` identifiers and their validation.
- `event` — the event types and the plugin-side event API: handler
  registrations (`HandlerBuilder`) and fire requests as plain argument bundles.
- `order` — the run order of an event's handlers: a topological sort of the
  `before` / `after` constraints with ties broken by the hash of the plugin id
  and the registration index; handlers caught in a cycle follow in hash order.
  Its specification is declarative; the order is proved unique, and the
  constraints are proved to be resolved (honoured, with no warning) exactly
  when they have no cycle.
- `registry` — the host's event table, with a cached run order per event that
  registration invalidates.
- `dispatch` — a fired event as a state machine that names each handler to
  call and folds in what it returned (cancellation, panics).
- `command` — command registration, the command context, the host's command
  table and the example `hello` command.
- `host` — the host state reached through the host API (named counters, a
  log) and the example announcer plugin.
- `strmap` — the string-keyed table the registries are built on.

`app/main.rs` is the host program: it loads plugin libraries, owns the
`extern "C"` vtables and handler function pointers, and drives the library.
