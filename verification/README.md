# kepler-daemon

The core of a process orchestrator, written in Verus: configurations are read, checked and
computed, services are ordered by their dependencies, and the state of each configuration is kept
by a machine of commands, replies and effects.

- `src/` is the library. Every function states what it does, and Verus proves it.
  - `config/` is the configuration: its fields, the expressions in it, how it is read from a tree,
    and how a service is computed when it starts.
  - `eager/` is for configurations whose values are all computed when they are loaded.
  - `config_actor/` is the state of a loaded configuration; `laws.rs` states what holds of every
    command.
  - `deps.rs`, `order.rs` and `graph.rs` order services by what they depend on.
  - `acl.rs`, `auth.rs`, `permissions.rs`, `hardening.rs` and `accounts.rs` decide who may do what.
  - `cursor.rs` and `log_lines.rs` read the logs of several services in order of time, batch by
    batch.
  - `lua_eval.rs` runs scripts and `yaml.rs` parses; `shelf.rs`, `digest.rs`, `env.rs`,
    `accounts.rs` and `eager/expand.rs` hold the other calls into outside crates. What is trusted
    of each call stands above it; `called.rs` keeps which call gave a result.
- `app/` is the daemon around it: files, processes, tasks, databases and serialization.
- `tests/` run the library with the outside crates linked.
