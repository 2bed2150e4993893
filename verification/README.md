# containeros

The decision logic of ContainerOS, a Linux distribution run entirely through
an API: a state manager holds the desired resources, asks a reconciler for each
schema to validate and reconcile them, and keeps the dependency graph between
them up to date. Every function of `src/` is proved with Verus against its
`requires` / `ensures` contract.

## Layout

- `src/model.rs`: keys, identities, phases and statuses, with the laws that
  relate their text form to their value.
- `src/keymap.rs`, `src/queue.rs`: the keyed store and the deadline queue of
  the state manager, with the laws of draining due keys.
- `src/resource.rs`, `src/state.rs`: stored resources and the state manager's
  decisions (planning an update, recording an answer, removing a subtree,
  rewiring dependents, bundling the state for disk and restoring it).
- `src/system.rs`: the system manager's resources and deadlines.
- `src/api.rs`, `src/install.rs`, `src/boot.rs`, `src/messages.rs`: the
  management interface (authorization, configuration pushes and pulls, disk
  installation steps, start-up configuration).
- `src/reconcile.rs`, `src/dns.rs`, `src/container.rs`, `src/network.rs`,
  `src/managers.rs`, `src/linux.rs`: what each reconciler decides from a
  specification and the state it observed.
- `src/text.rs`, `src/json.rs`: string helpers and JSON text building.
- `tests/`: tests on concrete values.
- `app/`: the state-manager program: gRPC transport, serde encodings, the
  reconciliation loop, disk commands and files.

Password hashes are checked with `argon2` and random numbers are
drawn with `rand`; both calls stand behind small trusted wrappers whose
contracts say what those crates document.
