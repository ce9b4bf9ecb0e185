# lumen-core

The policy core of an agent runtime, written in Rust and proved with Verus.
Agents propose actions; this library decides which of them may run, under whose
authority, with what budget, and on what data, and keeps the record of it.

## Layout

`src/` is the verified library.

- `canonical`: one form for paths, hosts, ports, destinations and scopes, and
  what it means that one scope is within another.
- `lease`: signed leases, their sessions, minting, delegation, chains, one-shot
  grants and the authorization of an action.
- `budget`, `execution`, `boot`: the ledger of reservations and debits, the
  driver that settles executions, and the reconciliation at boot. `budget_laws`
  and `execution_laws` state what every operation keeps.
- `nonce`, `keys`, `digest`: replay protection, Ed25519 keys and digests.
- `kernel_audit`, `audit`: hash-chained logs, redaction, checkpoints and
  queries.
- `pi_boundary`: action envelopes, decisions, the in-process kernel and its
  wire protocol.
- `capability`, `policy`, `approval`, `action`: capabilities, decisions of the
  policy, and approvals that are used once.
- `context`, `egress`, `provider`, `model`: what data a model may see, and which
  provider it may go to.
- `orchestration`, `artifact`, `worker`, `operator`, `automation`, `extension`:
  task graphs and their states, worker artifacts, operator controls, schedules
  and plugin manifests.
- `text`, `json`, `sorting`, `table`, `ordered`, `lists`, `ip`, `url_parts`,
  `version`, `ids`, `identity`, `clock`, `secret`: the ground the rest stands
  on.

Each type has a mathematical view, and each function says in its contract what
it returns or changes over these views. Properties that relate several
functions are public proof functions beside them.

Calls into outside crates stand behind small wrappers marked
`#[verifier::external_body]`. The comment above each names the outside function
and says what is taken on trust.

`app/` is ordinary Rust around the library: the listener of the kernel, path
resolution on the real file system, asynchronous ports to models and executors,
and the conversion of stored values. `tests/` runs the library with the real
outside crates.
