# Sailfish

The decisions of a DAG-based Byzantine fault tolerant replica, written in Rust
and proved in Verus: how primaries certify and order headers, how replicas agree
view by view, how workers check and announce batches, and how clients are
answered.

- `src/` is the library. Every handler takes a message and what the store knows,
  updates the state, and lists the actions to carry out; its contract names the
  step as a function of the state before. `primary/laws.rs` and
  `consensus/laws.rs` state what every step keeps to.
- `crypto.rs` ends with the five calls into `ed25519_dalek` that the proofs rest
  on.
- `tests/` runs the library on concrete values.
- `app/` is the program around it: sockets, files, timers and the store.

Run `sailfish generate_keys --filename node.key` to make a key pair,
`sailfish run --keys .. --committee .. --store .. primary` (or
`worker --id 0`) to run a node, and `sailfish client` to send transactions.
