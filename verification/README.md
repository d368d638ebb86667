# acropolis

Authorized anonymous voting. An election is named by its authority's
secp256k1 key; the authority issues each voter an identity, its signature over
the voter's key followed by the election's key. An election has a fixed set
of options and of authorized identities. A voter proves in a zkVM guest that
the vote is signed by a key the authority vouched for, and the registry
records, per authorized identity, the first vote whose proof verifies; later
votes of that identity, votes of identities the election did not authorize and
choices outside its options are refused. The service starts with two
elections, each with an authority and five authorized voters.

Layout:

- `src/` — the verified library (Verus):
  - `circuit.rs`: the checks of the vote circuit;
  - `prover.rs`: key pairs, issued identities, and the circuit's inputs;
  - `state.rs`: the election registry, one vote per authorized identity;
  - `identity_map.rs`, `order.rs`: the identity-ordered maps it keeps;
  - `receipts.rs`, `audit.rs`: reading, accepting and auditing receipts (the
    audit flags receipts whose proof fails and voters who vote again);
  - `encoding.rs`, `crypto.rs`: hexadecimal text and secp256k1 keys;
  - `dashboard.rs`, `cli.rs`: the dashboard state and the voter's commands.
- `app/` — the programs around it: the voter's tool, the registry's HTTP
  service and the terminal dashboard. The voter's tool proves with the zkVM
  guest whose ELF `ACROPOLIS_ELF` names; that guest is not part of this crate
  and must read the circuit's inputs, run `circuit::verify_vote` on them and
  commit its outputs, or the registry's checks say nothing about its votes.
- `tests/` — tests of the library.
