# melda_sec

A trust, governance and encryption layer for the Melda delta-state JSON CRDT,
written in Verus: every delta is a proposal, and only deltas that are
sufficiently endorsed by trusted keys that the policy authorizes (or that are
whitelisted, and not blacklisted) are read back.

- `src/` is the verified library: key store, policy engine, white- and
  blacklists, delta identifiers and endorsement file names, the decisions of
  the trust layer (screening a read, classifying endorsements, admitting a
  delta, endorsing), the encryption layer and the signing layer. Calls into
  ed25519-dalek, sha2, aes-gcm, base64, hex, globset, serde_json and melda sit
  behind small trusted wrappers in `crypto.rs`, `glob.rs`, `json.rs` and
  `deltaid.rs`.
- `app/` wires the library into melda's `Adapter` trait: storage reads and
  writes, and the JSON and YAML documents.
- `tests/` runs the library alone (`library.rs`) and inside melda
  (`integration.rs`).
