# proving_trie

A verified key/value store of account balances committed to by the root of a
base-16 Merkle-Patricia trie (Substrate's `LayoutV1` format over Blake2-256),
with compact proofs of inclusion and non-inclusion.

- `src/encoding.rs`: the SCALE encoding of `u32` keys and `u128` values, with
  the lemmas that decoding inverts encoding and that key encodings are distinct.
- `src/error.rs`: `TrieError`, `DispatchError` and the faults the trie backend
  reports, with their conversions.
- `src/backend.rs`: the trusted boundary with `sp-trie` (building, reading,
  proving, checking proofs), with names for what these compute.
- `src/trie.rs`: `BasicProvingTrie`, `verify_proof` and
  `verify_single_value_proof`, with their contracts and laws.
- `src/sandbox.rs`: the benchmarking sandbox of a contract call and the call
  stacks made from it.
