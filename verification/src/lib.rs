//! A key/value store committed to by the root of a base-16 Merkle-Patricia trie
//! (the Substrate `LayoutV1` format), with compact proofs of inclusion and
//! non-inclusion that can be checked against the root alone.
use vstd::prelude::*;

pub mod encoding;
pub mod error;
pub mod backend;
pub mod trie;
pub mod sandbox;

verus! {
} // verus!
