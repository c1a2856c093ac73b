//! The trusted boundary with `sp-trie`: the node database of a `LayoutV1`
//! trie over Blake2-256, and the four operations that the proving trie makes
//! on it (build, read, prove, check a proof). What these operations compute is
//! given names; beside the names stand only the facts that the crates' source
//! and documentation show.
use crate::error::{LookupFault, ProofFault};
use sp_core::{Blake2Hasher, H256};
use sp_trie::{LayoutV1, VerifyError};
use trie_db::TrieError as NodeError;
use vstd::prelude::*;

verus! {

/// The node database of a `LayoutV1` trie over Blake2-256: trie nodes stored
/// under their hash, in an `sp_trie::MemoryDB`. Its contents are opaque to the
/// proofs and are known only through `stored_nodes`; the four operations below
/// are the only code that touches the database.
#[verifier::external_body]
pub struct NodeDb {
    db: sp_trie::MemoryDB<Blake2Hasher>,
}

/// What a node database holds: each live node's encoding, under its key.
pub uninterp spec fn stored_nodes(db: NodeDb) -> Map<Seq<u8>, Seq<u8>>;

/// The root that `sp_trie::delta_trie_root` gives when the key/value pairs
/// `entries` are inserted, in order, into an empty `LayoutV1` trie.
pub uninterp spec fn built_root(entries: Seq<(Seq<u8>, Seq<u8>)>) -> Seq<u8>;

/// What `sp_trie::read_trie_value` gives for `key` in the trie with root
/// `root` whose nodes are `nodes`.
pub uninterp spec fn read_value(nodes: Map<Seq<u8>, Seq<u8>>, root: Seq<u8>, key: Seq<u8>) -> Result<Option<Seq<u8>>, LookupFault>;

/// What `sp_trie::generate_trie_proof` gives for `keys` in the trie with root
/// `root` whose nodes are `nodes`: the compact proof, or a fault.
pub uninterp spec fn proof_for(nodes: Map<Seq<u8>, Seq<u8>>, root: Seq<u8>, keys: Seq<Seq<u8>>) -> Result<Seq<Seq<u8>>, LookupFault>;

/// What `sp_trie::verify_trie_proof` says of `proof` for the statement `items`
/// (each key with its value, or with none for absence) against `root`.
pub uninterp spec fn proof_verdict(root: Seq<u8>, proof: Seq<Seq<u8>>, items: Seq<(Seq<u8>, Option<Seq<u8>>)>) -> Result<(), ProofFault>;

/// The value that the last pair with key `key` in `entries` carries, if any.
pub open spec fn last_value(entries: Seq<(Seq<u8>, Seq<u8>)>, key: Seq<u8>) -> Option<Seq<u8>>
    decreases entries.len(),
{
    if entries.len() == 0 {
        None
    } else {
        match last_value(entries.drop_first(), key) {
            Some(v) => Some(v),
            None => if entries[0].0 == key {
                Some(entries[0].1)
            } else {
                None
            },
        }
    }
}

/// Two items of `items` share a key.
pub open spec fn has_duplicate_key(items: Seq<(Seq<u8>, Option<Seq<u8>>)>) -> bool {
    exists|i: int, j: int| 0 <= i < j < items.len() && #[trigger] items[i].0 == #[trigger] items[j].0
}

pub open spec fn entries_view(entries: Seq<(Vec<u8>, Vec<u8>)>) -> Seq<(Seq<u8>, Seq<u8>)> {
    entries.map_values(|e: (Vec<u8>, Vec<u8>)| (e.0@, e.1@))
}

pub open spec fn keys_view(keys: Seq<Vec<u8>>) -> Seq<Seq<u8>> {
    keys.map_values(|k: Vec<u8>| k@)
}

pub open spec fn opt_bytes_view(v: Option<Vec<u8>>) -> Option<Seq<u8>> {
    match v {
        Some(b) => Some(b@),
        None => None,
    }
}

pub open spec fn items_view(items: Seq<(Vec<u8>, Option<Vec<u8>>)>) -> Seq<(Seq<u8>, Option<Seq<u8>>)> {
    items.map_values(|i: (Vec<u8>, Option<Vec<u8>>)| (i.0@, opt_bytes_view(i.1)))
}

/// A proof refused for the reason `f`.
pub open spec fn refusal(f: ProofFault) -> Result<(), ProofFault> {
    Err(f)
}

/// The result of a read, by the views of its bytes.
pub open spec fn read_result_view(r: Result<Option<Vec<u8>>, LookupFault>) -> Result<Option<Seq<u8>>, LookupFault> {
    match r {
        Ok(v) => Ok(opt_bytes_view(v)),
        Err(f) => Err(f),
    }
}

/// The result of proof generation, by the views of its bytes.
pub open spec fn proof_result_view(r: Result<Vec<Vec<u8>>, LookupFault>) -> Result<Seq<Seq<u8>>, LookupFault> {
    match r {
        Ok(p) => Ok(keys_view(p@)),
        Err(f) => Err(f),
    }
}

/// `items` states, for exactly the keys `keys` and each once, what reading
/// the trie with root `root` and nodes `nodes` gives: the key's value, or
/// none where the key is absent.
pub open spec fn states_contents_of(
    items: Seq<(Seq<u8>, Option<Seq<u8>>)>,
    nodes: Map<Seq<u8>, Seq<u8>>,
    root: Seq<u8>,
    keys: Seq<Seq<u8>>,
) -> bool {
    &&& !has_duplicate_key(items)
    &&& forall|k: Seq<u8>| keys.contains(k) <==> exists|i: int| 0 <= i < items.len() && #[trigger] items[i].0 == k
    &&& forall|i: int| 0 <= i < items.len() ==> read_value(nodes, root, #[trigger] items[i].0) == Ok::<Option<Seq<u8>>, LookupFault>(items[i].1)
}

/// `sp_trie::delta_trie_root` for `LayoutV1<Blake2Hasher>`, applied to a fresh
/// database and its empty root (`MemoryDB::default_with_root`), inserting each
/// pair of `entries`. The crate sorts the pairs stably by key and inserts them
/// in that order, so the last pair with a key gives its value. On a fresh
/// database the only node read is the empty root, which the database holds,
/// and new nodes stay in memory until the trie is committed, so the build does
/// not fail. The contract claims: the build succeeds; the root is the one named
/// `built_root`; and reading any key from the new database at the new root
/// gives that last value, or nothing when no pair has the key.
#[verifier::external_body]
pub(crate) fn build_trie(entries: &Vec<(Vec<u8>, Vec<u8>)>) -> (r: Result<(NodeDb, [u8; 32]), LookupFault>)
    ensures
        r is Ok,
        r matches Ok((db, root)) ==> {
            &&& built_root(entries_view(entries@)) == root@
            &&& forall|key: Seq<u8>| #[trigger] read_value(stored_nodes(db), root@, key) == Ok::<Option<Seq<u8>>, LookupFault>(last_value(entries_view(entries@), key))
        },
{
    let (mut db, empty) = sp_trie::MemoryDB::<Blake2Hasher>::default_with_root();
    let delta = entries.iter().map(|(k, v)| (&k[..], Some(&v[..])));
    match sp_trie::delta_trie_root::<LayoutV1<Blake2Hasher>, _, _, _, _, _>(&mut db, empty, delta, None, None) {
        Ok(root) => Ok((NodeDb { db }, root.0)),
        Err(e) => Err(match *e {
            NodeError::InvalidStateRoot(..) => LookupFault::InvalidStateRoot,
            NodeError::IncompleteDatabase(..) => LookupFault::IncompleteDatabase,
            NodeError::ValueAtIncompleteKey(..) => LookupFault::ValueAtIncompleteKey,
            NodeError::DecoderError(..) => LookupFault::DecoderError,
            NodeError::InvalidHash(..) => LookupFault::InvalidHash,
        }),
    }
}

/// `sp_trie::read_trie_value` for `LayoutV1<Blake2Hasher>`: the value stored
/// under `key` in the trie with root `root`. The contract claims only that the
/// outcome is the one named `read_value`.
#[verifier::external_body]
pub(crate) fn read_trie(db: &NodeDb, root: &[u8; 32], key: &[u8]) -> (r: Result<Option<Vec<u8>>, LookupFault>)
    ensures
        read_result_view(r) == read_value(stored_nodes(*db), root@, key@),
{
    match sp_trie::read_trie_value::<LayoutV1<Blake2Hasher>, _>(&db.db, &H256(*root), key, None, None) {
        Ok(v) => Ok(v),
        Err(e) => Err(match *e {
            NodeError::InvalidStateRoot(..) => LookupFault::InvalidStateRoot,
            NodeError::IncompleteDatabase(..) => LookupFault::IncompleteDatabase,
            NodeError::ValueAtIncompleteKey(..) => LookupFault::ValueAtIncompleteKey,
            NodeError::DecoderError(..) => LookupFault::DecoderError,
            NodeError::InvalidHash(..) => LookupFault::InvalidHash,
        }),
    }
}

/// `sp_trie::generate_trie_proof` for `LayoutV1<Blake2Hasher>`: a compact
/// proof of inclusion or non-inclusion of `keys` in the trie with root `root`.
/// The contract claims that the outcome is the one named `proof_for`; that the
/// generation succeeds when each of the keys reads without a fault (it walks
/// the nodes that those lookups walk, and fails only with their faults); and,
/// as the function's documentation says ("these can be later checked in
/// `verify_trie_proof`"), that a generated proof is accepted by
/// `verify_trie_proof` for a statement that gives, once for each of the keys,
/// what the trie holds under it.
#[verifier::external_body]
pub(crate) fn prove_keys(db: &NodeDb, root: &[u8; 32], keys: &Vec<Vec<u8>>) -> (r: Result<Vec<Vec<u8>>, LookupFault>)
    ensures
        proof_result_view(r) == proof_for(stored_nodes(*db), root@, keys_view(keys@)),
        (forall|i: int| 0 <= i < keys@.len() ==> (#[trigger] read_value(stored_nodes(*db), root@, keys@[i]@)) is Ok) ==> r is Ok,
        r matches Ok(p) ==> forall|items: Seq<(Seq<u8>, Option<Seq<u8>>)>|
            states_contents_of(items, stored_nodes(*db), root@, keys_view(keys@))
                ==> (#[trigger] proof_verdict(root@, keys_view(p@), items)) is Ok,
{
    match sp_trie::generate_trie_proof::<LayoutV1<Blake2Hasher>, _, _, _>(&db.db, H256(*root), keys.iter()) {
        Ok(p) => Ok(p),
        Err(e) => Err(match *e {
            NodeError::InvalidStateRoot(..) => LookupFault::InvalidStateRoot,
            NodeError::IncompleteDatabase(..) => LookupFault::IncompleteDatabase,
            NodeError::ValueAtIncompleteKey(..) => LookupFault::ValueAtIncompleteKey,
            NodeError::DecoderError(..) => LookupFault::DecoderError,
            NodeError::InvalidHash(..) => LookupFault::InvalidHash,
        }),
    }
}

/// `sp_trie::verify_trie_proof` for `LayoutV1<Blake2Hasher>`: checks `proof`
/// for the statement `items` against `root`. The contract claims that the
/// outcome is the one named `proof_verdict`, and the checks that the crate
/// makes before it reads the proof: an empty statement is accepted exactly
/// with an empty proof (else `ExtraneousNode`); a statement with a repeated key
/// is refused with `DuplicateKey`; a non-empty statement without one and an
/// empty proof are refused with `IncompleteProof`. For a non-empty statement
/// the crate reads the expected root only in its last step, where it compares
/// the root rebuilt from the proof with it; so a proof that some other root
/// accepts for the statement is refused here with `RootMismatch`.
#[verifier::external_body]
pub(crate) fn check_proof(root: &[u8; 32], proof: &[Vec<u8>], items: &Vec<(Vec<u8>, Option<Vec<u8>>)>) -> (r: Result<(), ProofFault>)
    ensures
        r == proof_verdict(root@, keys_view(proof@), items_view(items@)),
        items@.len() == 0 && proof@.len() == 0 ==> r is Ok,
        items@.len() == 0 && proof@.len() > 0 ==> r == refusal(ProofFault::ExtraneousNode),
        items@.len() > 0 && has_duplicate_key(items_view(items@)) ==> r == refusal(ProofFault::DuplicateKey),
        items@.len() > 0 && !has_duplicate_key(items_view(items@)) && proof@.len() == 0
            ==> r == refusal(ProofFault::IncompleteProof),
        items@.len() > 0 ==> forall|other: Seq<u8>|
            other.len() == 32 && other != root@ && (#[trigger] proof_verdict(other, keys_view(proof@), items_view(items@))) is Ok
                ==> r == refusal(ProofFault::RootMismatch),
{
    match sp_trie::verify_trie_proof::<LayoutV1<Blake2Hasher>, _, _, _>(&H256(*root), proof, items) {
        Ok(()) => Ok(()),
        Err(e) => Err(match e {
            VerifyError::DuplicateKey(..) => ProofFault::DuplicateKey,
            VerifyError::ExtraneousNode => ProofFault::ExtraneousNode,
            VerifyError::ExtraneousValue(..) => ProofFault::ExtraneousValue,
            VerifyError::ExtraneousHashReference(..) => ProofFault::ExtraneousHashReference,
            VerifyError::InvalidChildReference(..) => ProofFault::InvalidChildReference,
            VerifyError::ValueMismatch(..) => ProofFault::ValueMismatch,
            VerifyError::IncompleteProof => ProofFault::IncompleteProof,
            VerifyError::RootMismatch(..) => ProofFault::RootMismatch,
            VerifyError::DecodeError(..) => ProofFault::DecodeError,
        }),
    }
}

} // verus!
