use proving_trie::error::{DispatchError, LookupFault, TrieError};
use proving_trie::trie::{decode_found, verify_proof, verify_single_value_proof, BasicProvingTrie};
use sp_core::{Blake2Hasher, H256};
use sp_trie::{LayoutV1, TrieConfiguration};
use std::collections::BTreeMap;

// A trie which simulates a trie of accounts (u32) and balances (u128).
type BalanceTrie = BasicProvingTrie;

// The expected root hash for an empty trie.
fn empty_root() -> H256 {
    sp_trie::empty_trie_root::<LayoutV1<Blake2Hasher>>()
}

fn create_balance_trie() -> BalanceTrie {
    // Create a map of users and their balances.
    let mut map = BTreeMap::<u32, u128>::new();
    for i in 0..100u32 {
        map.insert(i, i.into());
    }

    // Put items into the trie.
    let balance_trie = BalanceTrie::generate_for(map.into_iter().collect()).unwrap();

    // Root is changed.
    let root = *balance_trie.root();
    assert!(root != empty_root().0);

    // Assert valid keys are queryable.
    assert_eq!(balance_trie.query(6u32), Some(6u128));
    assert_eq!(balance_trie.query(9u32), Some(9u128));
    assert_eq!(balance_trie.query(69u32), Some(69u128));
    // Invalid key returns none.
    assert_eq!(balance_trie.query(6969u32), None);

    balance_trie
}

#[test]
fn empty_trie_works() {
    let empty_trie = BalanceTrie::generate_for(Vec::new()).unwrap();
    assert_eq!(*empty_trie.root(), empty_root().0);
}

#[test]
fn basic_end_to_end_single_value() {
    let balance_trie = create_balance_trie();
    let root = *balance_trie.root();

    // Create a proof for a valid key.
    let proof = balance_trie.create_single_value_proof(6u32).unwrap();

    // Assert key is provable, all other keys are invalid.
    for i in 0..200u32 {
        if i == 6 {
            assert_eq!(verify_single_value_proof(root, &proof, i, Some(u128::from(i))), Ok(()));
            // Wrong value is invalid.
            assert_eq!(
                verify_single_value_proof(root, &proof, i, Some(u128::from(i + 1))),
                Err(TrieError::RootMismatch.into())
            );
        } else {
            assert!(verify_single_value_proof(root, &proof, i, Some(u128::from(i))).is_err());
            assert!(verify_single_value_proof(root, &proof, i, None::<u128>).is_err());
        }
    }
}

#[test]
fn basic_end_to_end_multi_value() {
    let balance_trie = create_balance_trie();
    let root = *balance_trie.root();

    // Create a proof for a valid and invalid key.
    let proof = balance_trie.create_proof(&[6u32, 69u32, 6969u32]).unwrap();
    let items = [(6u32, Some(6u128)), (69u32, Some(69u128)), (6969u32, None)];

    assert_eq!(verify_proof(root, &proof, &items), Ok(()));
}

#[test]
fn proof_fails_with_bad_data() {
    let balance_trie = create_balance_trie();
    let root = *balance_trie.root();

    // Create a proof for a valid key.
    let proof = balance_trie.create_single_value_proof(6u32).unwrap();

    // Correct data verifies successfully
    assert_eq!(verify_single_value_proof(root, &proof, 6u32, Some(6u128)), Ok(()));

    // Fail to verify proof with wrong root
    assert_eq!(
        verify_single_value_proof(Default::default(), &proof, 6u32, Some(6u128)),
        Err(TrieError::RootMismatch.into())
    );

    // Fail to verify proof with wrong data
    assert_eq!(
        verify_single_value_proof(root, &[], 6u32, Some(6u128)),
        Err(TrieError::IncompleteProof.into())
    );
}

#[test]
fn later_item_overrides_earlier_one() {
    let trie = BalanceTrie::generate_for(vec![(5, 50), (3, 30), (5, 55)]).unwrap();
    assert_eq!(trie.query(5), Some(55));
    assert_eq!(trie.query(3), Some(30));
    assert_eq!(trie.query(4), None);
}

#[test]
fn root_depends_only_on_resulting_map() {
    let a = BalanceTrie::generate_for(vec![(1, 10), (2, 20), (3, 30)]).unwrap();
    let b = BalanceTrie::generate_for(vec![(3, 30), (2, 99), (1, 10), (2, 20)]).unwrap();
    assert_eq!(a.root(), b.root());
    let c = BalanceTrie::generate_for(vec![(1, 10), (2, 21), (3, 30)]).unwrap();
    assert_ne!(a.root(), c.root());
}

#[test]
fn root_matches_closed_form_trie_root() {
    let trie = BalanceTrie::generate_for(vec![(7, 700), (1, 100)]).unwrap();
    let expected = sp_trie::LayoutV1::<Blake2Hasher>::trie_root(vec![
        (1u32.to_le_bytes().to_vec(), 100u128.to_le_bytes().to_vec()),
        (7u32.to_le_bytes().to_vec(), 700u128.to_le_bytes().to_vec()),
    ]);
    assert_eq!(*trie.root(), expected.0);
}

#[test]
fn query_on_empty_trie_finds_nothing() {
    let trie = BalanceTrie::generate_for(Vec::new()).unwrap();
    assert_eq!(trie.query(0), None);
    assert_eq!(trie.query(u32::MAX), None);
}

#[test]
fn large_values_round_trip() {
    let trie = BalanceTrie::generate_for(vec![(u32::MAX, u128::MAX), (0, 1 << 100)]).unwrap();
    assert_eq!(trie.query(u32::MAX), Some(u128::MAX));
    assert_eq!(trie.query(0), Some(1 << 100));
}

#[test]
fn absence_proof_verifies_with_none() {
    let trie = create_balance_trie();
    let root = *trie.root();
    let proof = trie.create_single_value_proof(6969).unwrap();
    assert_eq!(verify_single_value_proof(root, &proof, 6969, None), Ok(()));
    assert!(verify_single_value_proof(root, &proof, 6969, Some(0)).is_err());
}

#[test]
fn empty_statement_needs_empty_proof() {
    let trie = create_balance_trie();
    let root = *trie.root();
    assert_eq!(verify_proof(root, &[], &[]), Ok(()));
    let proof = trie.create_single_value_proof(6).unwrap();
    assert_eq!(
        verify_proof(root, &proof, &[]),
        Err(DispatchError::Trie(TrieError::ExtraneousNode))
    );
}

#[test]
fn repeated_key_in_statement_is_refused() {
    let trie = create_balance_trie();
    let root = *trie.root();
    let proof = trie.create_single_value_proof(6).unwrap();
    assert_eq!(
        verify_proof(root, &proof, &[(6, Some(6)), (6, Some(6))]),
        Err(DispatchError::Trie(TrieError::DuplicateKey))
    );
}

#[test]
fn empty_proof_of_statement_is_incomplete() {
    let trie = create_balance_trie();
    let root = *trie.root();
    assert_eq!(
        verify_proof(root, &[], &[(1, Some(1)), (2, None)]),
        Err(DispatchError::Trie(TrieError::IncompleteProof))
    );
}

#[test]
fn multi_value_proof_with_wrong_value_fails() {
    let trie = create_balance_trie();
    let root = *trie.root();
    let proof = trie.create_proof(&[6, 69]).unwrap();
    assert_eq!(verify_proof(root, &proof, &[(6, Some(6)), (69, Some(69))]), Ok(()));
    assert!(verify_proof(root, &proof, &[(6, Some(6)), (69, Some(70))]).is_err());
}

#[test]
fn decode_found_reads_le_bytes() {
    let mut bytes = 0x0102u128.to_le_bytes().to_vec();
    assert_eq!(decode_found(Ok(Some(bytes.clone()))), Some(0x0102));
    bytes.push(9);
    assert_eq!(decode_found(Ok(Some(bytes))), Some(0x0102));
    assert_eq!(decode_found(Ok(Some(vec![1, 2, 3]))), None);
    assert_eq!(decode_found(Ok(None)), None);
    assert_eq!(decode_found(Err(LookupFault::IncompleteDatabase)), None);
}

#[test]
fn trie_errors_map_to_dispatch_errors() {
    assert_eq!(DispatchError::from(TrieError::RootMismatch), DispatchError::Trie(TrieError::RootMismatch));
    assert_eq!(TrieError::from(LookupFault::InvalidHash), TrieError::InvalidHash);
    assert_eq!(
        TrieError::from(proving_trie::error::ProofFault::ValueMismatch),
        TrieError::ValueMismatch
    );
}

#[test]
fn proof_under_another_trie_root_is_root_mismatch() {
    let trie = create_balance_trie();
    let other = BalanceTrie::generate_for(vec![(6, 6)]).unwrap();
    let proof = trie.create_single_value_proof(6).unwrap();
    assert_eq!(
        verify_single_value_proof(*other.root(), &proof, 6, Some(6)),
        Err(TrieError::RootMismatch.into())
    );
    let multi = trie.create_proof(&[6, 6969]).unwrap();
    assert_eq!(
        verify_proof(*other.root(), &multi, &[(6, Some(6)), (6969, None)]),
        Err(DispatchError::Trie(TrieError::RootMismatch))
    );
}
