//! Errors: the two kinds of failure that the trie backend reports, the
//! runtime-facing `TrieError` they both map to, and the `DispatchError` that
//! the public functions return.
use vstd::prelude::*;

verus! {

/// Why reading or proving through the trie's node database failed: the kinds
/// of `trie_db::TrieError`.
#[derive(Clone, Copy, Debug, PartialEq, Eq, Structural)]
pub enum LookupFault {
    /// The root is not in the database.
    InvalidStateRoot,
    /// A node on the path is missing from the database.
    IncompleteDatabase,
    /// A value sits at a key that is not byte-aligned.
    ValueAtIncompleteKey,
    /// A stored node could not be decoded.
    DecoderError,
    /// A hash reference is not a valid hash.
    InvalidHash,
}

/// Why a proof was rejected: the kinds of `trie_db::proof::VerifyError`.
#[derive(Clone, Copy, Debug, PartialEq, Eq, Structural)]
pub enum ProofFault {
    /// The statement holds two items with the same key.
    DuplicateKey,
    /// The proof holds a node that is not needed.
    ExtraneousNode,
    /// The proof holds a value that should have been left out.
    ExtraneousValue,
    /// The proof holds a hash reference that should have been left out.
    ExtraneousHashReference,
    /// A child reference is longer than a hash.
    InvalidChildReference,
    /// A value of the statement is not the one in the trie.
    ValueMismatch,
    /// Nodes needed to check the statement are missing.
    IncompleteProof,
    /// The root rebuilt from the proof is not the expected one.
    RootMismatch,
    /// A proof node could not be decoded.
    DecodeError,
}

/// An error of the proving trie, as the runtime reports it.
#[derive(Clone, Copy, Debug, PartialEq, Eq, Structural)]
pub enum TrieError {
    InvalidStateRoot,
    IncompleteDatabase,
    ValueAtIncompleteKey,
    DecoderError,
    InvalidHash,
    DuplicateKey,
    ExtraneousNode,
    ExtraneousValue,
    ExtraneousHashReference,
    InvalidChildReference,
    ValueMismatch,
    IncompleteProof,
    RootMismatch,
    DecodeError,
}

/// The error of a dispatchable call: a plain message, or a trie error.
#[derive(Clone, Copy, Debug, PartialEq, Eq)]
pub enum DispatchError {
    Other(&'static str),
    Trie(TrieError),
}

/// The `TrieError` that a lookup fault is reported as: the variant of the same name.
pub open spec fn trie_error_of_lookup(f: LookupFault) -> TrieError {
    match f {
        LookupFault::InvalidStateRoot => TrieError::InvalidStateRoot,
        LookupFault::IncompleteDatabase => TrieError::IncompleteDatabase,
        LookupFault::ValueAtIncompleteKey => TrieError::ValueAtIncompleteKey,
        LookupFault::DecoderError => TrieError::DecoderError,
        LookupFault::InvalidHash => TrieError::InvalidHash,
    }
}

/// The `TrieError` that a rejected proof is reported as: the variant of the same name.
pub open spec fn trie_error_of_proof(f: ProofFault) -> TrieError {
    match f {
        ProofFault::DuplicateKey => TrieError::DuplicateKey,
        ProofFault::ExtraneousNode => TrieError::ExtraneousNode,
        ProofFault::ExtraneousValue => TrieError::ExtraneousValue,
        ProofFault::ExtraneousHashReference => TrieError::ExtraneousHashReference,
        ProofFault::InvalidChildReference => TrieError::InvalidChildReference,
        ProofFault::ValueMismatch => TrieError::ValueMismatch,
        ProofFault::IncompleteProof => TrieError::IncompleteProof,
        ProofFault::RootMismatch => TrieError::RootMismatch,
        ProofFault::DecodeError => TrieError::DecodeError,
    }
}

impl From<LookupFault> for TrieError {
    fn from(f: LookupFault) -> (r: Self) {
        match f {
            LookupFault::InvalidStateRoot => TrieError::InvalidStateRoot,
            LookupFault::IncompleteDatabase => TrieError::IncompleteDatabase,
            LookupFault::ValueAtIncompleteKey => TrieError::ValueAtIncompleteKey,
            LookupFault::DecoderError => TrieError::DecoderError,
            LookupFault::InvalidHash => TrieError::InvalidHash,
        }
    }
}

impl vstd::std_specs::convert::FromSpecImpl<LookupFault> for TrieError {
    open spec fn obeys_from_spec() -> bool {
        true
    }

    open spec fn from_spec(f: LookupFault) -> Self {
        trie_error_of_lookup(f)
    }
}

impl From<ProofFault> for TrieError {
    fn from(f: ProofFault) -> (r: Self) {
        match f {
            ProofFault::DuplicateKey => TrieError::DuplicateKey,
            ProofFault::ExtraneousNode => TrieError::ExtraneousNode,
            ProofFault::ExtraneousValue => TrieError::ExtraneousValue,
            ProofFault::ExtraneousHashReference => TrieError::ExtraneousHashReference,
            ProofFault::InvalidChildReference => TrieError::InvalidChildReference,
            ProofFault::ValueMismatch => TrieError::ValueMismatch,
            ProofFault::IncompleteProof => TrieError::IncompleteProof,
            ProofFault::RootMismatch => TrieError::RootMismatch,
            ProofFault::DecodeError => TrieError::DecodeError,
        }
    }
}

impl vstd::std_specs::convert::FromSpecImpl<ProofFault> for TrieError {
    open spec fn obeys_from_spec() -> bool {
        true
    }

    open spec fn from_spec(f: ProofFault) -> Self {
        trie_error_of_proof(f)
    }
}

impl From<TrieError> for DispatchError {
    fn from(e: TrieError) -> (r: Self) {
        DispatchError::Trie(e)
    }
}

impl vstd::std_specs::convert::FromSpecImpl<TrieError> for DispatchError {
    open spec fn obeys_from_spec() -> bool {
        true
    }

    open spec fn from_spec(e: TrieError) -> Self {
        DispatchError::Trie(e)
    }
}

} // verus!
