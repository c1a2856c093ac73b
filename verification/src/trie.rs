//! A key/value store committed to by a trie root, with compact proofs.
//!
//! `BasicProvingTrie` holds a set of accounts (`u32`) with balances (`u128`),
//! the node database of a base-16 Merkle-Patricia trie (`LayoutV1`, Blake2-256)
//! over their SCALE encodings, and the trie's root. Proofs made from it are
//! checked with `verify_proof` and `verify_single_value_proof` against the
//! root alone.
use crate::backend::{
    build_trie, built_root, check_proof, has_duplicate_key, items_view, keys_view, last_value,
    proof_for, proof_verdict, prove_keys, read_trie, read_value, states_contents_of, stored_nodes,
    entries_view, opt_bytes_view, read_result_view, NodeDb,
};
use crate::encoding::{
    decode_u128, decoded_u128, encode_u128, encode_u32, encoded_u128, encoded_u32,
    lemma_encoded_u32_injective, lemma_u128_roundtrip,
};
use crate::error::{
    trie_error_of_lookup, trie_error_of_proof, DispatchError, LookupFault, ProofFault, TrieError,
};
use std::collections::BTreeMap;
use vstd::prelude::*;
use vstd::std_specs::btree::{increasing_seq, spec_btree_map_iter};
use vstd::std_specs::iter::IteratorSpec;

verus! {

/// The value that the last pair with key `k` in `s` carries, if any.
pub open spec fn value_of(s: Seq<(u32, u128)>, k: u32) -> Option<u128>
    decreases s.len(),
{
    if s.len() == 0 {
        None
    } else {
        match value_of(s.drop_first(), k) {
            Some(v) => Some(v),
            None => if s[0].0 == k {
                Some(s[0].1)
            } else {
                None
            },
        }
    }
}

/// The keys of `s` strictly ascend.
pub open spec fn sorted_distinct(s: Seq<(u32, u128)>) -> bool {
    forall|i: int, j: int| 0 <= i < j < s.len() ==> s[i].0 < s[j].0
}

/// The map that the pairs of `items` make when inserted in order: each key
/// with the value of its last pair.
pub open spec fn items_map(items: Seq<(u32, u128)>) -> Map<u32, u128>
    decreases items.len(),
{
    if items.len() == 0 {
        Map::empty()
    } else {
        items_map(items.drop_last()).insert(items.last().0, items.last().1)
    }
}

/// The value that `m` holds under `k`, if any.
pub open spec fn map_get(m: Map<u32, u128>, k: u32) -> Option<u128> {
    if m.contains_key(k) {
        Some(m[k])
    } else {
        None
    }
}

/// `s` lists the pairs of `m`, each once, in ascending order of keys.
pub open spec fn lists(s: Seq<(u32, u128)>, m: Map<u32, u128>) -> bool {
    &&& sorted_distinct(s)
    &&& forall|k: u32| #[trigger] value_of(s, k) == map_get(m, k)
}

/// The pairs of `m` in ascending order of keys.
pub open spec fn sorted_listing(m: Map<u32, u128>) -> Seq<(u32, u128)> {
    choose|s: Seq<(u32, u128)>| lists(s, m)
}

/// The encoding of an optional value.
pub open spec fn encoded_value(v: Option<u128>) -> Option<Seq<u8>> {
    match v {
        Some(x) => Some(encoded_u128(x)),
        None => None,
    }
}

/// The key/value pairs as the trie stores them: each encoded.
pub open spec fn encoded_entries(s: Seq<(u32, u128)>) -> Seq<(Seq<u8>, Seq<u8>)> {
    s.map_values(|e: (u32, u128)| (encoded_u32(e.0), encoded_u128(e.1)))
}

/// The encodings of `keys`.
pub open spec fn encoded_keys(keys: Seq<u32>) -> Seq<Seq<u8>> {
    keys.map_values(|k: u32| encoded_u32(k))
}

/// A statement about the trie, as the trie's proofs speak of it: each key
/// and optional value encoded.
pub open spec fn encoded_items(items: Seq<(u32, Option<u128>)>) -> Seq<(Seq<u8>, Option<Seq<u8>>)> {
    items.map_values(|i: (u32, Option<u128>)| (encoded_u32(i.0), encoded_value(i.1)))
}

/// Two items of `items` share a key.
pub open spec fn repeats_key(items: Seq<(u32, Option<u128>)>) -> bool {
    exists|i: int, j: int| 0 <= i < j < items.len() && #[trigger] items[i].0 == #[trigger] items[j].0
}

/// No key occurs twice in `keys`.
pub open spec fn distinct_keys(keys: Seq<u32>) -> bool {
    forall|i: int, j: int| 0 <= i < j < keys.len() ==> keys[i] != keys[j]
}

/// The statement that gives, for each of `keys`, what `m` holds under it.
pub open spec fn statement_of(m: Map<u32, u128>, keys: Seq<u32>) -> Seq<(u32, Option<u128>)> {
    keys.map_values(|k: u32| (k, map_get(m, k)))
}

/// Reading the trie with nodes `nodes` and root `root` gives, for every key,
/// the encoding of the value `m` holds under it, or nothing.
pub open spec fn commits_to(nodes: Map<Seq<u8>, Seq<u8>>, root: Seq<u8>, m: Map<u32, u128>) -> bool {
    forall|k: u32| #[trigger] read_value(nodes, root, encoded_u32(k)) == Ok::<Option<Seq<u8>>, LookupFault>(encoded_value(map_get(m, k)))
}

// ---------------------------------------------------------------------------
// Lemmas on the entries

proof fn lemma_value_of_absent(s: Seq<(u32, u128)>, k: u32)
    requires
        forall|i: int| 0 <= i < s.len() ==> s[i].0 != k,
    ensures
        value_of(s, k) is None,
    decreases s.len(),
{
    if s.len() > 0 {
        lemma_value_of_absent(s.drop_first(), k);
    }
}

proof fn lemma_value_of_push(s: Seq<(u32, u128)>, e: (u32, u128), k: u32)
    ensures
        value_of(s.push(e), k) == (if e.0 == k { Some(e.1) } else { value_of(s, k) }),
    decreases s.len(),
{
    let t = s.push(e);
    if s.len() == 0 {
        assert(t.drop_first() =~= Seq::<(u32, u128)>::empty());
        assert(value_of(t.drop_first(), k) is None);
        assert(t[0] == e);
    } else {
        assert(t.drop_first() =~= s.drop_first().push(e));
        lemma_value_of_push(s.drop_first(), e, k);
        assert(t[0] == s[0]);
    }
}

proof fn lemma_value_of_cons(e: (u32, u128), s: Seq<(u32, u128)>, k: u32)
    ensures
        value_of(seq![e] + s, k) == (match value_of(s, k) {
            Some(v) => Some(v),
            None => if e.0 == k { Some(e.1) } else { None },
        }),
{
    assert((seq![e] + s).drop_first() =~= s);
}

/// Two key-ascending sequences of pairs that hold the same value under every
/// key are the same sequence.
proof fn lemma_sorted_determined(a: Seq<(u32, u128)>, b: Seq<(u32, u128)>)
    requires
        sorted_distinct(a),
        sorted_distinct(b),
        forall|k: u32| #[trigger] value_of(a, k) == value_of(b, k),
    ensures
        a == b,
    decreases a.len() + b.len(),
{
    if a.len() == 0 && b.len() == 0 {
        assert(a =~= b);
    } else if a.len() == 0 {
        lemma_value_of_absent(a, b[0].0);
        lemma_sorted_head(b);
        assert(value_of(a, b[0].0) == value_of(b, b[0].0));
    } else if b.len() == 0 {
        lemma_value_of_absent(b, a[0].0);
        lemma_sorted_head(a);
        assert(value_of(a, a[0].0) == value_of(b, a[0].0));
    } else {
        lemma_sorted_head(a);
        lemma_sorted_head(b);
        if a[0].0 < b[0].0 {
            lemma_value_of_absent(b, a[0].0);
            assert(value_of(a, a[0].0) == value_of(b, a[0].0));
        } else if b[0].0 < a[0].0 {
            lemma_value_of_absent(a, b[0].0);
            assert(value_of(a, b[0].0) == value_of(b, b[0].0));
        } else {
            assert(value_of(a, a[0].0) == value_of(b, a[0].0));
            let ta = a.drop_first();
            let tb = b.drop_first();
            assert forall|k: u32| #[trigger] value_of(ta, k) == value_of(tb, k) by {
                lemma_value_of_cons(a[0], ta, k);
                lemma_value_of_cons(b[0], tb, k);
                assert(seq![a[0]] + ta =~= a);
                assert(seq![b[0]] + tb =~= b);
                assert(value_of(a, k) == value_of(b, k));
                if k == a[0].0 {
                    assert forall|i: int| 0 <= i < ta.len() implies ta[i].0 != k by {
                        assert(a[0].0 < a[i + 1].0);
                    }
                    assert forall|i: int| 0 <= i < tb.len() implies tb[i].0 != k by {
                        assert(b[0].0 < b[i + 1].0);
                    }
                    lemma_value_of_absent(ta, k);
                    lemma_value_of_absent(tb, k);
                }
            }
            lemma_sorted_determined(ta, tb);
            assert(a =~= seq![a[0]] + ta);
            assert(b =~= seq![b[0]] + tb);
        }
    }
}

/// In a key-ascending sequence, the first pair's key holds the first pair's
/// value, and every key smaller than it holds nothing.
proof fn lemma_sorted_head(s: Seq<(u32, u128)>)
    requires
        sorted_distinct(s),
        s.len() > 0,
    ensures
        value_of(s, s[0].0) == Some(s[0].1),
        forall|k: u32| k < s[0].0 ==> #[trigger] value_of(s, k) is None,
{
    let t = s.drop_first();
    assert forall|i: int| 0 <= i < t.len() implies t[i].0 != s[0].0 by {
        assert(s[0].0 < s[i + 1].0);
    }
    lemma_value_of_absent(t, s[0].0);
    lemma_value_of_cons(s[0], t, s[0].0);
    assert(seq![s[0]] + t =~= s);
    assert forall|k: u32| k < s[0].0 implies #[trigger] value_of(s, k) is None by {
        assert forall|i: int| 0 <= i < s.len() implies s[i].0 != k by {
            if i > 0 {
                assert(s[0].0 < s[i].0);
            }
        }
        lemma_value_of_absent(s, k);
    }
}

/// Under every key, the map that `items` make holds the value of the last
/// pair of `items` with that key, and nothing where no pair has the key.
pub proof fn lemma_items_map(items: Seq<(u32, u128)>)
    ensures
        forall|k: u32| #[trigger] map_get(items_map(items), k) == value_of(items, k),
    decreases items.len(),
{
    if items.len() > 0 {
        let init = items.drop_last();
        let e = items.last();
        lemma_items_map(init);
        assert(init.push(e) =~= items);
        assert forall|k: u32| #[trigger] map_get(items_map(items), k) == value_of(items, k) by {
            lemma_value_of_push(init, e, k);
            assert(map_get(items_map(init), k) == value_of(init, k));
        }
    }
}

/// In a key-ascending sequence, each pair's key holds that pair's value.
proof fn lemma_value_of_at(s: Seq<(u32, u128)>, i: int)
    requires
        sorted_distinct(s),
        0 <= i < s.len(),
    ensures
        value_of(s, s[i].0) == Some(s[i].1),
    decreases i,
{
    if i == 0 {
        lemma_sorted_head(s);
    } else {
        let t = s.drop_first();
        lemma_value_of_at(t, i - 1);
        lemma_value_of_cons(s[0], t, s[i].0);
        assert(seq![s[0]] + t =~= s);
    }
}

/// A key-ascending sequence whose pairs are exactly those of `m` lists `m`,
/// and it is the listing of `m`.
proof fn lemma_listing(s: Seq<(u32, u128)>, m: Map<u32, u128>)
    requires
        sorted_distinct(s),
        forall|i: int| 0 <= i < s.len() ==> m.contains_key(#[trigger] s[i].0) && m[s[i].0] == s[i].1,
        forall|k: u32| #[trigger] m.contains_key(k) ==> exists|i: int| 0 <= i < s.len() && s[i].0 == k,
    ensures
        lists(s, m),
        sorted_listing(m) == s,
{
    assert forall|k: u32| #[trigger] value_of(s, k) == map_get(m, k) by {
        if m.contains_key(k) {
            let i = choose|i: int| 0 <= i < s.len() && s[i].0 == k;
            lemma_value_of_at(s, i);
        } else {
            lemma_value_of_absent(s, k);
        }
    }
    assert(lists(s, m));
    let c = sorted_listing(m);
    assert(lists(c, m));
    assert forall|k: u32| #[trigger] value_of(c, k) == value_of(s, k) by {
        assert(value_of(c, k) == map_get(m, k));
    }
    lemma_sorted_determined(c, s);
}

/// Two lists of pairs that give the same value for every key (the last
/// given) make the same map, so `generate_for` makes the same trie of them:
/// the same pairs and the same root. The order of the items and repeated keys
/// change nothing beyond the value a key ends with.
pub proof fn law_trie_depends_only_on_final_values(a: Seq<(u32, u128)>, b: Seq<(u32, u128)>)
    requires
        forall|k: u32| #[trigger] value_of(a, k) == value_of(b, k),
    ensures
        items_map(a) == items_map(b),
        built_root(encoded_entries(sorted_listing(items_map(a)))) == built_root(encoded_entries(sorted_listing(items_map(b)))),
{
    lemma_items_map(a);
    lemma_items_map(b);
    assert forall|k: u32| #[trigger] items_map(a).contains_key(k) <==> items_map(b).contains_key(k) by {
        assert(map_get(items_map(a), k) == value_of(a, k));
        assert(map_get(items_map(b), k) == value_of(b, k));
    }
    assert forall|k: u32| #[trigger] items_map(a).contains_key(k) implies items_map(a)[k] == items_map(b)[k] by {
        assert(map_get(items_map(a), k) == value_of(a, k));
        assert(map_get(items_map(b), k) == value_of(b, k));
    }
    assert(items_map(a) =~= items_map(b));
}

/// Reading the encoded pairs under an encoded key gives the encoding of the
/// key's value.
proof fn lemma_last_value_encoded(s: Seq<(u32, u128)>, k: u32)
    ensures
        last_value(encoded_entries(s), encoded_u32(k)) == encoded_value(value_of(s, k)),
    decreases s.len(),
{
    if s.len() > 0 {
        assert(encoded_entries(s).drop_first() =~= encoded_entries(s.drop_first()));
        lemma_last_value_encoded(s.drop_first(), k);
        lemma_encoded_u32_injective(s[0].0, k);
    }
}


/// Reading the encoded pairs under a byte key that encodes none of their keys
/// gives nothing.
proof fn lemma_last_value_not_encoded(s: Seq<(u32, u128)>, kb: Seq<u8>)
    requires
        forall|i: int| 0 <= i < s.len() ==> encoded_u32(#[trigger] s[i].0) != kb,
    ensures
        last_value(encoded_entries(s), kb) is None,
    decreases s.len(),
{
    if s.len() > 0 {
        assert(encoded_entries(s).drop_first() =~= encoded_entries(s.drop_first()));
        assert forall|i: int| 0 <= i < s.drop_first().len() implies encoded_u32(#[trigger] s.drop_first()[i].0) != kb by {
            assert(s.drop_first()[i] == s[i + 1]);
        }
        lemma_last_value_not_encoded(s.drop_first(), kb);
    }
}

/// The statement that the trie's proofs are checked for has one element per
/// item, the `i`-th being the encoding of the `i`-th key with the encoding of
/// the `i`-th value (or with nothing for a claimed absence).
pub proof fn law_encoded_items(items: Seq<(u32, Option<u128>)>)
    ensures
        encoded_items(items).len() == items.len(),
        forall|i: int| 0 <= i < items.len() ==> #[trigger] encoded_items(items)[i] == (encoded_u32(items[i].0), encoded_value(items[i].1)),
{
}

/// The keys handed to proof generation are the encodings of all the keys,
/// one for one and in order.
pub proof fn law_encoded_keys(keys: Seq<u32>)
    ensures
        encoded_keys(keys).len() == keys.len(),
        forall|i: int| 0 <= i < keys.len() ==> #[trigger] encoded_keys(keys)[i] == encoded_u32(keys[i]),
{
}

/// The pairs that a trie is built from are exactly the encoded pairs listed,
/// one for one and in order.
pub proof fn law_encoded_entries(s: Seq<(u32, u128)>)
    ensures
        encoded_entries(s).len() == s.len(),
        forall|i: int| 0 <= i < s.len() ==> #[trigger] encoded_entries(s)[i] == (encoded_u32(s[i].0), encoded_u128(s[i].1)),
{
}

/// A statement made of distinct keys repeats no encoded key.
proof fn lemma_encoded_items_repeat(items: Seq<(u32, Option<u128>)>)
    ensures
        has_duplicate_key(encoded_items(items)) <==> repeats_key(items),
{
    let e = encoded_items(items);
    if has_duplicate_key(e) {
        let (i, j) = choose|i: int, j: int| 0 <= i < j < e.len() && #[trigger] e[i].0 == #[trigger] e[j].0;
        lemma_encoded_u32_injective(items[i].0, items[j].0);
        assert(items[i].0 == items[j].0);
    }
    if repeats_key(items) {
        let (i, j) = choose|i: int, j: int| 0 <= i < j < items.len() && #[trigger] items[i].0 == #[trigger] items[j].0;
        assert(e[i].0 == e[j].0);
    }
}

// ---------------------------------------------------------------------------
// Encoding loops

/// The pairs of `m` in ascending order of keys, each encoded.
fn encode_map(m: &BTreeMap<u32, u128>) -> (r: Vec<(Vec<u8>, Vec<u8>)>)
    ensures
        lists(sorted_listing(m@), m@),
        sorted_listing(m@).len() == m@.dom().len(),
        entries_view(r@) == encoded_entries(sorted_listing(m@)),
{
    let mut r: Vec<(Vec<u8>, Vec<u8>)> = Vec::new();
    for kv in it: m.iter()
        invariant
            r@.len() == it.index(),
            forall|j: int| 0 <= j < it.index() ==> (#[trigger] r@[j]).0@ == encoded_u32(*it.seq()[j].0) && r@[j].1@ == encoded_u128(*it.seq()[j].1),
    {
        let (key, value) = kv;
        r.push((encode_u32(*key), encode_u128(*value)));
    }
    let ghost s = spec_btree_map_iter(m).remaining().unref();
    assert(s.len() == r@.len());
    proof {
        let ks = spec_btree_map_iter(m).remaining().map_values(|kv: (&u32, &u128)| *kv.0);
        assert(increasing_seq(ks));
        assert forall|i: int, j: int| 0 <= i < j < s.len() implies s[i].0 < s[j].0 by {
            assert(vstd::std_specs::cmp::OrdSpec::cmp_spec(&ks[i], &ks[j]) is Less);
            assert(ks[i] == s[i].0);
            assert(ks[j] == s[j].0);
        }
        assert forall|k: u32| #[trigger] m@.contains_key(k) implies exists|i: int| 0 <= i < s.len() && s[i].0 == k by {
            let v = spec_btree_map_iter(m).remaining();
            assert(v.contains((&k, &m@[k])));
            let i = choose|i: int| 0 <= i < v.len() && v[i] == (&k, &m@[k]);
            assert(s[i].0 == k);
        }
        assert forall|i: int| 0 <= i < s.len() implies m@.contains_key(#[trigger] s[i].0) && m@[s[i].0] == s[i].1 by {
            let v = spec_btree_map_iter(m).remaining();
            assert(m@.contains_key(*v[i].0));
        }
        lemma_listing(s, m@);
    }
    assert(entries_view(r@) =~= encoded_entries(s));
    r
}

fn encode_keys(keys: &[u32]) -> (r: Vec<Vec<u8>>)
    ensures
        keys_view(r@) == encoded_keys(keys@),
{
    let mut r: Vec<Vec<u8>> = Vec::new();
    let n = keys.len();
    for i in 0..n
        invariant
            n == keys@.len(),
            r@.len() == i,
            forall|j: int| 0 <= j < i ==> (#[trigger] r@[j])@ == encoded_u32(keys@[j]),
    {
        r.push(encode_u32(keys[i]));
    }
    assert(keys_view(r@) =~= encoded_keys(keys@));
    r
}

fn encode_optional_value(v: Option<u128>) -> (r: Option<Vec<u8>>)
    ensures
        opt_bytes_view(r) == encoded_value(v),
{
    match v {
        Some(x) => Some(encode_u128(x)),
        None => None,
    }
}

fn encode_items(items: &[(u32, Option<u128>)]) -> (r: Vec<(Vec<u8>, Option<Vec<u8>>)>)
    ensures
        items_view(r@) == encoded_items(items@),
{
    let mut r: Vec<(Vec<u8>, Option<Vec<u8>>)> = Vec::new();
    let n = items.len();
    for i in 0..n
        invariant
            n == items@.len(),
            r@.len() == i,
            forall|j: int| 0 <= j < i ==> (#[trigger] r@[j]).0@ == encoded_u32(items@[j].0) && opt_bytes_view(r@[j].1) == encoded_value(items@[j].1),
    {
        let (key, value) = items[i];
        r.push((encode_u32(key), encode_optional_value(value)));
    }
    assert(items_view(r@) =~= encoded_items(items@));
    r
}

// ---------------------------------------------------------------------------
// The proving trie

/// What a read of the trie gives as a value: the decoding of the bytes found,
/// or nothing when the key is absent, the bytes do not decode, or the read failed.
pub open spec fn found_value(read: Result<Option<Seq<u8>>, LookupFault>) -> Option<u128> {
    match read {
        Ok(Some(bytes)) => decoded_u128(bytes),
        _ => None,
    }
}

/// What a proof check is reported as.
pub open spec fn verdict_result(verdict: Result<(), ProofFault>) -> Result<(), DispatchError> {
    match verdict {
        Ok(()) => Ok(()),
        Err(f) => Err(DispatchError::Trie(trie_error_of_proof(f))),
    }
}

/// What a proof generation is reported as, by the views of the proof's bytes.
pub open spec fn created_result(generated: Result<Seq<Seq<u8>>, LookupFault>) -> Result<Seq<Seq<u8>>, DispatchError> {
    match generated {
        Ok(p) => Ok(p),
        Err(f) => Err(DispatchError::Trie(trie_error_of_lookup(f))),
    }
}

/// A created proof, by the views of its bytes.
pub open spec fn proof_view(r: Result<Vec<Vec<u8>>, DispatchError>) -> Result<Seq<Seq<u8>>, DispatchError> {
    match r {
        Ok(p) => Ok(keys_view(p@)),
        Err(e) => Err(e),
    }
}

/// The value that a read of the trie gives: `found_value` of the read.
pub fn decode_found(read: Result<Option<Vec<u8>>, LookupFault>) -> (r: Option<u128>)
    ensures
        r == found_value(read_result_view(read)),
{
    match read {
        Ok(Some(bytes)) => decode_u128(bytes.as_slice()),
        _ => None,
    }
}

/// A helper structure for building a base-16 Merkle trie of account balances
/// and creating compact proofs for that trie. Proofs are made in the latest
/// Substrate trie format (`LayoutV1`).
pub struct BasicProvingTrie {
    db: NodeDb,
    root: [u8; 32],
    map: Ghost<Map<u32, u128>>,
}

impl View for BasicProvingTrie {
    type V = Map<u32, u128>;

    /// The balance of each account in the trie.
    closed spec fn view(&self) -> Map<u32, u128> {
        self.map@
    }
}

impl BasicProvingTrie {
    /// The trie's root is the one that its pairs, encoded in ascending order
    /// of keys, build; and reading the trie under any encoded key gives the
    /// encoding of that key's value.
    #[verifier::type_invariant]
    pub closed spec fn wf(&self) -> bool {
        &&& built_root(encoded_entries(sorted_listing(self.map@))) == self.root@
        &&& commits_to(stored_nodes(self.db), self.root@, self.map@)
    }

    /// The nodes of the trie's database.
    pub closed spec fn nodes(&self) -> Map<Seq<u8>, Seq<u8>> {
        stored_nodes(self.db)
    }

    /// The bytes of the trie's root.
    pub closed spec fn root_bytes(&self) -> Seq<u8> {
        self.root@
    }

    /// Create a new instance of a `ProvingTrie` from key/value pairs. A key given
    /// twice keeps the value given last. The trie is built from its pairs in
    /// ascending order of keys, and building it does not fail.
    pub fn generate_for(items: Vec<(u32, u128)>) -> (r: Result<Self, DispatchError>)
        ensures
            r is Ok,
            r matches Ok(t) ==> {
                &&& t@ == items_map(items@)
                &&& forall|k: u32| #[trigger] map_get(t@, k) == value_of(items@, k)
                &&& t.root_bytes() == built_root(encoded_entries(sorted_listing(t@)))
            },
            r matches Ok(t) ==> {
                let listing = sorted_listing(t@);
                let built_from = encoded_entries(listing);
                &&& lists(listing, t@)
                &&& built_from.len() == t@.dom().len()
                &&& forall|i: int| 0 <= i < built_from.len() ==>
                    #[trigger] built_from[i] == (encoded_u32(listing[i].0), encoded_u128(listing[i].1))
                        && t@.contains_key(listing[i].0) && t@[listing[i].0] == listing[i].1
            },
            r matches Ok(t) ==> forall|k: u32| #[trigger] read_value(t.nodes(), t.root_bytes(), encoded_u32(k))
                == Ok::<Option<Seq<u8>>, LookupFault>(encoded_value(map_get(t@, k))),
            r matches Ok(t) ==> forall|kb: Seq<u8>|
                (forall|k: u32| #[trigger] encoded_u32(k) == kb ==> !t@.contains_key(k))
                    ==> #[trigger] read_value(t.nodes(), t.root_bytes(), kb) == Ok::<Option<Seq<u8>>, LookupFault>(None),
    {
        let mut db_map: BTreeMap<u32, u128> = BTreeMap::new();
        let n = items.len();
        for i in 0..n
            invariant
                n == items@.len(),
                db_map@ == items_map(items@.take(i as int)),
        {
            let (key, value) = items[i];
            proof {
                assert(items@.take(i + 1).drop_last() =~= items@.take(i as int));
            }
            db_map.insert(key, value);
        }
        proof {
            assert(items@.take(n as int) =~= items@);
            lemma_items_map(items@);
        }
        let encoded = encode_map(&db_map);
        match build_trie(&encoded) {
            Ok((db, root)) => {
                let ghost listing = sorted_listing(db_map@);
                proof {
                    assert(lists(listing, db_map@)) by {
                        assert(encoded_entries(listing) == entries_view(encoded@));
                    }
                    assert forall|k: u32| #[trigger] read_value(stored_nodes(db), root@, encoded_u32(k))
                        == Ok::<Option<Seq<u8>>, LookupFault>(encoded_value(map_get(db_map@, k))) by {
                        lemma_last_value_encoded(listing, k);
                    }
                    law_encoded_entries(listing);
                    assert forall|i: int| 0 <= i < listing.len() implies db_map@.contains_key(#[trigger] listing[i].0)
                        && db_map@[listing[i].0] == listing[i].1 by {
                        lemma_value_of_at(listing, i);
                        assert(value_of(listing, listing[i].0) == map_get(db_map@, listing[i].0));
                    }
                    assert forall|kb: Seq<u8>|
                        (forall|k: u32| #[trigger] encoded_u32(k) == kb ==> !db_map@.contains_key(k))
                        implies #[trigger] read_value(stored_nodes(db), root@, kb) == Ok::<Option<Seq<u8>>, LookupFault>(None) by {
                        assert forall|i: int| 0 <= i < listing.len() implies encoded_u32(#[trigger] listing[i].0) != kb by {
                            assert(db_map@.contains_key(listing[i].0));
                        }
                        lemma_last_value_not_encoded(listing, kb);
                    }
                }
                Ok(BasicProvingTrie { db, root, map: Ghost(db_map@) })
            },
            Err(_) => Err(DispatchError::Other("failed to insert into trie")),
        }
    }

    /// Access the underlying trie root.
    pub fn root(&self) -> (r: &[u8; 32])
        ensures
            r@ == self.root_bytes(),
    {
        &self.root
    }

    /// Query a value contained within the current trie: the value stored under
    /// `key`, or `None` when there is none.
    pub fn query(&self, key: u32) -> (r: Option<u128>)
        ensures
            r == map_get(self@, key),
    {
        proof {
            use_type_invariant(self);
        }
        let k = encode_u32(key);
        let raw = read_trie(&self.db, &self.root, k.as_slice());
        proof {
            assert(read_value(stored_nodes(self.db), self.root@, encoded_u32(key))
                == Ok::<Option<Seq<u8>>, LookupFault>(encoded_value(map_get(self.map@, key))));
            if let Some(v) = map_get(self.map@, key) {
                lemma_u128_roundtrip(v);
            }
        }
        decode_found(raw)
    }

    /// Create a compact merkle proof needed to prove all `keys` and their values
    /// are in the trie, or that a key is not. The proof is the one the trie
    /// backend generates, and making it does not fail: the trie holds every
    /// node of its own database. For distinct keys the proof is accepted for
    /// the statement that gives each key with the value the trie holds under it.
    pub fn create_proof(&self, keys: &[u32]) -> (r: Result<Vec<Vec<u8>>, DispatchError>)
        ensures
            r is Ok,
            proof_view(r) == created_result(proof_for(self.nodes(), self.root_bytes(), encoded_keys(keys@))),
            encoded_keys(keys@).len() == keys@.len(),
            forall|i: int| 0 <= i < keys@.len() ==> #[trigger] encoded_keys(keys@)[i] == encoded_u32(keys@[i]),
            r matches Ok(p) ==> (distinct_keys(keys@) ==> (proof_verdict(
                self.root_bytes(),
                keys_view(p@),
                encoded_items(statement_of(self@, keys@)),
            )) is Ok),
    {
        proof {
            use_type_invariant(self);
        }
        let encoded = encode_keys(keys);
        proof {
            law_encoded_keys(keys@);
            assert(keys_view(encoded@).len() == encoded@.len());
            assert(encoded_keys(keys@).len() == keys@.len());
            assert forall|i: int| 0 <= i < encoded@.len() implies (#[trigger] read_value(stored_nodes(self.db), self.root@, encoded@[i]@)) is Ok by {
                assert(encoded@[i]@ == keys_view(encoded@)[i]);
                assert(read_value(stored_nodes(self.db), self.root@, encoded_u32(keys@[i]))
                    == Ok::<Option<Seq<u8>>, LookupFault>(encoded_value(map_get(self.map@, keys@[i]))));
            }
        }
        match prove_keys(&self.db, &self.root, &encoded) {
            Ok(p) => {
                proof {
                    let items = encoded_items(statement_of(self.map@, keys@));
                    let ks = encoded_keys(keys@);
                    if distinct_keys(keys@) {
                        lemma_encoded_items_repeat(statement_of(self.map@, keys@));
                        assert forall|kb: Seq<u8>| ks.contains(kb) <==> exists|i: int| 0 <= i < items.len() && #[trigger] items[i].0 == kb by {
                            if ks.contains(kb) {
                                let i = choose|i: int| 0 <= i < ks.len() && ks[i] == kb;
                                assert(items[i].0 == kb);
                            }
                            if exists|i: int| 0 <= i < items.len() && #[trigger] items[i].0 == kb {
                                let i = choose|i: int| 0 <= i < items.len() && #[trigger] items[i].0 == kb;
                                assert(ks[i] == kb);
                            }
                        }
                        assert forall|i: int| 0 <= i < items.len() implies read_value(stored_nodes(self.db), self.root@, #[trigger] items[i].0)
                            == Ok::<Option<Seq<u8>>, LookupFault>(items[i].1) by {
                            assert(items[i].0 == encoded_u32(keys@[i]));
                        }
                        assert(states_contents_of(items, stored_nodes(self.db), self.root@, ks));
                    }
                }
                Ok(p)
            },
            Err(f) => Err(DispatchError::from(TrieError::from(f))),
        }
    }

    /// Create a compact merkle proof needed to prove a single key and its value
    /// are in the trie, or that the key is not. Making it does not fail.
    pub fn create_single_value_proof(&self, key: u32) -> (r: Result<Vec<Vec<u8>>, DispatchError>)
        ensures
            r is Ok,
            proof_view(r) == created_result(proof_for(self.nodes(), self.root_bytes(), seq![encoded_u32(key)])),
            r matches Ok(p) ==> (proof_verdict(
                self.root_bytes(),
                keys_view(p@),
                seq![(encoded_u32(key), encoded_value(map_get(self@, key)))],
            )) is Ok,
    {
        let keys = vec![key];
        let r = self.create_proof(keys.as_slice());
        proof {
            assert(encoded_keys(keys@) =~= seq![encoded_u32(key)]);
            assert(encoded_items(statement_of(self@, keys@)) =~= seq![(encoded_u32(key), encoded_value(map_get(self@, key)))]);
        }
        r
    }
}

/// Verify the existence or non-existence of each key of `items` with its value
/// in the trie with root `root`, by the compact `proof`. Proofs must be created
/// with the latest Substrate trie format (`LayoutV1`).
pub fn verify_proof(root: [u8; 32], proof: &[Vec<u8>], items: &[(u32, Option<u128>)]) -> (r: Result<(), DispatchError>)
    ensures
        r == verdict_result(proof_verdict(root@, keys_view(proof@), encoded_items(items@))),
        encoded_items(items@).len() == items@.len(),
        forall|i: int| 0 <= i < items@.len() ==> #[trigger] encoded_items(items@)[i] == (encoded_u32(items@[i].0), encoded_value(items@[i].1)),
        items@.len() == 0 && proof@.len() == 0 ==> r is Ok,
        items@.len() == 0 && proof@.len() > 0 ==> r == Err::<(), DispatchError>(DispatchError::Trie(TrieError::ExtraneousNode)),
        items@.len() > 0 && repeats_key(items@) ==> r == Err::<(), DispatchError>(DispatchError::Trie(TrieError::DuplicateKey)),
        items@.len() > 0 && !repeats_key(items@) && proof@.len() == 0
            ==> r == Err::<(), DispatchError>(DispatchError::Trie(TrieError::IncompleteProof)),
        items@.len() > 0 ==> forall|other: Seq<u8>|
            other.len() == 32 && other != root@ && (#[trigger] proof_verdict(other, keys_view(proof@), encoded_items(items@))) is Ok
                ==> r == Err::<(), DispatchError>(DispatchError::Trie(TrieError::RootMismatch)),
{
    let encoded = encode_items(items);
    let verdict = check_proof(&root, proof, &encoded);
    proof {
        law_encoded_items(items@);
        assert(items_view(encoded@).len() == encoded@.len());
        assert(encoded_items(items@).len() == items@.len());
        lemma_encoded_items_repeat(items@);
    }
    match verdict {
        Ok(()) => Ok(()),
        Err(f) => Err(DispatchError::from(TrieError::from(f))),
    }
}

/// Verify the existence (with `Some` value) or non-existence (with `None`) of
/// `key` in the trie with root `root`, by the compact `proof`. Proofs must be
/// created with the latest Substrate trie format (`LayoutV1`). A proof that
/// another root accepts for the same claim is refused with `RootMismatch`: with
/// `create_single_value_proof`, a proof made by a trie for one of its keys and
/// that key's value is refused under every root but the trie's own.
pub fn verify_single_value_proof(root: [u8; 32], proof: &[Vec<u8>], key: u32, maybe_value: Option<u128>) -> (r: Result<(), DispatchError>)
    ensures
        r == verdict_result(proof_verdict(root@, keys_view(proof@), seq![(encoded_u32(key), encoded_value(maybe_value))])),
        proof@.len() == 0 ==> r == Err::<(), DispatchError>(DispatchError::Trie(TrieError::IncompleteProof)),
        forall|other: Seq<u8>|
            other.len() == 32 && other != root@
                && (#[trigger] proof_verdict(other, keys_view(proof@), seq![(encoded_u32(key), encoded_value(maybe_value))])) is Ok
                ==> r == Err::<(), DispatchError>(DispatchError::Trie(TrieError::RootMismatch)),
{
    let items = vec![(key, maybe_value)];
    let r = verify_proof(root, proof, items.as_slice());
    proof {
        assert(encoded_items(items@) =~= seq![(encoded_u32(key), encoded_value(maybe_value))]);
        assert(!repeats_key(items@));
    }
    r
}
} // verus!
