//! Merkle data: dense and sparse Merkle trees, assembled into one flat
//! store of internal nodes so that authentication-path lookups by digest
//! succeed regardless of which tree produced a node.
//!
//! The two-to-one hash is the engine's Rescue Prime Optimized function; the
//! library names its result (`merge_of`) and builds and checks all tree
//! structure around it in verified code.

use vstd::prelude::*;

use crate::codec::{word_elems, word_hex_ok, word_in_field};
use crate::errors::ParseError;
use crate::field::Word;

verus! {

/// The fixed maximum depth of a sparse Merkle tree, shared with the engine.
pub const SMT_MAX_DEPTH: u64 = 64;

/// What the engine's two-to-one hash returns on a pair of words: a
/// function of the two input digests alone.
pub uninterp spec fn merge_of(l: Seq<u64>, r: Seq<u64>) -> Seq<u64>;

/// Relies on `Rpo256::merge` of the miden-crypto crate (through
/// miden-core): the Rescue Prime Optimized two-to-one hash, a pure
/// function of its two input digests whose output is four canonical field
/// elements.
#[verifier::external_body]
fn merge(l: &Word, r: &Word) -> (d: Word)
    ensures
        d.wf(),
        d.elements@ == merge_of(l.elements@, r.elements@),
{
    let lw = miden_core::Word::new([
        miden_core::Felt::new(l.elements[0]),
        miden_core::Felt::new(l.elements[1]),
        miden_core::Felt::new(l.elements[2]),
        miden_core::Felt::new(l.elements[3]),
    ]);
    let rw = miden_core::Word::new([
        miden_core::Felt::new(r.elements[0]),
        miden_core::Felt::new(r.elements[1]),
        miden_core::Felt::new(r.elements[2]),
        miden_core::Felt::new(r.elements[3]),
    ]);
    let m = miden_core::crypto::hash::Rpo256::merge(&[lw, rw]);
    Word { elements: m.into() }
}

// ---------------------------------------------------------------------------
// Node store
// ---------------------------------------------------------------------------

/// One internal tree node: a digest and the two child digests it hashes.
pub struct MerkleNode {
    pub digest: Word,
    pub left: Word,
    pub right: Word,
}

impl MerkleNode {
    /// The digest really is the hash of the two children.
    pub open spec fn wf(&self) -> bool {
        self.digest.wf() && self.left.wf() && self.right.wf() && self.digest.elements@
            == merge_of(self.left.elements@, self.right.elements@)
    }
}

/// A flat store of internal Merkle nodes, merged from every supplied tree.
///
/// Digests are unique: re-inserting an existing node with identical
/// children is a no-op, while a digest collision with different children
/// is a `MerkleStoreConflict`.
pub struct MerkleStore {
    pub nodes: Vec<MerkleNode>,
}

impl MerkleStore {
    /// Every node hashes its children and no digest repeats.
    pub open spec fn wf(&self) -> bool {
        (forall|i: int| 0 <= i < self.nodes@.len() ==> (#[trigger] self.nodes@[i]).wf()) && (forall|
            i: int,
            j: int,
        |
            0 <= i < j < self.nodes@.len() ==> self.nodes@[i].digest.elements@
                != self.nodes@[j].digest.elements@)
    }

    /// The store holds a node with this digest.
    pub open spec fn has_node(&self, digest: Seq<u64>) -> bool {
        exists|i: int|
            0 <= i < self.nodes@.len() && (#[trigger] self.nodes@[i]).digest.elements@ == digest
    }

    /// The empty store.
    pub fn new() -> (r: MerkleStore)
        ensures
            r.wf(),
            r.nodes@ =~= Seq::<MerkleNode>::empty(),
    {
        MerkleStore { nodes: Vec::new() }
    }

    /// Records a node. Re-inserting an identical node is a no-op; the same
    /// digest with different children is a fatal conflict.
    fn add_node(&mut self, digest: Word, left: Word, right: Word) -> (r: Result<(), ParseError>)
        requires
            old(self).wf(),
            digest.wf(),
            left.wf(),
            right.wf(),
            digest.elements@ == merge_of(left.elements@, right.elements@),
        ensures
            match r {
                Ok(()) => final(self).wf() && old(self).nodes@.is_prefix_of(final(self).nodes@)
                    && final(self).has_node(digest.elements@),
                Err(e) => e == ParseError::MerkleStoreConflict && *final(self) == *old(self),
            },
    {
        let mut i: usize = 0;
        while i < self.nodes.len()
            invariant
                i <= self.nodes@.len(),
                self == old(self),
                old(self).wf(),
                forall|k: int|
                    0 <= k < i ==> (#[trigger] self.nodes@[k]).digest.elements@
                        != digest.elements@,
            decreases self.nodes@.len() - i,
        {
            if self.nodes[i].digest == digest {
                proof {
                    assert(self.nodes@[i as int].digest.elements@ =~= digest.elements@);
                }
                if self.nodes[i].left == left && self.nodes[i].right == right {
                    proof {
                        assert(self.nodes@.is_prefix_of(self.nodes@));
                    }
                    return Ok(());
                }
                return Err(ParseError::MerkleStoreConflict);
            }
            proof {
                if self.nodes@[i as int].digest.elements@ =~= digest.elements@ {
                    assert(self.nodes@[i as int].digest.elements@ == digest.elements@);
                }
            }
            i += 1;
        }
        let ghost nodes0 = self.nodes@;
        self.nodes.push(MerkleNode { digest, left, right });
        proof {
            assert(nodes0.is_prefix_of(self.nodes@)) by {
                assert(self.nodes@.subrange(0, nodes0.len() as int) =~= nodes0);
            }
            assert(self.nodes@.last().digest.elements@ == digest.elements@);
        }
        Ok(())
    }
}

/// A prefix extension of a store keeps every digest it already had.
pub proof fn lemma_has_node_monotone(a: &MerkleStore, b: &MerkleStore, digest: Seq<u64>)
    requires
        a.nodes@.is_prefix_of(b.nodes@),
        a.has_node(digest),
    ensures
        b.has_node(digest),
{
    let i = choose|i: int|
        0 <= i < a.nodes@.len() && (#[trigger] a.nodes@[i]).digest.elements@ == digest;
    assert(b.nodes@[i] == a.nodes@[i]);
}

// ---------------------------------------------------------------------------
// Leaf parsing
// ---------------------------------------------------------------------------

/// Merkle data as it arrives in a request: a dense tree given by its
/// leaves, or a sparse tree given by (index, leaf) entries.
pub enum MerkleData {
    /// The leaves of a balanced binary Merkle tree, as 64-hex-char words.
    MerkleTree(Vec<String>),
    /// The (node index, leaf) entries of a sparse Merkle tree of the fixed
    /// maximum depth.
    SparseMerkleTree(Vec<(u64, String)>),
}

/// Decodes a list of hex leaves front to back: `InvalidHexLength` for a
/// malformed word, `FieldOverflow` for an out-of-field element.
pub open spec fn spec_parse_words(vs: Seq<Seq<char>>) -> Result<Seq<Seq<u64>>, ParseError>
    decreases vs.len(),
{
    if vs.len() == 0 {
        Ok(Seq::empty())
    } else if !word_hex_ok(vs[0]) {
        Err(ParseError::InvalidHexLength)
    } else if !word_in_field(vs[0]) {
        Err(ParseError::FieldOverflow)
    } else {
        match spec_parse_words(vs.drop_first()) {
            Ok(rest) => Ok(seq![word_elems(vs[0])] + rest),
            Err(e) => Err(e),
        }
    }
}

/// Decodes the leaves of a dense Merkle tree.
pub fn parse_merkle_tree(tree: &Vec<String>) -> (r: Result<Vec<Word>, ParseError>)
    ensures
        match r {
            Ok(ws) => spec_parse_words(crate::stack::strings_view(tree@)) == Ok::<
                Seq<Seq<u64>>,
                ParseError,
            >(words_view(ws@)) && ws@.len() == tree@.len() && forall|i: int|
                0 <= i < ws@.len() ==> (#[trigger] ws@[i]).wf(),
            Err(e) => spec_parse_words(crate::stack::strings_view(tree@)) == Err::<
                Seq<Seq<u64>>,
                ParseError,
            >(e),
        },
{
    let ghost vs = crate::stack::strings_view(tree@);
    let mut out: Vec<Word> = Vec::new();
    let mut i: usize = 0;
    proof {
        assert(vs.skip(0) =~= vs);
        if spec_parse_words(vs) is Ok {
            assert(words_view(out@) + spec_parse_words(vs)->Ok_0 =~= spec_parse_words(vs)->Ok_0);
        }
    }
    while i < tree.len()
        invariant
            i <= tree.len(),
            vs == crate::stack::strings_view(tree@),
            vs.len() == tree@.len(),
            out@.len() == i,
            forall|k: int| 0 <= k < i ==> (#[trigger] out@[k]).wf(),
            spec_parse_words(vs) == match spec_parse_words(vs.skip(i as int)) {
                Ok(rest) => Ok::<Seq<Seq<u64>>, ParseError>(words_view(out@) + rest),
                Err(e) => Err::<Seq<Seq<u64>>, ParseError>(e),
            },
        decreases tree.len() - i,
    {
        proof {
            assert(vs.skip(i as int)[0] == vs[i as int]);
            assert(vs.skip(i as int).drop_first() =~= vs.skip(i as int + 1));
            assert(vs[i as int] == tree@[i as int]@);
        }
        let w = match crate::codec::decode_word(&tree[i]) {
            Ok(w) => w,
            Err(e) => {
                return Err(e);
            },
        };
        let ghost out0 = words_view(out@);
        out.push(w);
        proof {
            assert(words_view(out@) =~= out0 + seq![word_elems(vs[i as int])]);
            match spec_parse_words(vs.skip(i as int + 1)) {
                Ok(rest) => {
                    assert(out0 + (seq![word_elems(vs[i as int])] + rest) =~= words_view(out@)
                        + rest);
                },
                Err(_) => {},
            }
        }
        i += 1;
    }
    proof {
        assert(vs.skip(i as int) =~= Seq::<Seq<char>>::empty());
        assert(words_view(out@) + Seq::<Seq<u64>>::empty() =~= words_view(out@));
    }
    Ok(out)
}


/// The element sequences of a list of words.
pub open spec fn words_view(ws: Seq<Word>) -> Seq<Seq<u64>> {
    ws.map_values(|w: Word| w.elements@)
}

// ---------------------------------------------------------------------------
// Dense trees
// ---------------------------------------------------------------------------

/// The count is a power of two.
pub open spec fn is_pow2(n: nat) -> bool
    decreases n,
{
    if n == 0 {
        false
    } else if n == 1 {
        true
    } else {
        n % 2 == 0 && is_pow2(n / 2)
    }
}

/// Whether `n` is a power of two.
pub fn is_power_of_two(n: usize) -> (r: bool)
    ensures
        r == is_pow2(n as nat),
{
    if n == 0 {
        return false;
    }
    let mut m = n;
    while m > 1
        invariant
            m >= 1,
            is_pow2(n as nat) == is_pow2(m as nat),
        decreases m,
    {
        if m % 2 == 1 {
            return false;
        }
        m = m / 2;
    }
    true
}

/// The root digest of the balanced binary tree over these leaves.
pub open spec fn dense_root(leaves: Seq<Seq<u64>>) -> Seq<u64>
    decreases leaves.len(),
{
    if leaves.len() <= 1 {
        if leaves.len() == 1 {
            leaves[0]
        } else {
            Seq::empty()
        }
    } else {
        merge_of(
            dense_root(leaves.subrange(0, leaves.len() as int / 2)),
            dense_root(leaves.subrange(leaves.len() as int / 2, leaves.len() as int)),
        )
    }
}

/// A prefix of a prefix is a prefix.
pub proof fn lemma_prefix_trans<T>(a: Seq<T>, b: Seq<T>, c: Seq<T>)
    requires
        a.is_prefix_of(b),
        b.is_prefix_of(c),
    ensures
        a.is_prefix_of(c),
{
    assert(a =~= c.subrange(0, a.len() as int));
}

/// Every internal node of the balanced tree over `leaves` stands in the
/// store: the digest of every subtree of two or more leaves.
pub open spec fn dense_nodes_in_store(leaves: Seq<Seq<u64>>, store: MerkleStore) -> bool
    decreases leaves.len(),
{
    if leaves.len() <= 1 {
        true
    } else {
        &&& store.has_node(dense_root(leaves))
        &&& dense_nodes_in_store(leaves.subrange(0, leaves.len() as int / 2), store)
        &&& dense_nodes_in_store(
            leaves.subrange(leaves.len() as int / 2, leaves.len() as int),
            store,
        )
    }
}

/// A prefix extension of a store keeps every dense-tree node it provided.
pub proof fn lemma_dense_nodes_monotone(leaves: Seq<Seq<u64>>, a: MerkleStore, b: MerkleStore)
    requires
        a.nodes@.is_prefix_of(b.nodes@),
        dense_nodes_in_store(leaves, a),
    ensures
        dense_nodes_in_store(leaves, b),
    decreases leaves.len(),
{
    if leaves.len() > 1 {
        lemma_has_node_monotone(&a, &b, dense_root(leaves));
        lemma_dense_nodes_monotone(leaves.subrange(0, leaves.len() as int / 2), a, b);
        lemma_dense_nodes_monotone(
            leaves.subrange(leaves.len() as int / 2, leaves.len() as int),
            a,
            b,
        );
    }
}

/// Builds the balanced tree over `leaves[lo..hi]`, recording every internal
/// node, and returns the subtree's root digest.
fn build_dense(leaves: &Vec<Word>, lo: usize, hi: usize, store: &mut MerkleStore) -> (r: Result<
    Word,
    ParseError,
>)
    requires
        old(store).wf(),
        lo < hi <= leaves@.len(),
        is_pow2((hi - lo) as nat),
        forall|i: int| 0 <= i < leaves@.len() ==> (#[trigger] leaves@[i]).wf(),
    ensures
        final(store).wf(),
        old(store).nodes@.is_prefix_of(final(store).nodes@),
        match r {
            Ok(root) => root.wf() && root.elements@ == dense_root(
                words_view(leaves@).subrange(lo as int, hi as int),
            ) && (hi - lo >= 2 ==> final(store).has_node(root.elements@))
                && dense_nodes_in_store(
                words_view(leaves@).subrange(lo as int, hi as int),
                *final(store),
            ),
            Err(e) => e == ParseError::MerkleStoreConflict && hi - lo >= 2,
        },
    decreases hi - lo,
{
    let ghost all = words_view(leaves@);
    if hi - lo == 1 {
        let root = leaves[lo];
        proof {
            assert(all.subrange(lo as int, hi as int).len() == 1);
            assert(all.subrange(lo as int, hi as int)[0] == leaves@[lo as int].elements@);
            assert(store.nodes@.is_prefix_of(store.nodes@)) by {
                assert(store.nodes@ =~= store.nodes@.subrange(0, store.nodes@.len() as int));
            }
        }
        return Ok(root);
    }
    let half = (hi - lo) / 2;
    let mid = lo + half;
    proof {
        assert((hi - lo) as nat % 2 == 0 && is_pow2(((hi - lo) as nat) / 2));
        assert(mid - lo == half && hi - mid == half);
    }
    let l = match build_dense(leaves, lo, mid, store) {
        Ok(w) => w,
        Err(e) => {
            return Err(e);
        },
    };
    let ghost store_l = *store;
    let r_w = match build_dense(leaves, mid, hi, store) {
        Ok(w) => w,
        Err(e) => {
            proof {
                lemma_prefix_trans(old(store).nodes@, store_l.nodes@, store.nodes@);
            }
            return Err(e);
        },
    };
    proof {
        lemma_prefix_trans(old(store).nodes@, store_l.nodes@, store.nodes@);
    }
    let ghost store_r = *store;
    let d = merge(&l, &r_w);
    match store.add_node(d, l, r_w) {
        Ok(()) => {},
        Err(e) => {
            proof {
                lemma_prefix_trans(old(store).nodes@, store_r.nodes@, store.nodes@);
            }
            return Err(e);
        },
    }
    proof {
        lemma_prefix_trans(old(store).nodes@, store_r.nodes@, store.nodes@);
        let sub = all.subrange(lo as int, hi as int);
        let left_sub = all.subrange(lo as int, mid as int);
        let right_sub = all.subrange(mid as int, hi as int);
        assert(sub.subrange(0, sub.len() as int / 2) =~= left_sub);
        assert(sub.subrange(sub.len() as int / 2, sub.len() as int) =~= right_sub);
        lemma_dense_nodes_monotone(left_sub, store_l, store_r);
        lemma_dense_nodes_monotone(left_sub, store_r, *store);
        lemma_dense_nodes_monotone(right_sub, store_r, *store);
        assert(dense_nodes_in_store(sub, *store));
    }
    Ok(d)
}

// ---------------------------------------------------------------------------
// Sparse trees
// ---------------------------------------------------------------------------

/// `2^n`.
pub open spec fn pow2(n: nat) -> int
    decreases n,
{
    if n == 0 {
        1
    } else {
        2 * pow2((n - 1) as nat)
    }
}

proof fn lemma_pow2_pos(n: nat)
    ensures
        pow2(n) >= 1,
    decreases n,
{
    if n > 0 {
        lemma_pow2_pos((n - 1) as nat);
    }
}

/// The all-zero word: the value of an absent sparse-tree leaf.
pub open spec fn empty_word() -> Seq<u64> {
    seq![0u64, 0u64, 0u64, 0u64]
}

/// The digest of an all-empty subtree of height `lvl`.
pub open spec fn empty_hash(lvl: nat) -> Seq<u64>
    decreases lvl,
{
    if lvl == 0 {
        empty_word()
    } else {
        merge_of(empty_hash((lvl - 1) as nat), empty_hash((lvl - 1) as nat))
    }
}

/// No two entries share an index.
pub open spec fn no_dup_index(es: Seq<(u64, Word)>) -> bool {
    forall|i: int, j: int| 0 <= i < j < es.len() ==> (#[trigger] es[i]).0 != (#[trigger] es[j]).0
}

/// The leaf words of a sparse tree, by index.
pub open spec fn smt_map(es: Seq<(u64, Word)>) -> Map<int, Seq<u64>> {
    Map::new(
        |k: int| exists|j: int| 0 <= j < es.len() && (#[trigger] es[j]).0 as int == k,
        |k: int|
            es[choose|j: int|
                0 <= j < es.len() && (#[trigger] es[j]).0 as int == k].1.elements@,
    )
}

/// The digest of the sparse subtree of height `lvl` covering leaf indexes
/// `[lo, lo + 2^lvl)`; an absent leaf is the all-zero word.
pub open spec fn smt_node_digest(m: Map<int, Seq<u64>>, lvl: nat, lo: int) -> Seq<u64>
    decreases lvl,
{
    if lvl == 0 {
        if m.dom().contains(lo) {
            m[lo]
        } else {
            empty_word()
        }
    } else {
        merge_of(
            smt_node_digest(m, (lvl - 1) as nat, lo),
            smt_node_digest(m, (lvl - 1) as nat, lo + pow2((lvl - 1) as nat)),
        )
    }
}

/// A subtree over a range that holds no leaf hashes to the empty digest of
/// its height.
proof fn lemma_smt_empty(m: Map<int, Seq<u64>>, lvl: nat, lo: int)
    requires
        forall|k: int| m.dom().contains(k) ==> !(lo <= k < lo + pow2(lvl)),
    ensures
        smt_node_digest(m, lvl, lo) == empty_hash(lvl),
    decreases lvl,
{
    if lvl == 0 {
        assert(!m.dom().contains(lo));
    } else {
        lemma_pow2_pos((lvl - 1) as nat);
        lemma_smt_empty(m, (lvl - 1) as nat, lo);
        lemma_smt_empty(m, (lvl - 1) as nat, lo + pow2((lvl - 1) as nat));
    }
}


/// The empty digests of every height up to the maximum depth.
fn empty_hashes() -> (r: Vec<Word>)
    ensures
        r@.len() == 65,
        forall|k: int|
            0 <= k < 65 ==> (#[trigger] r@[k]).wf() && r@[k].elements@ == empty_hash(k as nat),
{
    let mut out: Vec<Word> = Vec::new();
    let mut cur = crate::field::Word::zero();
    proof {
        assert(cur.elements@ =~= empty_word());
    }
    let mut k: usize = 0;
    while k < 65
        invariant
            k <= 65,
            out@.len() == k,
            cur.wf(),
            cur.elements@ == empty_hash(k as nat),
            forall|i: int|
                0 <= i < k ==> (#[trigger] out@[i]).wf() && out@[i].elements@ == empty_hash(
                    i as nat,
                ),
        decreases 65 - k,
    {
        out.push(cur);
        cur = merge(&cur, &cur);
        k += 1;
    }
    out
}

/// The index lies in `[lo, hi)`.
pub open spec fn index_in_range(idx: u64, lo: int, hi: int) -> bool {
    lo <= idx as int && (idx as int) < hi
}

/// The index of some entry whose index lies in `[lo, hi)`, if any.
fn find_entry_in_range(entries: &Vec<(u64, Word)>, lo: u128, hi: u128) -> (r: Option<usize>)
    ensures
        match r {
            Some(i) => i < entries@.len() && index_in_range(entries@[i as int].0, lo as int, hi as int),
            None => forall|j: int|
                0 <= j < entries@.len() ==> !index_in_range(
                    (#[trigger] entries@[j]).0,
                    lo as int,
                    hi as int,
                ),
        },
{
    let mut i: usize = 0;
    while i < entries.len()
        invariant
            i <= entries.len(),
            forall|j: int|
                0 <= j < i ==> !index_in_range((#[trigger] entries@[j]).0, lo as int, hi as int),
        decreases entries.len() - i,
    {
        let idx = entries[i].0 as u128;
        if lo <= idx && idx < hi {
            return Some(i);
        }
        i += 1;
    }
    None
}

/// Every internal node of the sparse subtree of height `lvl` over
/// `[lo, lo + 2^lvl)` stands in the store: the digest of every subtree on
/// a path to a present leaf.
pub open spec fn smt_nodes_in_store(
    m: Map<int, Seq<u64>>,
    lvl: nat,
    lo: int,
    store: MerkleStore,
) -> bool
    decreases lvl,
{
    if !(exists|k: int| m.dom().contains(k) && lo <= k < lo + pow2(lvl)) {
        true
    } else if lvl == 0 {
        true
    } else {
        &&& store.has_node(smt_node_digest(m, lvl, lo))
        &&& smt_nodes_in_store(m, (lvl - 1) as nat, lo, store)
        &&& smt_nodes_in_store(m, (lvl - 1) as nat, lo + pow2((lvl - 1) as nat), store)
    }
}

/// A prefix extension of a store keeps every sparse-tree node it provided.
pub proof fn lemma_smt_nodes_monotone(
    m: Map<int, Seq<u64>>,
    lvl: nat,
    lo: int,
    a: MerkleStore,
    b: MerkleStore,
)
    requires
        a.nodes@.is_prefix_of(b.nodes@),
        smt_nodes_in_store(m, lvl, lo, a),
    ensures
        smt_nodes_in_store(m, lvl, lo, b),
    decreases lvl,
{
    if (exists|k: int| m.dom().contains(k) && lo <= k < lo + pow2(lvl)) && lvl > 0 {
        lemma_has_node_monotone(&a, &b, smt_node_digest(m, lvl, lo));
        lemma_smt_nodes_monotone(m, (lvl - 1) as nat, lo, a, b);
        lemma_smt_nodes_monotone(m, (lvl - 1) as nat, lo + pow2((lvl - 1) as nat), a, b);
    }
}

/// Builds the sparse subtree of height `lvl` covering leaf indexes
/// `[lo, hi)`, recording the internal nodes on every path to a present
/// leaf, and returns the subtree's root digest.
fn build_smt_node(
    entries: &Vec<(u64, Word)>,
    lvl: u64,
    lo: u128,
    hi: u128,
    empties: &Vec<Word>,
    store: &mut MerkleStore,
) -> (r: Result<Word, ParseError>)
    requires
        old(store).wf(),
        lvl <= 64,
        empties@.len() == 65,
        forall|k: int|
            0 <= k < 65 ==> (#[trigger] empties@[k]).wf() && empties@[k].elements@ == empty_hash(
                k as nat,
            ),
        forall|i: int| 0 <= i < entries@.len() ==> (#[trigger] entries@[i]).1.wf(),
        no_dup_index(entries@),
        hi as int - lo as int == pow2(lvl as nat),
        hi as int <= pow2(64),
    ensures
        final(store).wf(),
        old(store).nodes@.is_prefix_of(final(store).nodes@),
        match r {
            Ok(root) => root.wf() && root.elements@ == smt_node_digest(
                smt_map(entries@),
                lvl as nat,
                lo as int,
            ) && ((lvl >= 1 && exists|j: int|
                0 <= j < entries@.len() && index_in_range(
                    (#[trigger] entries@[j]).0,
                    lo as int,
                    hi as int,
                )) ==> final(store).has_node(root.elements@)) && smt_nodes_in_store(
                smt_map(entries@),
                lvl as nat,
                lo as int,
                *final(store),
            ),
            Err(e) => e == ParseError::MerkleStoreConflict && exists|j: int|
                0 <= j < entries@.len() && index_in_range(
                    (#[trigger] entries@[j]).0,
                    lo as int,
                    hi as int,
                ),
        },
    decreases lvl,
{
    let ghost m = smt_map(entries@);
    let found = find_entry_in_range(entries, lo, hi);
    if found.is_none() {
        proof {
            assert(forall|k: int| m.dom().contains(k) ==> !(lo as int <= k < lo as int + pow2(
                lvl as nat,
            )));
            lemma_smt_empty(m, lvl as nat, lo as int);
            assert(!(exists|k: int|
                m.dom().contains(k) && lo as int <= k < lo as int + pow2(lvl as nat)));
            assert(smt_nodes_in_store(m, lvl as nat, lo as int, *store));
            assert(store.nodes@.is_prefix_of(store.nodes@)) by {
                assert(store.nodes@ =~= store.nodes@.subrange(0, store.nodes@.len() as int));
            }
        }
        return Ok(empties[lvl as usize]);
    }
    let i = found.unwrap();
    if lvl == 0 {
        let root = entries[i].1;
        proof {
            assert(entries@[i as int].0 as int == lo as int);
            assert(m.dom().contains(lo as int));
            let j = choose|j: int|
                0 <= j < entries@.len() && (#[trigger] entries@[j]).0 as int == lo as int;
            assert(entries@[j].0 == entries@[i as int].0);
            if j != i {
                assert(false);
            }
            assert(m[lo as int] == entries@[i as int].1.elements@);
            assert(smt_nodes_in_store(m, lvl as nat, lo as int, *store));
            assert(store.nodes@.is_prefix_of(store.nodes@)) by {
                assert(store.nodes@ =~= store.nodes@.subrange(0, store.nodes@.len() as int));
            }
        }
        return Ok(root);
    }
    let half = (hi - lo) / 2;
    let mid = lo + half;
    proof {
        assert(pow2(lvl as nat) == 2 * pow2((lvl - 1) as nat));
        lemma_pow2_pos((lvl - 1) as nat);
        assert(half as int == pow2((lvl - 1) as nat)) by (nonlinear_arith)
            requires
                hi as int - lo as int == 2 * pow2((lvl - 1) as nat),
                half as int == (hi as int - lo as int) / 2,
                pow2((lvl - 1) as nat) >= 1,
        ;
    }
    let l = match build_smt_node(entries, lvl - 1, lo, mid, empties, store) {
        Ok(w) => w,
        Err(e) => {
            proof {
                assert(index_in_range(entries@[i as int].0, lo as int, hi as int));
            }
            return Err(e);
        },
    };
    let ghost store_l = *store;
    let r_w = match build_smt_node(entries, lvl - 1, mid, hi, empties, store) {
        Ok(w) => w,
        Err(e) => {
            proof {
                lemma_prefix_trans(old(store).nodes@, store_l.nodes@, store.nodes@);
                assert(index_in_range(entries@[i as int].0, lo as int, hi as int));
            }
            return Err(e);
        },
    };
    proof {
        lemma_prefix_trans(old(store).nodes@, store_l.nodes@, store.nodes@);
    }
    let ghost store_r = *store;
    let d = merge(&l, &r_w);
    match store.add_node(d, l, r_w) {
        Ok(()) => {},
        Err(e) => {
            proof {
                lemma_prefix_trans(old(store).nodes@, store_r.nodes@, store.nodes@);
                assert(index_in_range(entries@[i as int].0, lo as int, hi as int));
            }
            return Err(e);
        },
    }
    proof {
        lemma_prefix_trans(old(store).nodes@, store_r.nodes@, store.nodes@);
        assert(mid as int == lo as int + pow2((lvl - 1) as nat));
        lemma_smt_nodes_monotone(m, (lvl - 1) as nat, lo as int, store_l, store_r);
        lemma_smt_nodes_monotone(m, (lvl - 1) as nat, lo as int, store_r, *store);
        lemma_smt_nodes_monotone(m, (lvl - 1) as nat, mid as int, store_r, *store);
        assert(d.elements@ == smt_node_digest(m, lvl as nat, lo as int));
        assert(smt_nodes_in_store(m, lvl as nat, lo as int, *store));
    }
    Ok(d)
}


/// Monotonicity of `2^n`.
proof fn lemma_pow2_monotone(a: nat, b: nat)
    requires
        a <= b,
    ensures
        pow2(a) <= pow2(b),
    decreases b,
{
    if a < b {
        lemma_pow2_monotone(a, (b - 1) as nat);
        lemma_pow2_pos((b - 1) as nat);
    }
}

proof fn lemma_pow2_64_value()
    ensures
        pow2(64) == 0x1_0000_0000_0000_0000,
{
    reveal_with_fuel(pow2, 65);
}

/// `2^n` for depths up to the maximum.
fn pow2_u128(n: u64) -> (r: u128)
    requires
        n <= 64,
    ensures
        r as int == pow2(n as nat),
{
    proof {
        lemma_pow2_64_value();
    }
    let mut r: u128 = 1;
    let mut k: u64 = 0;
    while k < n
        invariant
            k <= n <= 64,
            r as int == pow2(k as nat),
            pow2(64) == 0x1_0000_0000_0000_0000,
        decreases n - k,
    {
        proof {
            lemma_pow2_monotone((k + 1) as nat, 64);
        }
        r = r * 2;
        k += 1;
    }
    r
}

/// The index of an entry of `out` with this index, if one exists.
fn find_same_index(out: &Vec<(u64, Word)>, idx: u64) -> (r: Option<usize>)
    ensures
        match r {
            Some(j) => j < out@.len() && out@[j as int].0 == idx,
            None => forall|j: int| 0 <= j < out@.len() ==> (#[trigger] out@[j]).0 != idx,
        },
{
    let mut j: usize = 0;
    while j < out.len()
        invariant
            j <= out.len(),
            forall|k: int| 0 <= k < j ==> (#[trigger] out@[k]).0 != idx,
        decreases out.len() - j,
    {
        if out[j].0 == idx {
            return Some(j);
        }
        j += 1;
    }
    None
}

/// Some entry has this index.
pub open spec fn has_index(es: Seq<(u64, Word)>, idx: u64) -> bool {
    exists|j: int| 0 <= j < es.len() && (#[trigger] es[j]).0 == idx
}

/// Some entry has this index and this leaf word.
pub open spec fn has_matching(es: Seq<(u64, Word)>, idx: u64, w: Seq<u64>) -> bool {
    exists|j: int| 0 <= j < es.len() && (#[trigger] es[j]).0 == idx && es[j].1.elements@ == w
}

/// Entries that share an index agree on the leaf word.
pub open spec fn entries_consistent(es: Seq<(u64, Word)>) -> bool {
    forall|k1: int, k2: int|
        0 <= k1 < es.len() && 0 <= k2 < es.len() && (#[trigger] es[k1]).0 == (#[trigger] es[k2]).0
            ==> es[k1].1.elements@ == es[k2].1.elements@
}

/// Removes exact duplicate (index, word) entries, keeping the first
/// occurrence; two entries with the same index but different words are a
/// fatal conflict.
fn dedupe_entries(entries: &Vec<(u64, Word)>) -> (r: Result<Vec<(u64, Word)>, ParseError>)
    requires
        forall|i: int| 0 <= i < entries@.len() ==> (#[trigger] entries@[i]).1.wf(),
    ensures
        match r {
            Ok(out) => no_dup_index(out@) && entries_consistent(entries@) && (forall|j: int|
                0 <= j < out@.len() ==> (#[trigger] out@[j]).1.wf()) && (forall|j: int|
                0 <= j < out@.len() ==> has_matching(
                    entries@,
                    (#[trigger] out@[j]).0,
                    out@[j].1.elements@,
                )) && (forall|k: int|
                0 <= k < entries@.len() ==> has_matching(
                    out@,
                    (#[trigger] entries@[k]).0,
                    entries@[k].1.elements@,
                )),
            Err(e) => e == ParseError::MerkleStoreConflict && !entries_consistent(entries@),
        },
{
    let mut out: Vec<(u64, Word)> = Vec::new();
    let mut i: usize = 0;
    while i < entries.len()
        invariant
            i <= entries.len(),
            forall|k: int| 0 <= k < entries@.len() ==> (#[trigger] entries@[k]).1.wf(),
            no_dup_index(out@),
            forall|j: int| 0 <= j < out@.len() ==> (#[trigger] out@[j]).1.wf(),
            forall|j: int|
                0 <= j < out@.len() ==> has_matching(
                    entries@,
                    (#[trigger] out@[j]).0,
                    out@[j].1.elements@,
                ),
            forall|k: int|
                0 <= k < i ==> has_matching(
                    out@,
                    (#[trigger] entries@[k]).0,
                    entries@[k].1.elements@,
                ),
        decreases entries.len() - i,
    {
        let idx = entries[i].0;
        let w = entries[i].1;
        let ghost out0 = out@;
        match find_same_index(&out, idx) {
            Some(j) => {
                if !(out[j].1 == w) {
                    proof {
                        assert(has_matching(entries@, out@[j as int].0, out@[j as int].1.elements@));
                        let k1 = choose|k: int|
                            0 <= k < entries@.len() && (#[trigger] entries@[k]).0 == out@[j as int].0
                                && entries@[k].1.elements@ == out@[j as int].1.elements@;
                        assert(entries@[k1].0 == entries@[i as int].0);
                        assert(entries@[k1].1.elements@ != entries@[i as int].1.elements@);
                        assert(!entries_consistent(entries@));
                    }
                    return Err(ParseError::MerkleStoreConflict);
                }
                proof {
                    assert(out@[j as int].0 == entries@[i as int].0 && out@[j as int].1.elements@
                        == entries@[i as int].1.elements@);
                    assert(has_matching(out@, entries@[i as int].0, entries@[i as int].1.elements@));
                }
            },
            None => {
                out.push((idx, w));
                proof {
                    let last = out@.len() - 1;
                    assert(out@[last].0 == entries@[i as int].0 && out@[last].1.elements@
                        == entries@[i as int].1.elements@);
                    assert(has_matching(out@, entries@[i as int].0, entries@[i as int].1.elements@));
                    assert(forall|j: int| 0 <= j < out0.len() ==> out@[j] == out0[j]);
                    assert forall|j: int| 0 <= j < out@.len() implies has_matching(
                        entries@,
                        (#[trigger] out@[j]).0,
                        out@[j].1.elements@,
                    ) by {
                        if j < out0.len() {
                            assert(has_matching(entries@, out0[j].0, out0[j].1.elements@));
                        } else {
                            assert(entries@[i as int].0 == out@[j].0 && entries@[i as int].1.elements@
                                == out@[j].1.elements@);
                        }
                    }
                    assert forall|k: int| 0 <= k < i + 1 implies has_matching(
                        out@,
                        (#[trigger] entries@[k]).0,
                        entries@[k].1.elements@,
                    ) by {
                        if k < i {
                            assert(has_matching(out0, entries@[k].0, entries@[k].1.elements@));
                            let j0 = choose|j: int|
                                0 <= j < out0.len() && (#[trigger] out0[j]).0 == entries@[k].0
                                    && out0[j].1.elements@ == entries@[k].1.elements@;
                            assert(out@[j0].0 == entries@[k].0 && out@[j0].1.elements@
                                == entries@[k].1.elements@);
                        }
                    }
                }
            },
        }
        i += 1;
    }
    proof {
        assert forall|k1: int, k2: int|
            0 <= k1 < entries@.len() && 0 <= k2 < entries@.len() && (#[trigger] entries@[k1]).0
                == (#[trigger] entries@[k2]).0 implies entries@[k1].1.elements@
            == entries@[k2].1.elements@ by {
            assert(has_matching(out@, entries@[k1].0, entries@[k1].1.elements@));
            assert(has_matching(out@, entries@[k2].0, entries@[k2].1.elements@));
            let j1 = choose|j: int|
                0 <= j < out@.len() && (#[trigger] out@[j]).0 == entries@[k1].0
                    && out@[j].1.elements@ == entries@[k1].1.elements@;
            let j2 = choose|j: int|
                0 <= j < out@.len() && (#[trigger] out@[j]).0 == entries@[k2].0
                    && out@[j].1.elements@ == entries@[k2].1.elements@;
            if j1 != j2 {
                assert(out@[j1].0 != out@[j2].0);
                assert(false);
            }
        }
    }
    Ok(out)
}

/// Two entry lists with the same index set, agreeing on the word at every
/// shared index, describe the same leaf map.
proof fn lemma_smt_map_equiv(a: Seq<(u64, Word)>, b: Seq<(u64, Word)>)
    requires
        forall|i: int| 0 <= i < a.len() ==> has_index(b, (#[trigger] a[i]).0),
        forall|j: int| 0 <= j < b.len() ==> has_index(a, (#[trigger] b[j]).0),
        forall|i: int, j: int|
            0 <= i < a.len() && 0 <= j < b.len() && (#[trigger] a[i]).0 == (#[trigger] b[j]).0
                ==> a[i].1.elements@ == b[j].1.elements@,
    ensures
        smt_map(a) == smt_map(b),
{
    let ma = smt_map(a);
    let mb = smt_map(b);
    assert forall|k: int| ma.dom().contains(k) implies mb.dom().contains(k) by {
        let i = choose|i: int| 0 <= i < a.len() && (#[trigger] a[i]).0 as int == k;
        assert(has_index(b, a[i].0));
        let j = choose|j: int| 0 <= j < b.len() && (#[trigger] b[j]).0 == a[i].0;
        assert(b[j].0 as int == k);
    }
    assert forall|k: int| mb.dom().contains(k) implies ma.dom().contains(k) by {
        let j = choose|j: int| 0 <= j < b.len() && (#[trigger] b[j]).0 as int == k;
        assert(has_index(a, b[j].0));
        let i = choose|i: int| 0 <= i < a.len() && (#[trigger] a[i]).0 == b[j].0;
        assert(a[i].0 as int == k);
    }
    assert forall|k: int| ma.dom().contains(k) implies ma[k] == mb[k] by {
        let ia = choose|j: int| 0 <= j < a.len() && (#[trigger] a[j]).0 as int == k;
        assert(mb.dom().contains(k));
        let jb = choose|j: int| 0 <= j < b.len() && (#[trigger] b[j]).0 as int == k;
        assert(a[ia].0 == b[jb].0);
        assert(ma[k] == a[ia].1.elements@);
        assert(mb[k] == b[jb].1.elements@);
    }
    assert(ma =~= mb);
}

/// Builds a sparse Merkle tree of the given depth over the entries,
/// recording into the store the internal nodes on every path to a present
/// leaf, and returns the tree's root digest.
///
/// An entry index at or above `2^depth` is an `IndexOutOfRange`; two
/// entries with the same index and different leaves are a
/// `MerkleStoreConflict`, while exact duplicates are collapsed.
pub fn build_sparse_tree(entries: &Vec<(u64, Word)>, depth: u64, store: &mut MerkleStore) -> (r:
    Result<Word, ParseError>)
    requires
        old(store).wf(),
        1 <= depth <= 64,
        forall|i: int| 0 <= i < entries@.len() ==> (#[trigger] entries@[i]).1.wf(),
    ensures
        final(store).wf(),
        old(store).nodes@.is_prefix_of(final(store).nodes@),
        match r {
            Ok(root) => root.wf() && entries_consistent(entries@) && root.elements@
                == smt_node_digest(
                smt_map_pairs(sparse_entries_view(entries@)),
                depth as nat,
                0,
            ) && (forall|i: int|
                0 <= i < entries@.len() ==> ((#[trigger] entries@[i]).0 as int) < pow2(
                    depth as nat,
                )) && (entries@.len() > 0 ==> final(store).has_node(root.elements@))
                && smt_nodes_in_store(
                smt_map_pairs(sparse_entries_view(entries@)),
                depth as nat,
                0,
                *final(store),
            ),
            Err(e) => (e == ParseError::IndexOutOfRange && exists|i: int|
                0 <= i < entries@.len() && (#[trigger] entries@[i]).0 as int >= pow2(
                    depth as nat,
                )) || (e == ParseError::MerkleStoreConflict && entries@.len() > 0),
        },
{
    let limit = pow2_u128(depth);
    let mut i: usize = 0;
    while i < entries.len()
        invariant
            i <= entries.len(),
            store == old(store),
            old(store).wf(),
            limit as int == pow2(depth as nat),
            forall|k: int| 0 <= k < i ==> ((#[trigger] entries@[k]).0 as int) < pow2(depth as nat),
        decreases entries.len() - i,
    {
        if entries[i].0 as u128 >= limit {
            proof {
                assert((entries@[i as int].0 as int) >= pow2(depth as nat));
                assert(store.nodes@.is_prefix_of(store.nodes@)) by {
                    assert(store.nodes@ =~= store.nodes@.subrange(0, store.nodes@.len() as int));
                }
            }
            return Err(ParseError::IndexOutOfRange);
        }
        i += 1;
    }
    let deduped = match dedupe_entries(entries) {
        Ok(d) => d,
        Err(e) => {
            proof {
                assert(entries@.len() > 0) by {
                    let (k1, k2) = choose|k1: int, k2: int|
                        0 <= k1 < entries@.len() && 0 <= k2 < entries@.len() && (
                        #[trigger] entries@[k1]).0 == (#[trigger] entries@[k2]).0
                            && entries@[k1].1.elements@ != entries@[k2].1.elements@;
                }
                assert(store.nodes@.is_prefix_of(store.nodes@)) by {
                    assert(store.nodes@ =~= store.nodes@.subrange(0, store.nodes@.len() as int));
                }
            }
            return Err(e);
        },
    };
    proof {
        assert forall|i2: int| 0 <= i2 < deduped@.len() implies has_index(
            entries@,
            (#[trigger] deduped@[i2]).0,
        ) by {
            assert(has_matching(entries@, deduped@[i2].0, deduped@[i2].1.elements@));
            let k = choose|k: int|
                0 <= k < entries@.len() && (#[trigger] entries@[k]).0 == deduped@[i2].0
                    && entries@[k].1.elements@ == deduped@[i2].1.elements@;
            assert(0 <= k < entries@.len() && entries@[k].0 == deduped@[i2].0);
        }
        assert forall|j: int| 0 <= j < entries@.len() implies has_index(
            deduped@,
            (#[trigger] entries@[j]).0,
        ) by {
            assert(has_matching(deduped@, entries@[j].0, entries@[j].1.elements@));
            let k = choose|k: int|
                0 <= k < deduped@.len() && (#[trigger] deduped@[k]).0 == entries@[j].0
                    && deduped@[k].1.elements@ == entries@[j].1.elements@;
            assert(0 <= k < deduped@.len() && deduped@[k].0 == entries@[j].0);
        }
        assert forall|i2: int, j: int|
            0 <= i2 < deduped@.len() && 0 <= j < entries@.len() && (#[trigger] deduped@[i2]).0 == (
            #[trigger] entries@[j]).0 implies deduped@[i2].1.elements@
            == entries@[j].1.elements@ by {
            assert(has_matching(entries@, deduped@[i2].0, deduped@[i2].1.elements@));
            let k = choose|k: int|
                0 <= k < entries@.len() && (#[trigger] entries@[k]).0 == deduped@[i2].0
                    && entries@[k].1.elements@ == deduped@[i2].1.elements@;
            assert(entries@[k].0 == entries@[j].0);
            assert(entries@[k].1.elements@ == entries@[j].1.elements@);
        }
        lemma_smt_map_equiv(deduped@, entries@);
        lemma_pow2_monotone(depth as nat, 64);
        lemma_pow2_pos(depth as nat);
    }
    let empties = empty_hashes();
    let root = match build_smt_node(&deduped, depth, 0, limit, &empties, store) {
        Ok(w) => w,
        Err(e) => {
            proof {
                assert(deduped@.len() > 0);
                assert(has_matching(entries@, deduped@[0].0, deduped@[0].1.elements@));
                let k = choose|k: int|
                    0 <= k < entries@.len() && (#[trigger] entries@[k]).0 == deduped@[0].0
                        && entries@[k].1.elements@ == deduped@[0].1.elements@;
                assert(entries@.len() > 0);
            }
            return Err(e);
        },
    };
    proof {
        lemma_smt_map_views(entries@);
        if entries@.len() > 0 {
            assert(has_matching(deduped@, entries@[0].0, entries@[0].1.elements@));
            let j0 = choose|j: int|
                0 <= j < deduped@.len() && (#[trigger] deduped@[j]).0 == entries@[0].0
                    && deduped@[j].1.elements@ == entries@[0].1.elements@;
            assert(((deduped@[j0].0) as int) < pow2(depth as nat));
            assert(index_in_range(deduped@[j0].0, 0, limit as int));
        }
    }
    Ok(root)
}


/// The (index, characters) view of textual sparse-tree entries.
pub open spec fn pairs_view(tree: Seq<(u64, String)>) -> Seq<(u64, Seq<char>)> {
    tree.map_values(|e: (u64, String)| (e.0, e.1@))
}

/// The (index, elements) view of decoded sparse-tree entries.
pub open spec fn sparse_entries_view(es: Seq<(u64, Word)>) -> Seq<(u64, Seq<u64>)> {
    es.map_values(|e: (u64, Word)| (e.0, e.1.elements@))
}

/// The leaf words of a sparse tree, by index, from plain pairs.
pub open spec fn smt_map_pairs(es: Seq<(u64, Seq<u64>)>) -> Map<int, Seq<u64>> {
    Map::new(
        |k: int| exists|j: int| 0 <= j < es.len() && (#[trigger] es[j]).0 as int == k,
        |k: int| es[choose|j: int| 0 <= j < es.len() && (#[trigger] es[j]).0 as int == k].1,
    )
}

/// The two forms of the leaf map agree, when entries sharing an index
/// agree on the word.
proof fn lemma_smt_map_views(es: Seq<(u64, Word)>)
    requires
        entries_consistent(es),
    ensures
        smt_map(es) == smt_map_pairs(sparse_entries_view(es)),
{
    let ma = smt_map(es);
    let mb = smt_map_pairs(sparse_entries_view(es));
    let vs = sparse_entries_view(es);
    assert(vs.len() == es.len());
    assert(forall|j: int| 0 <= j < es.len() ==> (#[trigger] vs[j]).0 == es[j].0);
    assert forall|k: int| ma.dom().contains(k) implies mb.dom().contains(k) by {
        let i = choose|i: int| 0 <= i < es.len() && (#[trigger] es[i]).0 as int == k;
        assert(vs[i].0 as int == k);
    }
    assert forall|k: int| mb.dom().contains(k) implies ma.dom().contains(k) by {
        let i = choose|i: int| 0 <= i < vs.len() && (#[trigger] vs[i]).0 as int == k;
        assert(es[i].0 as int == k);
    }
    assert forall|k: int| ma.dom().contains(k) implies ma[k] == mb[k] by {
        let ia = choose|j: int| 0 <= j < es.len() && (#[trigger] es[j]).0 as int == k;
        assert(mb.dom().contains(k));
        let jb = choose|j: int| 0 <= j < vs.len() && (#[trigger] vs[j]).0 as int == k;
        assert(ma[k] == es[ia].1.elements@);
        assert(mb[k] == vs[jb].1);
        assert(vs[jb].1 == es[jb].1.elements@);
        assert(es[ia].0 == es[jb].0);
        assert(es[ia].1.elements@ == es[jb].1.elements@);
    }
    assert(ma =~= mb);
}

/// Decodes textual sparse-tree entries front to back: `InvalidHexLength`
/// for a malformed leaf word, `FieldOverflow` for an out-of-field element.
pub open spec fn spec_parse_entries(vs: Seq<(u64, Seq<char>)>) -> Result<
    Seq<(u64, Seq<u64>)>,
    ParseError,
>
    decreases vs.len(),
{
    if vs.len() == 0 {
        Ok(Seq::empty())
    } else if !word_hex_ok(vs[0].1) {
        Err(ParseError::InvalidHexLength)
    } else if !word_in_field(vs[0].1) {
        Err(ParseError::FieldOverflow)
    } else {
        match spec_parse_entries(vs.drop_first()) {
            Ok(rest) => Ok(seq![(vs[0].0, word_elems(vs[0].1))] + rest),
            Err(e) => Err(e),
        }
    }
}

/// Decodes the (index, leaf) entries of a sparse Merkle tree.
pub fn parse_sparse_merkle_tree(tree: &Vec<(u64, String)>) -> (r: Result<
    Vec<(u64, Word)>,
    ParseError,
>)
    ensures
        match r {
            Ok(es) => spec_parse_entries(pairs_view(tree@)) == Ok::<
                Seq<(u64, Seq<u64>)>,
                ParseError,
            >(sparse_entries_view(es@)) && es@.len() == tree@.len() && forall|i: int|
                0 <= i < es@.len() ==> (#[trigger] es@[i]).1.wf(),
            Err(e) => spec_parse_entries(pairs_view(tree@)) == Err::<
                Seq<(u64, Seq<u64>)>,
                ParseError,
            >(e),
        },
{
    let ghost vs = pairs_view(tree@);
    let mut out: Vec<(u64, Word)> = Vec::new();
    let mut i: usize = 0;
    proof {
        assert(vs.skip(0) =~= vs);
        if spec_parse_entries(vs) is Ok {
            assert(sparse_entries_view(out@) + spec_parse_entries(vs)->Ok_0 =~= spec_parse_entries(
                vs,
            )->Ok_0);
        }
    }
    while i < tree.len()
        invariant
            i <= tree.len(),
            vs == pairs_view(tree@),
            vs.len() == tree@.len(),
            out@.len() == i,
            forall|k: int| 0 <= k < i ==> (#[trigger] out@[k]).1.wf(),
            spec_parse_entries(vs) == match spec_parse_entries(vs.skip(i as int)) {
                Ok(rest) => Ok::<Seq<(u64, Seq<u64>)>, ParseError>(
                    sparse_entries_view(out@) + rest,
                ),
                Err(e) => Err::<Seq<(u64, Seq<u64>)>, ParseError>(e),
            },
        decreases tree.len() - i,
    {
        proof {
            assert(vs.skip(i as int)[0] == vs[i as int]);
            assert(vs.skip(i as int).drop_first() =~= vs.skip(i as int + 1));
            assert(vs[i as int] == (tree@[i as int].0, tree@[i as int].1@));
        }
        let idx = tree[i].0;
        let w = match crate::codec::decode_word(&tree[i].1) {
            Ok(w) => w,
            Err(e) => {
                return Err(e);
            },
        };
        let ghost out0 = sparse_entries_view(out@);
        out.push((idx, w));
        proof {
            assert(sparse_entries_view(out@) =~= out0 + seq![(vs[i as int].0, word_elems(
                vs[i as int].1,
            ))]);
            match spec_parse_entries(vs.skip(i as int + 1)) {
                Ok(rest) => {
                    assert(out0 + (seq![(vs[i as int].0, word_elems(vs[i as int].1))] + rest)
                        =~= sparse_entries_view(out@) + rest);
                },
                Err(_) => {},
            }
        }
        i += 1;
    }
    proof {
        assert(vs.skip(i as int) =~= Seq::<(u64, Seq<char>)>::empty());
        assert(sparse_entries_view(out@) + Seq::<(u64, Seq<u64>)>::empty() =~= sparse_entries_view(
            out@,
        ));
    }
    Ok(out)
}

/// Merkle data as plain values: a dense tree by its leaf texts, a sparse
/// tree by its (index, leaf text) entries.
pub ghost enum MerkleItemModel {
    Dense(Seq<Seq<char>>),
    Sparse(Seq<(u64, Seq<char>)>),
}

/// The plain-value image of a request item.
pub open spec fn merkle_item_model(item: MerkleData) -> MerkleItemModel {
    match item {
        MerkleData::MerkleTree(leaves) => MerkleItemModel::Dense(
            crate::stack::strings_view(leaves@),
        ),
        MerkleData::SparseMerkleTree(es) => MerkleItemModel::Sparse(pairs_view(es@)),
    }
}

/// The store holds what this item describes: its leaves decode, its shape
/// is legal, and (for a tree with internal nodes) its root digest is
/// present.
pub open spec fn item_provided_m(m: MerkleItemModel, store: MerkleStore) -> bool {
    match m {
        MerkleItemModel::Dense(vs) => {
            &&& spec_parse_words(vs) is Ok
            &&& is_pow2(vs.len() as nat)
            &&& (vs.len() >= 2 ==> store.has_node(dense_root(spec_parse_words(vs)->Ok_0)))
            &&& dense_nodes_in_store(spec_parse_words(vs)->Ok_0, store)
        },
        MerkleItemModel::Sparse(ps) => {
            &&& spec_parse_entries(ps) is Ok
            &&& (ps.len() > 0 ==> store.has_node(
                smt_node_digest(
                    smt_map_pairs(spec_parse_entries(ps)->Ok_0),
                    SMT_MAX_DEPTH as nat,
                    0,
                ),
            ))
            &&& smt_nodes_in_store(
                smt_map_pairs(spec_parse_entries(ps)->Ok_0),
                SMT_MAX_DEPTH as nat,
                0,
                store,
            )
        },
    }
}

/// This item is the reason for the error: its leaves fail to decode, a
/// dense tree has an illegal leaf count, or a sparse index is out of
/// range.
pub open spec fn item_faulty_m(m: MerkleItemModel, e: ParseError) -> bool {
    match m {
        MerkleItemModel::Dense(vs) => spec_parse_words(vs) == Err::<Seq<Seq<u64>>, ParseError>(e)
            || (spec_parse_words(vs) is Ok && !is_pow2(vs.len() as nat) && e
            == ParseError::InvalidLeafCount),
        MerkleItemModel::Sparse(ps) => spec_parse_entries(ps) == Err::<
            Seq<(u64, Seq<u64>)>,
            ParseError,
        >(e) || (spec_parse_entries(ps) is Ok && e == ParseError::IndexOutOfRange),
    }
}

/// The item reaches node construction: its leaves decode, and it holds
/// enough of them that internal nodes are hashed and recorded. Only such
/// an item can surface a digest conflict in the merged store.
pub open spec fn item_builds_nodes_m(m: MerkleItemModel) -> bool {
    match m {
        MerkleItemModel::Dense(vs) => spec_parse_words(vs) is Ok && is_pow2(vs.len() as nat)
            && vs.len() >= 2,
        MerkleItemModel::Sparse(ps) => spec_parse_entries(ps) is Ok && ps.len() > 0,
    }
}

/// The store holds what this request item describes: its leaves decode,
/// its shape is legal, and (for a tree with internal nodes) its root
/// digest is present.
pub open spec fn item_provided(item: MerkleData, store: MerkleStore) -> bool {
    item_provided_m(merkle_item_model(item), store)
}

/// This request item is the reason for the error.
pub open spec fn item_faulty(item: MerkleData, e: ParseError) -> bool {
    item_faulty_m(merkle_item_model(item), e)
}

/// The item reaches node construction.
pub open spec fn item_builds_nodes(item: MerkleData) -> bool {
    item_builds_nodes_m(merkle_item_model(item))
}

/// A store extension keeps everything an item already provided.
pub proof fn lemma_item_provided_monotone(m: MerkleItemModel, a: MerkleStore, b: MerkleStore)
    requires
        a.nodes@.is_prefix_of(b.nodes@),
        item_provided_m(m, a),
    ensures
        item_provided_m(m, b),
{
    match m {
        MerkleItemModel::Dense(vs) => {
            if vs.len() >= 2 {
                lemma_has_node_monotone(&a, &b, dense_root(spec_parse_words(vs)->Ok_0));
            }
            lemma_dense_nodes_monotone(spec_parse_words(vs)->Ok_0, a, b);
        },
        MerkleItemModel::Sparse(ps) => {
            if ps.len() > 0 {
                lemma_has_node_monotone(
                    &a,
                    &b,
                    smt_node_digest(
                        smt_map_pairs(spec_parse_entries(ps)->Ok_0),
                        SMT_MAX_DEPTH as nat,
                        0,
                    ),
                );
            }
            lemma_smt_nodes_monotone(
                smt_map_pairs(spec_parse_entries(ps)->Ok_0),
                SMT_MAX_DEPTH as nat,
                0,
                a,
                b,
            );
        },
    }
}

/// Assembles the flat node store from every supplied Merkle item.
///
/// Each dense tree must have a power-of-two leaf count
/// (`InvalidLeafCount` otherwise); sparse trees live at the fixed maximum
/// depth. The internal nodes of every tree are merged into one store:
/// re-inserting an existing node is a no-op, while a digest collision
/// with different children fails with `MerkleStoreConflict`.
pub fn parse_merkle_store(items: &Vec<MerkleData>) -> (r: Result<MerkleStore, ParseError>)
    ensures
        match r {
            Ok(store) => store.wf() && forall|i: int|
                0 <= i < items@.len() ==> item_provided(#[trigger] items@[i], store),
            Err(e) => (e == ParseError::MerkleStoreConflict && exists|i: int|
                0 <= i < items@.len() && item_builds_nodes(#[trigger] items@[i])) || exists|i: int|
                0 <= i < items@.len() && item_faulty(#[trigger] items@[i], e),
        },
{
    let mut store = MerkleStore::new();
    let mut i: usize = 0;
    while i < items.len()
        invariant
            i <= items.len(),
            store.wf(),
            forall|k: int| 0 <= k < i ==> item_provided(#[trigger] items@[k], store),
        decreases items.len() - i,
    {
        let ghost store0 = store;
        match &items[i] {
            MerkleData::MerkleTree(leaves) => {
                let ws = match parse_merkle_tree(leaves) {
                    Ok(ws) => ws,
                    Err(e) => {
                        proof {
                            assert(item_faulty(items@[i as int], e));
                        }
                        return Err(e);
                    },
                };
                if !is_power_of_two(ws.len()) {
                    proof {
                        assert(ws@.len() == crate::stack::strings_view(leaves@).len());
                        assert(item_faulty(items@[i as int], ParseError::InvalidLeafCount));
                    }
                    return Err(ParseError::InvalidLeafCount);
                }
                let root = match build_dense(&ws, 0, ws.len(), &mut store) {
                    Ok(w) => w,
                    Err(e) => {
                        proof {
                            assert(ws@.len() == crate::stack::strings_view(leaves@).len());
                            assert(item_builds_nodes(items@[i as int]));
                        }
                        return Err(e);
                    },
                };
                proof {
                    assert(words_view(ws@).subrange(0, ws@.len() as int) =~= words_view(ws@));
                    assert(item_provided(items@[i as int], store));
                    assert forall|k: int| 0 <= k < i implies item_provided(
                        #[trigger] items@[k],
                        store,
                    ) by {
                        lemma_item_provided_monotone(
                            merkle_item_model(items@[k]),
                            store0,
                            store,
                        );
                    }
                }
            },
            MerkleData::SparseMerkleTree(es) => {
                let entries = match parse_sparse_merkle_tree(es) {
                    Ok(entries) => entries,
                    Err(e) => {
                        proof {
                            assert(item_faulty(items@[i as int], e));
                        }
                        return Err(e);
                    },
                };
                let root = match build_sparse_tree(&entries, SMT_MAX_DEPTH, &mut store) {
                    Ok(w) => w,
                    Err(e) => {
                        proof {
                            if e == ParseError::IndexOutOfRange {
                                assert(item_faulty(items@[i as int], e));
                            } else {
                                assert(entries@.len() == es@.len());
                                assert(item_builds_nodes(items@[i as int]));
                            }
                        }
                        return Err(e);
                    },
                };
                proof {
                    assert(item_provided(items@[i as int], store));
                    assert forall|k: int| 0 <= k < i implies item_provided(
                        #[trigger] items@[k],
                        store,
                    ) by {
                        lemma_item_provided_monotone(
                            merkle_item_model(items@[k]),
                            store0,
                            store,
                        );
                    }
                }
            },
        }
        i += 1;
    }
    Ok(store)
}

} // verus!
