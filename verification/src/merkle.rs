//! The Merkle proof verifier: recomputes a root from a leaf and an ordered
//! list of sibling hashes with a sorted-pair Keccak-256 combination rule.

use vstd::prelude::*;

use crate::bytes::append_bytes;
use crate::hash::{Hash256, keccak256, keccak256_of, lex_lt};

verus! {

/// The sorted-pair combination of two nodes: the lexicographically smaller
/// value is concatenated first, and the 64 bytes are hashed with Keccak-256.
pub open spec fn combine(a: Seq<u8>, b: Seq<u8>) -> Seq<u8> {
    if lex_lt(a, b) {
        keccak256_of(a + b)
    } else {
        keccak256_of(b + a)
    }
}

/// The root recomputed by folding the leaf through the siblings, first
/// sibling first (the proof is ordered leaf-side to root-side).
pub open spec fn fold_proof(leaf: Seq<u8>, siblings: Seq<Seq<u8>>) -> Seq<u8>
    decreases siblings.len(),
{
    if siblings.len() == 0 {
        leaf
    } else {
        fold_proof(combine(leaf, siblings[0]), siblings.skip(1))
    }
}

/// An ordered list of sibling hashes, leaf-side first.
#[derive(Debug)]
pub struct MerkleProof {
    pub siblings: Vec<Hash256>,
}

impl View for MerkleProof {
    type V = Seq<Seq<u8>>;

    open spec fn view(&self) -> Seq<Seq<u8>> {
        self.siblings@.map_values(|h: Hash256| h@)
    }
}

impl MerkleProof {
    pub open spec fn wf(&self) -> bool {
        forall|i: int| 0 <= i < self.siblings@.len() ==> self.siblings@[i].wf()
    }

    pub fn new(siblings: Vec<Hash256>) -> (r: MerkleProof)
        ensures
            r.siblings@ == siblings@,
    {
        MerkleProof { siblings }
    }

    pub fn len(&self) -> (r: usize)
        ensures
            r == self@.len(),
    {
        self.siblings.len()
    }
}

/// The outcome of one verification: the boolean answer together with the
/// ordered trace of intermediate combination hashes, for diagnostics.
#[derive(Debug)]
pub struct VerificationResult {
    pub valid: bool,
    pub trace: Vec<Hash256>,
}

/// Folding one more sibling onto the end of a proof combines the fold of the
/// shorter proof with that sibling.
pub proof fn lemma_fold_proof_push(leaf: Seq<u8>, siblings: Seq<Seq<u8>>, s: Seq<u8>)
    ensures
        fold_proof(leaf, siblings.push(s)) == combine(fold_proof(leaf, siblings), s),
    decreases siblings.len(),
{
    if siblings.len() == 0 {
        assert(siblings.push(s)[0] == s);
        assert(siblings.push(s).skip(1) =~= Seq::<Seq<u8>>::empty());
        assert(fold_proof(leaf, siblings) == leaf);
        assert(fold_proof(leaf, siblings.push(s)) == fold_proof(
            combine(leaf, s),
            siblings.push(s).skip(1),
        ));
        assert(fold_proof(combine(leaf, s), Seq::<Seq<u8>>::empty()) == combine(leaf, s));
    } else {
        assert(siblings.push(s)[0] == siblings[0]);
        assert(siblings.push(s).skip(1) =~= siblings.skip(1).push(s));
        assert(fold_proof(leaf, siblings.push(s)) == fold_proof(
            combine(leaf, siblings[0]),
            siblings.skip(1).push(s),
        ));
        assert(fold_proof(leaf, siblings) == fold_proof(
            combine(leaf, siblings[0]),
            siblings.skip(1),
        ));
        lemma_fold_proof_push(combine(leaf, siblings[0]), siblings.skip(1), s);
    }
}

/// With an empty proof the recomputed root is the leaf itself, so `verify`
/// succeeds exactly when the leaf equals the target root.
pub proof fn lemma_empty_proof(leaf: Seq<u8>)
    ensures
        fold_proof(leaf, Seq::<Seq<u8>>::empty()) == leaf,
{
}

/// A proof built honestly bottom-up is accepted: if a chain of nodes starts
/// at the leaf and each next node is the sorted-pair combination of the
/// previous node with the matching sibling, then the fold of the leaf through
/// the siblings is the last node of the chain, so `verify` against that node
/// reports success.
pub proof fn lemma_honest_chain_accepted(nodes: Seq<Seq<u8>>, siblings: Seq<Seq<u8>>)
    requires
        nodes.len() == siblings.len() + 1,
        forall|k: int| 0 <= k < siblings.len() ==> nodes[k + 1] == combine(nodes[k], siblings[k]),
    ensures
        fold_proof(nodes[0], siblings) == nodes[nodes.len() - 1],
    decreases siblings.len(),
{
    if siblings.len() > 0 {
        let nodes2 = nodes.skip(1);
        let siblings2 = siblings.skip(1);
        assert(nodes2[0] == nodes[1]);
        assert(nodes[1] == combine(nodes[0], siblings[0]));
        assert forall|k: int| 0 <= k < siblings2.len() implies nodes2[k + 1] == combine(
            nodes2[k],
            siblings2[k],
        ) by {
            assert(nodes2[k + 1] == nodes[k + 2]);
            assert(nodes2[k] == nodes[k + 1]);
            assert(siblings2[k] == siblings[k + 1]);
            assert(nodes[k + 2] == combine(nodes[k + 1], siblings[k + 1]));
        }
        lemma_honest_chain_accepted(nodes2, siblings2);
        assert(nodes2[nodes2.len() - 1] == nodes[nodes.len() - 1]);
    }
}

/// One sorted-pair combination step on digest values.
pub fn combine_nodes(a: &Hash256, b: &Hash256) -> (r: Hash256)
    ensures
        r@ == combine(a@, b@),
        r.wf(),
{
    let mut buf: Vec<u8> = Vec::new();
    if a.lex_before(b) {
        append_bytes(&mut buf, a.bytes());
        append_bytes(&mut buf, b.bytes());
        proof {
            assert(buf@ =~= a@ + b@);
        }
    } else {
        append_bytes(&mut buf, b.bytes());
        append_bytes(&mut buf, a.bytes());
        proof {
            assert(buf@ =~= b@ + a@);
        }
    }
    let digest = keccak256(&buf);
    Hash256::from_bytes_exact(digest)
}

/// Verifies a Merkle inclusion proof.
///
/// Starting from the leaf, each sibling in order is combined with the current
/// node by the sorted-pair Keccak-256 rule; the proof is valid exactly when
/// the final node equals the target root byte for byte. The trace records
/// every intermediate combination hash in order. The inputs are never
/// mutated, and an empty proof is valid exactly when `leaf == root`.
pub fn verify(leaf: &Hash256, proof: &MerkleProof, root: &Hash256) -> (r: VerificationResult)
    ensures
        r.valid == (fold_proof(leaf@, proof@) == root@),
        r.trace@.len() == proof@.len(),
        forall|i: int|
            0 <= i < proof@.len() ==> r.trace@[i]@ == fold_proof(leaf@, proof@.take(i + 1)),
{
    let mut current: Hash256 = leaf.duplicate();
    let mut trace: Vec<Hash256> = Vec::new();
    let mut i: usize = 0;
    proof {
        assert(proof@.take(0) =~= Seq::<Seq<u8>>::empty());
    }
    while i < proof.siblings.len()
        invariant
            i <= proof.siblings@.len(),
            proof@.len() == proof.siblings@.len(),
            current@ == fold_proof(leaf@, proof@.take(i as int)),
            trace@.len() == i,
            forall|j: int|
                0 <= j < i ==> trace@[j]@ == fold_proof(leaf@, proof@.take(j + 1)),
        decreases proof.siblings@.len() - i,
    {
        let next = combine_nodes(&current, &proof.siblings[i]);
        proof {
            assert(proof@[i as int] == proof.siblings@[i as int]@);
            assert(proof@.take(i + 1) =~= proof@.take(i as int).push(proof@[i as int]));
            lemma_fold_proof_push(leaf@, proof@.take(i as int), proof@[i as int]);
        }
        current = next;
        trace.push(current.duplicate());
        i = i + 1;
    }
    proof {
        assert(proof@.take(proof@.len() as int) =~= proof@);
    }
    let valid = current.eq_hash(root);
    VerificationResult { valid, trace }
}

} // verus!
