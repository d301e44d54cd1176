//! Merkle proof verification: checking that a transaction id lies
//! under a block's Merkle root, given the sibling path to the root.

use vstd::prelude::*;
use crate::errors::Error;
use crate::hashing::{bytes_eq, clone_bytes, sha256d, sha256d_spec};

verus! {

/// The hash of an interior node: double SHA-256 of the two children,
/// left first.
pub open spec fn parent_spec(l: Seq<u8>, r: Seq<u8>) -> Seq<u8> {
    sha256d_spec(l + r)
}

/// The views of a list of sibling hashes.
pub open spec fn paths_view(p: Seq<Vec<u8>>) -> Seq<Seq<u8>> {
    p.map_values(|v: Vec<u8>| v@)
}

/// Folds a proof path from a leaf up to the root it implies: at each
/// level the current node is combined with its sibling, on the side
/// the index's parity dictates, and the index moves to the parent.
pub open spec fn fold_path(leaf: Seq<u8>, path: Seq<Seq<u8>>, index: nat) -> Seq<u8>
    decreases path.len(),
{
    if path.len() == 0 {
        leaf
    } else {
        let next = if index % 2 == 0 {
            parent_spec(leaf, path[0])
        } else {
            parent_spec(path[0], leaf)
        };
        fold_path(next, path.drop_first(), index / 2)
    }
}

/// Combines two nodes into their parent.
pub fn merkle_parent(l: &Vec<u8>, r: &Vec<u8>) -> (res: Vec<u8>)
    ensures
        res@ == parent_spec(l@, r@),
        res@.len() == 32,
{
    let joined = crate::hashing::concat_bytes(l, r);
    sha256d(&joined)
}

/// Verifies a Merkle inclusion proof: the transaction id must be a
/// well-formed 32-byte value, the path must be as long as the tree
/// is high, and folding the path from the id must reproduce the root.
pub fn verify_merkle_proof(
    tx_id: &Vec<u8>,
    merkle_root: &Vec<u8>,
    proof_path: &Vec<Vec<u8>>,
    tx_index: u64,
    tree_height: usize,
) -> (r: Result<(), Error>)
    ensures
        tx_id@.len() != 32 ==> r == Err::<(), Error>(Error::MalformedTxid),
        tx_id@.len() == 32 ==> if proof_path@.len() == tree_height && fold_path(
            tx_id@,
            paths_view(proof_path@),
            tx_index as nat,
        ) == merkle_root@ {
            r is Ok
        } else {
            r == Err::<(), Error>(Error::InvalidMerkleProof)
        },
{
    if tx_id.len() != 32 {
        return Err(Error::MalformedTxid);
    }
    if proof_path.len() != tree_height {
        return Err(Error::InvalidMerkleProof);
    }
    let ghost full = paths_view(proof_path@);
    let mut cur = clone_bytes(tx_id);
    let mut idx: u64 = tx_index;
    let mut i: usize = 0;
    proof {
        assert(full.skip(0) =~= full);
    }
    while i < proof_path.len()
        invariant
            i <= proof_path@.len(),
            full == paths_view(proof_path@),
            fold_path(cur@, full.skip(i as int), idx as nat) == fold_path(
                tx_id@,
                full,
                tx_index as nat,
            ),
        decreases proof_path@.len() - i,
    {
        let sib = &proof_path[i];
        proof {
            assert(full.skip(i as int)[0] == proof_path@[i as int]@);
            assert(full.skip(i as int).drop_first() =~= full.skip(i + 1));
        }
        let next = if idx % 2 == 0 {
            merkle_parent(&cur, sib)
        } else {
            merkle_parent(sib, &cur)
        };
        cur = next;
        idx = idx / 2;
        i = i + 1;
    }
    proof {
        assert(full.skip(proof_path@.len() as int) =~= Seq::<Seq<u8>>::empty());
    }
    if bytes_eq(&cur, merkle_root) {
        Ok(())
    } else {
        Err(Error::InvalidMerkleProof)
    }
}


/// `n` is a power of two.
pub open spec fn is_pow2(n: nat) -> bool
    decreases n,
{
    if n <= 1 {
        n == 1
    } else {
        n % 2 == 0 && is_pow2(n / 2)
    }
}

/// One level up: adjacent leaves combined into their parents.
pub open spec fn pair_up(leaves: Seq<Seq<u8>>) -> Seq<Seq<u8>> {
    Seq::new((leaves.len() / 2) as nat, |i: int| parent_spec(leaves[2 * i], leaves[2 * i + 1]))
}

/// The root of the perfect Merkle tree over `leaves`.
pub open spec fn tree_root(leaves: Seq<Seq<u8>>) -> Seq<u8>
    decreases leaves.len(),
{
    if leaves.len() <= 1 {
        if leaves.len() == 1 {
            leaves[0]
        } else {
            Seq::empty()
        }
    } else {
        tree_root(pair_up(leaves))
    }
}

/// The index of a node's sibling.
pub open spec fn sibling_of(idx: int) -> int {
    if idx % 2 == 0 {
        idx + 1
    } else {
        idx - 1
    }
}

/// The true proof path for leaf `idx`: its sibling at every level,
/// bottom up.
pub open spec fn tree_path(leaves: Seq<Seq<u8>>, idx: int) -> Seq<Seq<u8>>
    decreases leaves.len(),
{
    if leaves.len() <= 1 {
        Seq::empty()
    } else {
        seq![leaves[sibling_of(idx)]] + tree_path(pair_up(leaves), idx / 2)
    }
}

/// The Merkle round-trip law: over a perfect tree, folding the true
/// sibling path of any leaf reproduces the tree's root, so
/// verification succeeds for every leaf with its honest proof.
///
/// The model covers trees over a power-of-two number of leaves.
/// Bitcoin pads an odd level by duplicating its last node; a tree
/// built that way is the perfect tree over the padded leaf list, so
/// the law applies to it through that list.
pub proof fn lemma_merkle_round_trip(leaves: Seq<Seq<u8>>, idx: int)
    requires
        is_pow2(leaves.len()),
        0 <= idx < leaves.len(),
    ensures
        fold_path(leaves[idx], tree_path(leaves, idx), idx as nat) == tree_root(leaves),
    decreases leaves.len(),
{
    if leaves.len() == 1 {
        assert(tree_path(leaves, idx) =~= Seq::<Seq<u8>>::empty());
    } else {
        let p = pair_up(leaves);
        assert(leaves.len() % 2 == 0);
        assert(p.len() == leaves.len() / 2);
        assert(0 <= idx / 2 < p.len());
        lemma_merkle_round_trip(p, idx / 2);
        let path = tree_path(leaves, idx);
        assert(path[0] == leaves[sibling_of(idx)]);
        assert(path.drop_first() =~= tree_path(p, idx / 2));
        let next = if idx % 2 == 0 {
            parent_spec(leaves[idx], path[0])
        } else {
            parent_spec(path[0], leaves[idx])
        };
        if idx % 2 == 0 {
            assert(p[idx / 2] == parent_spec(leaves[2 * (idx / 2)], leaves[2 * (idx / 2) + 1]));
            assert(2 * (idx / 2) == idx);
            assert(next == p[idx / 2]);
        } else {
            assert(p[idx / 2] == parent_spec(leaves[2 * (idx / 2)], leaves[2 * (idx / 2) + 1]));
            assert(2 * (idx / 2) + 1 == idx);
            assert(next == p[idx / 2]);
        }
        assert((idx as nat) / 2 == (idx / 2) as nat);
        assert(fold_path(leaves[idx], path, idx as nat) == fold_path(
            next,
            path.drop_first(),
            (idx / 2) as nat,
        ));
    }
}

} // verus!} // verus!
