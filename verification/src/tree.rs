//! The tree itself: built from blocks, and checked against a root.

use vstd::arithmetic::power2::pow2;
use vstd::prelude::*;

use crate::hashing::{hash_concat, hash_data, DIGEST_LEN};
use crate::model::{
    completed, digests_sized, leaf_level, lemma_completed_single, lemma_completed_step,
    lemma_leaf_level_sized, lemma_levels_from_chain, lemma_levels_from_count,
    lemma_levels_from_sized, levels_from, reduce, top_digest,
};
use crate::Data;

verus! {

/// What a tree holds, as mathematics.
pub struct MerkleTreeView {
    /// The root digest; no bytes at all for the tree over no block.
    pub root: Seq<u8>,
    /// Every level, from the leaves at index 0 up to the top.
    pub levels: Seq<Seq<Seq<u8>>>,
}

impl MerkleTreeView {
    /// What holds of every tree that was built: level 0 is made of digests,
    /// the levels above are exactly those that reduction gives, the top one
    /// holds at most one digest, and the root is that digest.
    pub open spec fn wf(self) -> bool {
        &&& self.levels.len() >= 1
        &&& digests_sized(self.levels[0])
        &&& self.levels == levels_from(self.levels[0])
        &&& self.levels.last().len() <= 1
        &&& self.root == top_digest(self.levels.last())
    }
}

/// The tree over `blocks`.
pub open spec fn tree_of(blocks: Seq<Seq<u8>>) -> MerkleTreeView {
    let levels = levels_from(leaf_level(blocks));
    MerkleTreeView { root: top_digest(levels.last()), levels }
}

/// Whether `root` is the root of the tree over `blocks`.
pub open spec fn verifies(blocks: Seq<Seq<u8>>, root: Seq<u8>) -> bool {
    root == tree_of(blocks).root
}

/// The shape of the tree over any blocks: it is well formed, its level 0
/// holds one digest for each block, and the number of its levels is the one
/// `c` with `2^(c-1) <= n < 2^c` for `n >= 1` blocks. Its root is a digest
/// unless there is no block.
pub proof fn lemma_tree_of_shape(blocks: Seq<Seq<u8>>)
    ensures
        tree_of(blocks).wf(),
        tree_of(blocks).levels[0] == leaf_level(blocks),
        tree_of(blocks).levels[0].len() == blocks.len(),
        blocks.len() == 0 ==> tree_of(blocks).levels.len() == 1 && tree_of(blocks).root.len() == 0,
        blocks.len() >= 1 ==> tree_of(blocks).root.len() == DIGEST_LEN,
        blocks.len() >= 1 ==> pow2((tree_of(blocks).levels.len() - 1) as nat) <= blocks.len()
            < pow2(tree_of(blocks).levels.len()),
{
    let leaves = leaf_level(blocks);
    let levels = levels_from(leaves);
    lemma_leaf_level_sized(blocks);
    lemma_levels_from_chain(leaves);
    lemma_levels_from_count(leaves);
    lemma_levels_from_sized(leaves);
    if blocks.len() >= 1 {
        assert(digests_sized(levels.last()));
    }
}

/// The bytes of a vector are its own deep view.
proof fn lemma_bytes_deep_view(bytes: Vec<u8>)
    ensures
        bytes.deep_view() == bytes@,
{
    assert(bytes.deep_view() =~= bytes@);
}

/// Makes the level above `level`: digest `i` of the result combines digests
/// `i` and `i + 1` of `level`, for each `i` below half the length of `level`.
pub fn reduce_level(level: &Vec<crate::Hash>) -> (next: Vec<crate::Hash>)
    ensures
        next.deep_view() == reduce(level.deep_view()),
{
    let half = level.len() / 2;
    let mut next: Vec<crate::Hash> = Vec::new();
    let mut i: usize = 0;
    while i < half
        invariant
            half == level.len() / 2,
            i <= half,
            next.len() == i,
            forall|j: int| 0 <= j < i ==> (#[trigger] next[j])@ == reduce(level.deep_view())[j],
        decreases half - i,
    {
        let parent = hash_concat(&level[i], &level[i + 1]);
        proof {
            lemma_bytes_deep_view(level[i as int]);
            lemma_bytes_deep_view(level[i + 1]);
        }
        next.push(parent);
        i += 1;
    }
    proof {
        assert forall|j: int| 0 <= j < next.len() implies next.deep_view()[j] == reduce(
            level.deep_view(),
        )[j] by {
            lemma_bytes_deep_view(next[j]);
        }
    }
    next
}

/// Completes a tree of which the lower levels are given: adds the level
/// above the last one, and again, until the last level holds at most one
/// digest. The levels given are kept as they are.
pub fn recursive_merkle_tree(hashed_data: Vec<Vec<crate::Hash>>) -> (res: Vec<Vec<crate::Hash>>)
    requires
        hashed_data.len() > 0,
    ensures
        res.deep_view() == completed(hashed_data.deep_view()),
{
    let ghost given = hashed_data.deep_view();
    let mut res: Vec<Vec<crate::Hash>> = hashed_data;
    while res[res.len() - 1].len() > 1
        invariant
            res.len() > 0,
            completed(res.deep_view()) == completed(given),
        decreases res[res.len() - 1].len(),
    {
        let ghost before = res.deep_view();
        let level_hashes = reduce_level(&res[res.len() - 1]);
        proof {
            lemma_completed_step(before);
        }
        res.push(level_hashes);
    }
    proof {
        lemma_completed_step(res.deep_view());
    }
    res
}

/// A hash tree over an ordered list of blocks, with every level kept.
pub struct MerkleTree {
    root_hash: crate::Hash,
    tree: Vec<Vec<crate::Hash>>,
}

impl View for MerkleTree {
    type V = MerkleTreeView;

    closed spec fn view(&self) -> MerkleTreeView {
        MerkleTreeView { root: self.root_hash@, levels: self.tree.deep_view() }
    }
}

impl MerkleTree {
    #[verifier::type_invariant]
    spec fn well_formed(self) -> bool {
        self@.wf()
    }

    /// Builds the tree over `input`.
    ///
    /// Over no block at all the tree is one empty level, and its root has no
    /// bytes: a value that is the digest of nothing, since every digest has
    /// `DIGEST_LEN` bytes.
    pub fn construct(input: &[Data]) -> (tree: MerkleTree)
        ensures
            tree@ == tree_of(input.deep_view()),
            tree@.wf(),
            tree@.levels[0].len() == input.len(),
            input.len() == 0 ==> tree@.levels.len() == 1 && tree@.root.len() == 0,
            input.len() >= 1 ==> tree@.root.len() == DIGEST_LEN && pow2(
                (tree@.levels.len() - 1) as nat,
            ) <= input.len() < pow2(tree@.levels.len()),
    {
        let mut hashed_data: Vec<crate::Hash> = Vec::new();
        let mut i: usize = 0;
        while i < input.len()
            invariant
                i <= input.len(),
                hashed_data.len() == i,
                forall|j: int|
                    0 <= j < i ==> (#[trigger] hashed_data[j])@ == leaf_level(input.deep_view())[j],
            decreases input.len() - i,
        {
            let leaf = hash_data(&input[i]);
            proof {
                lemma_bytes_deep_view(input[i as int]);
            }
            hashed_data.push(leaf);
            i += 1;
        }
        let ghost leaves = leaf_level(input.deep_view());
        assert(hashed_data.deep_view() == leaves) by {
            assert forall|j: int| 0 <= j < hashed_data.len() implies hashed_data.deep_view()[j]
                == leaves[j] by {
                lemma_bytes_deep_view(hashed_data[j]);
            }
        }
        let mut lowest: Vec<Vec<crate::Hash>> = Vec::new();
        lowest.push(hashed_data);
        assert(lowest.deep_view() == seq![leaves]);
        let tree = recursive_merkle_tree(lowest);
        proof {
            lemma_completed_single(leaves);
            lemma_tree_of_shape(input.deep_view());
        }
        let top = &tree[tree.len() - 1];
        let root_hash: crate::Hash = if top.len() > 0 {
            top[top.len() - 1].clone()
        } else {
            Vec::new()
        };
        assert(root_hash@ == top_digest(top.deep_view())) by {
            if top.len() > 0 {
                lemma_bytes_deep_view(top[top.len() - 1]);
            }
        }
        MerkleTree { root_hash, tree }
    }

    /// Tells whether `root_hash` is the root of the tree over `input`, by
    /// building that tree and comparing the two roots byte for byte.
    ///
    /// Against no block at all only the root without bytes verifies.
    pub fn verify(input: &[Data], root_hash: &crate::Hash) -> (ok: bool)
        ensures
            ok == verifies(input.deep_view(), root_hash@),
    {
        let tree = MerkleTree::construct(input);
        let ok = &tree.root_hash == root_hash;
        assert(ok == (tree.root_hash@ =~= root_hash@));
        ok
    }

    /// The root digest.
    pub fn root_hash(&self) -> (root: &crate::Hash)
        ensures
            root@ == self@.root,
            self@.wf(),
    {
        proof {
            use_type_invariant(self);
        }
        &self.root_hash
    }

    /// Every level, from the leaves up.
    pub fn tree(&self) -> (levels: &Vec<Vec<crate::Hash>>)
        ensures
            levels.deep_view() == self@.levels,
            self@.wf(),
    {
        proof {
            use_type_invariant(self);
        }
        &self.tree
    }
}

} // verus!
