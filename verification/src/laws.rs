//! What holds of every tree, whatever the blocks.

use vstd::arithmetic::logarithm::log;
use vstd::arithmetic::power2::{lemma2_to64, lemma_pow2_strictly_increases, lemma_pow2_unfold, pow2};
use vstd::prelude::*;

use crate::hashing::{combine, digest, DIGEST_LEN};
use crate::model::{
    leaf_level, lemma_level_len, lemma_levels_from_count, lemma_levels_from_count_log,
    levels_from, reduce,
};
use crate::tree::{lemma_tree_of_shape, tree_of, verifies};

verus! {

/// Determinism: two lists of blocks that hold the same bytes in the same
/// order have the same tree, and so the same root, however often and
/// wherever the tree is built.
pub proof fn lemma_same_blocks_same_tree(first: Seq<Seq<u8>>, second: Seq<Seq<u8>>)
    requires
        first.len() == second.len(),
        forall|i: int| 0 <= i < first.len() ==> first[i] == second[i],
    ensures
        tree_of(first).root == tree_of(second).root,
        tree_of(first) == tree_of(second),
{
    assert(first =~= second);
}

/// Soundness of verification: the root of the tree over `blocks` verifies
/// against `blocks`.
pub proof fn lemma_own_root_verifies(blocks: Seq<Seq<u8>>)
    ensures
        verifies(blocks, tree_of(blocks).root),
{
}

/// Completeness of verification: nothing but the root of the tree over
/// `blocks` verifies against `blocks`.
pub proof fn lemma_other_root_fails(blocks: Seq<Seq<u8>>, root: Seq<u8>)
    requires
        root != tree_of(blocks).root,
    ensures
        !verifies(blocks, root),
{
}

/// Two different byte strings with one digest.
pub open spec fn collide(x: Seq<u8>, y: Seq<u8>) -> bool {
    x != y && digest(x) == digest(y)
}

/// The tree over two blocks has two levels, and its root combines the two
/// leaf digests in the order of the blocks.
pub proof fn lemma_root_of_two(a: Seq<u8>, b: Seq<u8>)
    ensures
        tree_of(seq![a, b]).levels == seq![
            seq![digest(a), digest(b)],
            seq![combine(digest(a), digest(b))],
        ],
        tree_of(seq![a, b]).root == combine(digest(a), digest(b)),
{
    let leaves = leaf_level(seq![a, b]);
    let above = reduce(leaves);
    assert(leaves =~= seq![digest(a), digest(b)]);
    assert(above =~= seq![combine(digest(a), digest(b))]);
    assert(levels_from(above) == seq![above]);
}

/// Sensitivity to order: two different blocks give one root in the one
/// order and another in the other, unless SHA-256 collides, either on the
/// two blocks or on their two digests joined in the one and the other order.
pub proof fn lemma_order_sensitive(a: Seq<u8>, b: Seq<u8>)
    requires
        a != b,
    ensures
        tree_of(seq![a, b]).root == tree_of(seq![b, a]).root ==> collide(a, b) || collide(
            digest(a) + digest(b),
            digest(b) + digest(a),
        ),
{
    lemma_root_of_two(a, b);
    lemma_root_of_two(b, a);
    let ab = digest(a) + digest(b);
    let ba = digest(b) + digest(a);
    if ab == ba {
        assert(ab.subrange(0, DIGEST_LEN as int) =~= digest(a));
        assert(ba.subrange(0, DIGEST_LEN as int) =~= digest(b));
    }
}

/// Leaf count: level 0 of the tree holds one digest for each block, the
/// digest of that block.
pub proof fn lemma_leaf_count(blocks: Seq<Seq<u8>>)
    ensures
        tree_of(blocks).levels[0].len() == blocks.len(),
        forall|i: int|
            0 <= i < blocks.len() ==> #[trigger] tree_of(blocks).levels[0][i] == digest(blocks[i]),
{
    lemma_tree_of_shape(blocks);
}

/// Level sizes: level `k` of the tree over `n` blocks holds `n / 2^k`
/// digests, rounded down.
pub proof fn lemma_level_sizes(blocks: Seq<Seq<u8>>, k: nat)
    requires
        k < tree_of(blocks).levels.len(),
    ensures
        tree_of(blocks).levels[k as int].len() == blocks.len() / pow2(k),
{
    lemma_level_len(leaf_level(blocks), k);
}

/// Level count: the tree over `n >= 1` blocks has one level more than the
/// binary logarithm of `n`, rounded down; the tree over no block has one.
pub proof fn lemma_level_count(blocks: Seq<Seq<u8>>)
    ensures
        tree_of(blocks).levels.len() == log(2, blocks.len() as int) + 1,
        blocks.len() >= 1 ==> pow2((tree_of(blocks).levels.len() - 1) as nat) <= blocks.len()
            < pow2(tree_of(blocks).levels.len()),
{
    lemma_levels_from_count(leaf_level(blocks));
    lemma_levels_from_count_log(leaf_level(blocks));
}

/// The binary logarithm of `n`, rounded up.
pub open spec fn ceil_log2(n: nat) -> nat
    decreases n,
{
    if n <= 1 {
        0
    } else {
        1 + ceil_log2(((n + 1) / 2) as nat)
    }
}

/// `ceil_log2(n)` is the least exponent `e` with `n <= 2^e`.
pub proof fn lemma_ceil_log2_bounds(n: nat)
    requires
        n >= 1,
    ensures
        n <= pow2(ceil_log2(n)),
        ceil_log2(n) > 0 ==> pow2((ceil_log2(n) - 1) as nat) < n,
    decreases n,
{
    lemma2_to64();
    if n > 1 {
        let half = ((n + 1) / 2) as nat;
        lemma_ceil_log2_bounds(half);
        lemma_pow2_unfold(ceil_log2(n));
        if ceil_log2(half) > 0 {
            lemma_pow2_unfold(ceil_log2(half));
        }
    }
}

/// Level count against the logarithm rounded up: over `n > 1` blocks the
/// tree has `ceil_log2(n) + 1` levels where `n` is a power of two, and one
/// fewer where it is not.
pub proof fn lemma_level_count_rounded_up(blocks: Seq<Seq<u8>>)
    requires
        blocks.len() > 1,
    ensures
        (exists|e: nat| blocks.len() == pow2(e)) ==> tree_of(blocks).levels.len() == ceil_log2(
            blocks.len(),
        ) + 1,
        !(exists|e: nat| blocks.len() == pow2(e)) ==> tree_of(blocks).levels.len() == ceil_log2(
            blocks.len(),
        ),
{
    let n = blocks.len();
    let count = tree_of(blocks).levels.len();
    let down = (count - 1) as nat;
    let up = ceil_log2(n);
    lemma_level_count(blocks);
    lemma_ceil_log2_bounds(n);
    // 2^down <= n < 2^(down + 1) and 2^(up - 1) < n <= 2^up leave two cases.
    if up < down {
        lemma_pow2_strictly_increases(up, down);
    }
    if down + 2 < up {
        lemma_pow2_strictly_increases((down + 1) as nat, (up - 1) as nat);
    }
    assert(up == down || up == down + 1);
    if exists|e: nat| n == pow2(e) {
        // n = 2^e lies in [2^down, 2^(down + 1)), so e = down, and then up = down.
        let e = choose|e: nat| n == pow2(e);
        if e < down {
            lemma_pow2_strictly_increases(e, down);
        }
        if down + 1 < e {
            lemma_pow2_strictly_increases((down + 1) as nat, e);
        }
        assert(e == down);
    } else {
        // up = down would give 2^down <= n <= 2^down.
        assert(up == down + 1);
    }
}

} // verus!
