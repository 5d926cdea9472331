//! The tree as mathematics: levels of digests, each made from the one below.

use vstd::arithmetic::div_mod::lemma_div_denominator;
use vstd::arithmetic::logarithm::{lemma_log0, lemma_log_s, log};
use vstd::arithmetic::power2::{lemma2_to64, lemma_pow2_pos, lemma_pow2_unfold, pow2};
use vstd::prelude::*;

use crate::hashing::{combine, digest, DIGEST_LEN};

verus! {

/// Level 0 of the tree over `blocks`: the digest of each block, in the order
/// of the blocks.
pub open spec fn leaf_level(blocks: Seq<Seq<u8>>) -> Seq<Seq<u8>> {
    Seq::new(blocks.len(), |i: int| digest(blocks[i]))
}

/// The level above `level`.
///
/// It has half as many digests, rounded down. Digest `i` of it combines
/// digests `i` and `i + 1` of `level`: the windows overlap, and the upper
/// part of `level` is never read.
pub open spec fn reduce(level: Seq<Seq<u8>>) -> Seq<Seq<u8>> {
    Seq::new((level.len() / 2) as nat, |i: int| combine(level[i], level[i + 1]))
}

/// `level` and every level above it, up to the first that holds at most one
/// digest.
pub open spec fn levels_from(level: Seq<Seq<u8>>) -> Seq<Seq<Seq<u8>>>
    decreases level.len(),
{
    if level.len() <= 1 {
        seq![level]
    } else {
        seq![level] + levels_from(reduce(level))
    }
}

/// `levels` with every level above its last one added to it.
pub open spec fn completed(levels: Seq<Seq<Seq<u8>>>) -> Seq<Seq<Seq<u8>>> {
    levels.drop_last() + levels_from(levels.last())
}

/// What a top level stands for: its last digest, or no bytes at all where it
/// holds none.
pub open spec fn top_digest(level: Seq<Seq<u8>>) -> Seq<u8> {
    if level.len() > 0 {
        level.last()
    } else {
        Seq::empty()
    }
}

/// Whether every digest of `level` has the length of a SHA-256 digest.
pub open spec fn digests_sized(level: Seq<Seq<u8>>) -> bool {
    forall|i: int| 0 <= i < level.len() ==> (#[trigger] level[i]).len() == DIGEST_LEN
}

/// A level made of digests is made of digests of the right length.
pub proof fn lemma_leaf_level_sized(blocks: Seq<Seq<u8>>)
    ensures
        digests_sized(leaf_level(blocks)),
{
}

/// So is every level made by reducing another.
pub proof fn lemma_reduce_sized(level: Seq<Seq<u8>>)
    ensures
        digests_sized(reduce(level)),
{
}

/// How the levels hang together: the first is `level` itself, each next one
/// reduces the one before, all but the last hold more than one digest, and
/// the last holds at most one.
pub proof fn lemma_levels_from_chain(level: Seq<Seq<u8>>)
    ensures
        levels_from(level).len() >= 1,
        levels_from(level)[0] == level,
        levels_from(level).last().len() <= 1,
        level.len() >= 1 ==> levels_from(level).last().len() == 1,
        forall|k: int|
            0 <= k < levels_from(level).len() - 1 ==> {
                &&& (#[trigger] levels_from(level)[k]).len() > 1
                &&& levels_from(level)[k + 1] == reduce(levels_from(level)[k])
            },
    decreases level.len(),
{
    if level.len() > 1 {
        let above = levels_from(reduce(level));
        lemma_levels_from_chain(reduce(level));
        assert forall|k: int| 0 <= k < levels_from(level).len() - 1 implies {
            &&& (#[trigger] levels_from(level)[k]).len() > 1
            &&& levels_from(level)[k + 1] == reduce(levels_from(level)[k])
        } by {
            if k > 0 {
                assert(levels_from(level)[k] == above[k - 1]);
                assert(levels_from(level)[k + 1] == above[k]);
            }
        }
    }
}

/// Adding the level above the last one changes nothing of what the completed
/// levels will be, and levels that end in at most one digest are complete.
pub proof fn lemma_completed_step(levels: Seq<Seq<Seq<u8>>>)
    requires
        levels.len() > 0,
    ensures
        levels.last().len() > 1 ==> completed(levels.push(reduce(levels.last()))) == completed(
            levels,
        ),
        levels.last().len() <= 1 ==> completed(levels) == levels,
{
    if levels.last().len() > 1 {
        let longer = levels.push(reduce(levels.last()));
        assert(longer.drop_last() == levels);
        assert(levels == levels.drop_last() + seq![levels.last()]);
    }
}

/// Completing the one level `level` gives `level` and every level above it.
pub proof fn lemma_completed_single(level: Seq<Seq<u8>>)
    ensures
        completed(seq![level]) == levels_from(level),
{
    assert(seq![level].drop_last() =~= Seq::<Seq<Seq<u8>>>::empty());
}

/// The number of levels over `n >= 1` digests is the one `c` with
/// `2^(c-1) <= n < 2^c`; over no digest there is the one empty level.
pub proof fn lemma_levels_from_count(level: Seq<Seq<u8>>)
    ensures
        level.len() == 0 ==> levels_from(level).len() == 1,
        level.len() >= 1 ==> pow2((levels_from(level).len() - 1) as nat) <= level.len() < pow2(
            levels_from(level).len(),
        ),
    decreases level.len(),
{
    lemma2_to64();
    if level.len() > 1 {
        let above = levels_from(reduce(level));
        lemma_levels_from_count(reduce(level));
        assert(levels_from(level).len() == above.len() + 1);
        lemma_pow2_unfold(above.len());
        lemma_pow2_unfold(above.len() + 1);
    }
}

/// The same count as a logarithm: one more than the binary logarithm of the
/// number of digests, rounded down.
pub proof fn lemma_levels_from_count_log(level: Seq<Seq<u8>>)
    ensures
        levels_from(level).len() == log(2, level.len() as int) + 1,
    decreases level.len(),
{
    if level.len() > 1 {
        lemma_levels_from_count_log(reduce(level));
        lemma_log_s(2, level.len() as int);
    } else {
        lemma_log0(2, level.len() as int);
    }
}

/// Level `k` holds the number of digests of level 0 divided by `2^k`,
/// rounded down.
pub proof fn lemma_level_len(level: Seq<Seq<u8>>, k: nat)
    requires
        k < levels_from(level).len(),
    ensures
        levels_from(level)[k as int].len() == level.len() / pow2(k),
    decreases k,
{
    lemma2_to64();
    if k > 0 {
        let half = pow2((k - 1) as nat) as int;
        lemma_level_len(reduce(level), (k - 1) as nat);
        assert(levels_from(level)[k as int] == levels_from(reduce(level))[k - 1]);
        lemma_pow2_pos((k - 1) as nat);
        lemma_pow2_unfold(k);
        lemma_div_denominator(level.len() as int, 2, half);
    } else {
        assert(levels_from(level)[0] == level);
    }
}

/// Where level 0 is made of digests of the right length, every level is.
pub proof fn lemma_levels_from_sized(level: Seq<Seq<u8>>)
    requires
        digests_sized(level),
    ensures
        forall|k: int|
            0 <= k < levels_from(level).len() ==> digests_sized(#[trigger] levels_from(level)[k]),
    decreases level.len(),
{
    if level.len() > 1 {
        let above = levels_from(reduce(level));
        lemma_reduce_sized(level);
        lemma_levels_from_sized(reduce(level));
        assert forall|k: int| 0 <= k < levels_from(level).len() implies digests_sized(
            #[trigger] levels_from(level)[k],
        ) by {
            if k > 0 {
                assert(levels_from(level)[k] == above[k - 1]);
            }
        }
    }
}

} // verus!
