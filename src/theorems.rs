//! What holds of every tree: the root is a function of the blocks, a tree
//! verifies against its own root, a single block is its own root's preimage,
//! and a change to the blocks that keeps the root yields a SHA-256 collision.
use crate::hashing::{leaf_hash, sha256_of};
use crate::model::{
    leaves_of, lemma_tree_layout_root, merkle_root, next_level, parent_at, root_of_level,
    tree_layout,
};
use crate::tree::MerkleTree;
use vstd::prelude::*;

verus! {

/// Two distinct byte strings with the same SHA-256 digest exist.
pub open spec fn sha256_collision_exists() -> bool {
    exists|x: Seq<u8>, y: Seq<u8>| x != y && #[trigger] sha256_of(x)@ == #[trigger] sha256_of(y)@
}

/// Every digest of the level is 32 bytes wide.
pub open spec fn all_digests(level: Seq<Seq<u8>>) -> bool {
    forall|i: int| 0 <= i < level.len() ==> (#[trigger] level[i]).len() == 32
}

/// Two trees built from the same blocks are the same tree, with the same root.
pub proof fn construct_is_deterministic(blocks: Seq<Seq<u8>>, a: MerkleTree, b: MerkleTree)
    requires
        a@ == tree_layout(blocks),
        b@ == tree_layout(blocks),
    ensures
        a@ == b@,
        a@.last() == b@.last(),
        a@.last() == merkle_root(blocks),
{
    lemma_tree_layout_root(blocks);
}

/// The root of the tree built from some blocks is the root that `verify`
/// expects of those blocks, so they verify against it.
pub proof fn verify_accepts_own_root(blocks: Seq<Seq<u8>>, tree: MerkleTree)
    requires
        tree@ == tree_layout(blocks),
    ensures
        merkle_root(blocks) == tree@.last(),
{
    lemma_tree_layout_root(blocks);
}

/// The tree over a single block holds only that block's leaf digest, which
/// is then its root.
pub proof fn singleton_root_is_leaf_hash(block: Seq<u8>)
    ensures
        tree_layout(seq![block]) == seq![leaf_hash(block)],
        merkle_root(seq![block]) == leaf_hash(block),
{
    assert(leaves_of(seq![block]) =~= seq![leaf_hash(block)]);
}

/// Equal concatenations whose left parts have equal lengths have equal parts.
proof fn lemma_concat_split(a: Seq<u8>, b: Seq<u8>, c: Seq<u8>, d: Seq<u8>)
    requires
        a + b == c + d,
        a.len() == c.len(),
    ensures
        a == c,
        b == d,
{
    assert(a =~= (a + b).subrange(0, a.len() as int));
    assert(c =~= (c + d).subrange(0, c.len() as int));
    assert(b =~= (a + b).subrange(a.len() as int, (a + b).len() as int));
    assert(d =~= (c + d).subrange(c.len() as int, (c + d).len() as int));
}

/// Without a SHA-256 collision, two levels of the same size with the same
/// root are equal.
proof fn lemma_root_determines_level(l1: Seq<Seq<u8>>, l2: Seq<Seq<u8>>)
    requires
        l1.len() == l2.len(),
        l1.len() >= 1,
        all_digests(l1),
        all_digests(l2),
        root_of_level(l1) == root_of_level(l2),
        !sha256_collision_exists(),
    ensures
        l1 == l2,
    decreases l1.len(),
{
    if l1.len() <= 1 {
        assert(l1 =~= l2);
    } else {
        let n1 = next_level(l1);
        let n2 = next_level(l2);
        assert forall|i: int| 0 <= i < n1.len() implies (#[trigger] n1[i]).len() == 32 by {
            if 2 * i + 1 < l1.len() {
                assert(sha256_of(l1[2 * i] + l1[2 * i + 1])@.len() == 32);
            }
        }
        assert forall|i: int| 0 <= i < n2.len() implies (#[trigger] n2[i]).len() == 32 by {
            if 2 * i + 1 < l2.len() {
                assert(sha256_of(l2[2 * i] + l2[2 * i + 1])@.len() == 32);
            }
        }
        lemma_root_determines_level(n1, n2);
        assert forall|j: int| 0 <= j < l1.len() implies l1[j] == l2[j] by {
            let i = j / 2;
            assert(n1[i] == n2[i]);
            assert(parent_at(l1, i) == parent_at(l2, i));
            if 2 * i + 1 < l1.len() {
                let x = l1[2 * i] + l1[2 * i + 1];
                let y = l2[2 * i] + l2[2 * i + 1];
                assert(sha256_of(x)@ == sha256_of(y)@);
                assert(x == y);
                lemma_concat_split(l1[2 * i], l1[2 * i + 1], l2[2 * i], l2[2 * i + 1]);
            }
        }
        assert(l1 =~= l2);
    }
}

/// Two block sequences of the same length that differ, in the content or the
/// order of their blocks, have different roots unless SHA-256 has a
/// collision. The lengths must match: a single block made of the leaf
/// digests of two blocks, one after the other, has the root of those two.
pub proof fn tampering_changes_root(original: Seq<Seq<u8>>, modified: Seq<Seq<u8>>)
    requires
        original.len() == modified.len(),
        original != modified,
    ensures
        merkle_root(original) != merkle_root(modified) || sha256_collision_exists(),
{
    if merkle_root(original) == merkle_root(modified) && !sha256_collision_exists() {
        let l1 = leaves_of(original);
        let l2 = leaves_of(modified);
        if original.len() == 0 {
            assert(original =~= modified);
        }
        assert forall|i: int| 0 <= i < l1.len() implies (#[trigger] l1[i]).len() == 32 by {
            assert(sha256_of(original[i])@.len() == 32);
        }
        assert forall|i: int| 0 <= i < l2.len() implies (#[trigger] l2[i]).len() == 32 by {
            assert(sha256_of(modified[i])@.len() == 32);
        }
        lemma_root_determines_level(l1, l2);
        assert forall|i: int| 0 <= i < original.len() implies original[i] == modified[i] by {
            assert(l1[i] == l2[i]);
            assert(sha256_of(original[i])@ == sha256_of(modified[i])@);
        }
        assert(original =~= modified);
    }
}

/// Swapping two different blocks changes the root unless SHA-256 has a
/// collision.
pub proof fn swapping_blocks_changes_root(blocks: Seq<Seq<u8>>, i: int, j: int)
    requires
        0 <= i < blocks.len(),
        0 <= j < blocks.len(),
        blocks[i] != blocks[j],
    ensures
        merkle_root(blocks.update(i, blocks[j]).update(j, blocks[i])) != merkle_root(blocks)
            || sha256_collision_exists(),
{
    let swapped = blocks.update(i, blocks[j]).update(j, blocks[i]);
    assert(swapped[j] != blocks[j]);
    tampering_changes_root(blocks, swapped);
}

/// Changing one byte of one block changes the root unless SHA-256 has a
/// collision.
pub proof fn changing_a_byte_changes_root(blocks: Seq<Seq<u8>>, i: int, k: int, byte: u8)
    requires
        0 <= i < blocks.len(),
        0 <= k < blocks[i].len(),
        blocks[i][k] != byte,
    ensures
        merkle_root(blocks.update(i, blocks[i].update(k, byte))) != merkle_root(blocks)
            || sha256_collision_exists(),
{
    let changed = blocks.update(i, blocks[i].update(k, byte));
    assert(changed[i][k] != blocks[i][k]);
    tampering_changes_root(blocks, changed);
}

} // verus!
