//! The mathematical model of the tree: levels of digests, the flat layout in
//! which they are stored, and the root.
//!
//! Pairing policy: at each level, digests are paired left to right; when a
//! level has an odd count, its last digest has no partner and is carried up
//! unchanged to the next level.
//!
//! Empty input: a tree over zero blocks holds exactly one digest, the SHA-256
//! digest of the empty byte string, and that digest is its root.
use crate::hashing::{leaf_hash, pair_hash, sha256_of};
use vstd::prelude::*;

verus! {

/// The byte strings held by a sequence of byte vectors.
pub open spec fn views_of(v: Seq<Vec<u8>>) -> Seq<Seq<u8>> {
    Seq::new(v.len(), |i: int| v[i]@)
}

/// The leaf digests of a block sequence, in input order.
pub open spec fn leaves_of(blocks: Seq<Seq<u8>>) -> Seq<Seq<u8>> {
    Seq::new(blocks.len(), |i: int| leaf_hash(blocks[i]))
}

/// The `i`-th digest of the level above `level`.
pub open spec fn parent_at(level: Seq<Seq<u8>>, i: int) -> Seq<u8> {
    if 2 * i + 1 < level.len() {
        pair_hash(level[2 * i], level[2 * i + 1])
    } else {
        level[2 * i]
    }
}

/// The level above `level`: adjacent pairs hashed left to right, an odd
/// last digest carried up unchanged.
pub open spec fn next_level(level: Seq<Seq<u8>>) -> Seq<Seq<u8>> {
    Seq::new(((level.len() + 1) / 2) as nat, |i: int| parent_at(level, i))
}

/// All levels from `level` up to the root, concatenated bottom-up.
pub open spec fn layout_from(level: Seq<Seq<u8>>) -> Seq<Seq<u8>>
    decreases level.len(),
{
    if level.len() <= 1 {
        level
    } else {
        level + layout_from(next_level(level))
    }
}

/// The single digest that remains after reducing `level`.
pub open spec fn root_of_level(level: Seq<Seq<u8>>) -> Seq<u8>
    decreases level.len(),
{
    if level.len() <= 1 {
        level[0]
    } else {
        root_of_level(next_level(level))
    }
}

/// The root digest that commits to `blocks`.
pub open spec fn merkle_root(blocks: Seq<Seq<u8>>) -> Seq<u8> {
    if blocks.len() == 0 {
        sha256_of(Seq::empty())@
    } else {
        root_of_level(leaves_of(blocks))
    }
}

/// The flat digest sequence of the tree over `blocks`: leaves first, then
/// each level above in turn, ending with the root.
pub open spec fn tree_layout(blocks: Seq<Seq<u8>>) -> Seq<Seq<u8>> {
    if blocks.len() == 0 {
        seq![sha256_of(Seq::empty())@]
    } else {
        layout_from(leaves_of(blocks))
    }
}

/// The last digest of the layout of a non-empty level is its root.
pub proof fn lemma_layout_ends_in_root(level: Seq<Seq<u8>>)
    requires
        level.len() >= 1,
    ensures
        layout_from(level).len() >= 1,
        layout_from(level).last() == root_of_level(level),
    decreases level.len(),
{
    if level.len() > 1 {
        lemma_layout_ends_in_root(next_level(level));
    }
}

/// The last digest of a tree's layout is its root.
pub proof fn lemma_tree_layout_root(blocks: Seq<Seq<u8>>)
    ensures
        tree_layout(blocks).len() >= 1,
        tree_layout(blocks).last() == merkle_root(blocks),
{
    if blocks.len() > 0 {
        lemma_layout_ends_in_root(leaves_of(blocks));
    }
}

} // verus!
