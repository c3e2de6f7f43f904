//! The Merkle tree: construction, root retrieval and verification.
use crate::hashing::{hash_concat, hash_data};
use crate::model::{
    layout_from, lemma_tree_layout_root, merkle_root, next_level, leaves_of, tree_layout, views_of,
};
use vstd::prelude::*;

verus! {

/// One input block: an opaque byte string.
pub type Data = Vec<u8>;

/// A digest: the 32 bytes of a SHA-256 output.
pub type Hash = Vec<u8>;

/// A Merkle tree, stored as one flat sequence of digests: the leaf digests in
/// input order, then each level above them from left to right, ending with
/// the root. The root is always the last digest, so its index follows from
/// the length of the sequence.
pub struct MerkleTree {
    hashes: Vec<Hash>,
}

/// Which side a supplied digest takes when it is concatenated with the
/// digest being checked.
#[derive(Debug, Clone, Copy, PartialEq, Eq, Structural)]
pub enum HashDirection {
    Left,
    Right,
}

/// An inclusion path: side-tagged sibling digests, from the leaf up. The
/// structure is declared for later use; nothing builds or checks one yet.
#[derive(Debug, Default)]
pub struct Proof<'a> {
    /// The sibling digests, each with the side on which it is concatenated.
    hashes: Vec<(HashDirection, &'a Hash)>,
}

impl View for MerkleTree {
    type V = Seq<Seq<u8>>;

    /// The flat digest sequence.
    closed spec fn view(&self) -> Seq<Seq<u8>> {
        views_of(self.hashes@)
    }
}

impl MerkleTree {
    /// A tree always holds at least its root.
    #[verifier::type_invariant]
    spec fn holds_root(&self) -> bool {
        self.hashes@.len() >= 1
    }

    /// Constructs a Merkle tree from the given blocks. A level of odd size
    /// carries its last digest up unchanged; zero blocks give a tree whose
    /// only digest, and root, is the SHA-256 digest of the empty string.
    pub fn construct(input: &[Data]) -> (tree: MerkleTree)
        ensures
            tree@ == tree_layout(views_of(input@)),
            tree@.last() == merkle_root(views_of(input@)),
    {
        let ghost blocks = views_of(input@);
        proof {
            lemma_tree_layout_root(blocks);
        }
        let mut hashes: Vec<Hash> = Vec::new();
        let mut k: usize = 0;
        while k < input.len()
            invariant
                k <= input@.len(),
                blocks == views_of(input@),
                views_of(hashes@) == leaves_of(blocks).take(k as int),
            decreases input@.len() - k,
        {
            let ghost old_v = views_of(hashes@);
            let h = hash_data(&input[k]);
            assert(h@ == leaves_of(blocks)[k as int]);
            hashes.push(h);
            assert(views_of(hashes@) =~= old_v.push(h@));
            k += 1;
            assert(views_of(hashes@) =~= leaves_of(blocks).take(k as int));
        }
        assert(views_of(hashes@) =~= leaves_of(blocks));
        if hashes.len() == 0 {
            let empty: Vec<u8> = Vec::new();
            hashes.push(hash_data(&empty));
            assert(views_of(hashes@) =~= tree_layout(blocks));
            return MerkleTree { hashes };
        }
        let mut start: usize = 0;
        let mut children: usize = hashes.len();
        assert(views_of(hashes@).subrange(0, 0) + layout_from(
            views_of(hashes@).subrange(0, children as int),
        ) =~= tree_layout(blocks));
        while children > 1
            invariant
                children >= 1,
                start + children == hashes@.len(),
                views_of(hashes@).subrange(0, start as int) + layout_from(
                    views_of(hashes@).subrange(start as int, hashes@.len() as int),
                ) == tree_layout(blocks),
            decreases children,
        {
            let ghost before = views_of(hashes@);
            let ghost cur = before.subrange(start as int, before.len() as int);
            let len = hashes.len();
            let half: usize = children / 2 + children % 2;
            let mut p: usize = 0;
            while p < half
                invariant
                    children >= 2,
                    start + children == len,
                    half == (children + 1) / 2,
                    p <= half,
                    hashes@.len() == len + p,
                    before.len() == len,
                    cur == before.subrange(start as int, len as int),
                    views_of(hashes@).subrange(0, len as int) == before,
                    views_of(hashes@).subrange(len as int, len + p) == next_level(cur).take(
                        p as int,
                    ),
                decreases half - p,
            {
                let ghost old_v = views_of(hashes@);
                let left = start + 2 * p;
                assert(old_v[left as int] == cur[2 * p]);
                let h = if 2 * p + 1 < children {
                    assert(old_v[left + 1] == cur[2 * p + 1]);
                    hash_concat(&hashes[left], &hashes[left + 1])
                } else {
                    let c = hashes[left].clone();
                    assert(c@ =~= hashes@[left as int]@);
                    c
                };
                hashes.push(h);
                p += 1;
                assert(views_of(hashes@) =~= old_v.push(h@));
                assert(views_of(hashes@).subrange(0, len as int) =~= before);
                assert(views_of(hashes@).subrange(len as int, len + p) =~= next_level(cur).take(
                    p as int,
                ));
            }
            assert(views_of(hashes@).subrange(len as int, hashes@.len() as int) =~= next_level(
                cur,
            ));
            assert(views_of(hashes@).subrange(0, len as int) =~= before.subrange(0, start as int)
                + cur);
            assert(layout_from(cur) == cur + layout_from(next_level(cur)));
            start = len;
            children = half;
        }
        assert(views_of(hashes@).subrange(start as int, hashes@.len() as int).len() == 1);
        assert(views_of(hashes@) =~= views_of(hashes@).subrange(0, start as int)
            + views_of(hashes@).subrange(start as int, hashes@.len() as int));
        MerkleTree { hashes }
    }

    /// The root digest: the last digest of the flat sequence.
    pub fn root_hash(&self) -> (r: Hash)
        ensures
            r@ == self@.last(),
    {
        proof {
            use_type_invariant(self);
        }
        let r = self.hashes[self.hashes.len() - 1].clone();
        assert(r@ =~= self.hashes@[self.hashes@.len() - 1]@);
        r
    }

    /// Verifies that the given blocks produce the given root digest.
    pub fn verify(input: &[Data], root_hash: &Hash) -> (r: bool)
        ensures
            r == (merkle_root(views_of(input@)) == root_hash@),
    {
        let root = Self::construct(input).root_hash();
        bytes_equal(&root, root_hash)
    }
}

/// Byte-for-byte equality of two byte strings.
fn bytes_equal(a: &Vec<u8>, b: &Vec<u8>) -> (r: bool)
    ensures
        r == (a@ == b@),
{
    if a.len() != b.len() {
        return false;
    }
    let mut i: usize = 0;
    while i < a.len()
        invariant
            a@.len() == b@.len(),
            i <= a@.len(),
            a@.subrange(0, i as int) == b@.subrange(0, i as int),
        decreases a@.len() - i,
    {
        if a[i] != b[i] {
            assert(a@[i as int] != b@[i as int]);
            return false;
        }
        assert(a@.subrange(0, i + 1) =~= a@.subrange(0, i as int).push(a@[i as int]));
        assert(b@.subrange(0, i + 1) =~= b@.subrange(0, i as int).push(b@[i as int]));
        i += 1;
    }
    assert(a@ =~= a@.subrange(0, i as int));
    assert(b@ =~= b@.subrange(0, i as int));
    true
}

} // verus!
