//! A model of the trees whose roots proofs are verified against: a digest
//! for every node, of which those above a leaf are the hashes of their
//! children. What a correct witness recomputes, and what a proof that
//! verifies must hold.

use crate::binding::{
    ascents_collide, capacity, lemma_climb_reads_low_digits, lemma_digits_differ,
    lemma_same_index_never_coincides, lemma_same_top, Ascent,
};
use crate::block::inclusion::{lemma_ascent_of_proof, Proof};
use crate::path::{children_of, node_digest};
use vstd::prelude::*;

verus! {

/// A digest for every node of a quaternary tree. A node is named by its
/// height above the leaves and its position among the nodes of that
/// height, counted from the left and from 0; the children of the node at
/// `position` stand at the positions `4 * position` to `4 * position + 3`
/// of the height below.
pub struct Tree {
    pub digest_at: spec_fn(nat, nat) -> Seq<u8>,
}

impl Tree {
    /// The digest of the node at `height` and `position`.
    pub open spec fn digest(self, height: nat, position: nat) -> Seq<u8> {
        (self.digest_at)(height, position)
    }

    /// The digests of the four children of the node at `height`, which is
    /// not 0, and `position`, leftmost first.
    pub open spec fn children(self, height: nat, position: nat) -> Seq<Seq<u8>> {
        let below = (height - 1) as nat;
        seq![
            self.digest(below, 4 * position),
            self.digest(below, 4 * position + 1),
            self.digest(below, 4 * position + 2),
            self.digest(below, 4 * position + 3),
        ]
    }

    /// The digest of the node at `height` and `position` is the hash of
    /// its four children.
    pub open spec fn hashed(self, height: nat, position: nat) -> bool {
        self.digest(height, position) == node_digest(height, self.children(height, position))
    }

    /// Each of the `count` nearest ancestors of the node at `height` and
    /// `position` is the hash of its four children.
    pub open spec fn hashed_above(self, height: nat, position: nat, count: nat) -> bool
        decreases count,
    {
        count > 0 ==> self.hashed(height + 1, position / 4) && self.hashed_above(
            height + 1,
            position / 4,
            (count - 1) as nat,
        )
    }

    /// The digests of the three siblings of the node at `height` and
    /// `position`, from left to right.
    pub open spec fn siblings(self, height: nat, position: nat) -> Seq<Seq<u8>> {
        self.children(height + 1, position / 4).remove((position % 4) as int)
    }

    /// The sibling groups on the way from the node at `height` and
    /// `position` through `count` levels, from the highest level down to
    /// the level of that node.
    pub open spec fn witness(self, height: nat, position: nat, count: nat) -> Seq<Seq<Seq<u8>>>
        decreases count,
    {
        if count == 0 {
            Seq::empty()
        } else {
            self.witness(height + 1, position / 4, (count - 1) as nat).push(
                self.siblings(height, position),
            )
        }
    }

    /// The climb from the node at `height` and `position` through `count`
    /// levels with the tree's own siblings.
    pub open spec fn ascent(self, height: nat, position: nat, count: nat) -> Ascent {
        Ascent {
            levels: self.witness(height, position, count),
            index: position,
            current: self.digest(height, position),
        }
    }

    /// The root of a tree of depth 8.
    pub open spec fn root(self) -> Seq<u8> {
        self.digest(8, 0)
    }
}

/// The position of the ancestor `count` levels above the node at
/// `position`.
pub open spec fn ancestor(position: nat, count: nat) -> nat
    decreases count,
{
    if count == 0 {
        position
    } else {
        ancestor(position / 4, (count - 1) as nat)
    }
}

/// The tree's own siblings come in groups of three, one group for each
/// level.
pub proof fn lemma_witness_shape(tree: Tree, height: nat, position: nat, count: nat)
    ensures
        tree.witness(height, position, count).len() == count,
        tree.ascent(height, position, count).well_formed(),
    decreases count,
{
    if count > 0 {
        lemma_witness_shape(tree, height + 1, position / 4, (count - 1) as nat);
        let levels = tree.witness(height, position, count);
        let above = tree.ascent(height + 1, position / 4, (count - 1) as nat);
        assert forall|i: int| 0 <= i < levels.len() implies (#[trigger] levels[i]).len() == 3 by {
            if i < count - 1 {
                assert(levels[i] == above.levels[i]);
            } else {
                assert(levels[i] == tree.siblings(height, position));
            }
        }
    }
}

/// With the tree's own siblings, the climb from a node whose ancestors
/// are the hashes of their children reaches the digest of its ancestor.
pub proof fn lemma_witness_climbs(tree: Tree, height: nat, position: nat, count: nat)
    requires
        tree.hashed_above(height, position, count),
    ensures
        tree.ascent(height, position, count).top(height) == tree.digest(
            height + count,
            ancestor(position, count),
        ),
    decreases count,
{
    if count > 0 {
        let levels = tree.witness(height, position, count);
        let above = tree.witness(height + 1, position / 4, (count - 1) as nat);
        let family = tree.children(height + 1, position / 4);
        assert(levels.last() == tree.siblings(height, position));
        assert(levels.drop_last() =~= above);
        assert(4 * (position / 4) + position % 4 == position);
        assert(children_of(levels.last(), position, tree.digest(height, position)) =~= family);
        lemma_witness_climbs(tree, height + 1, position / 4, (count - 1) as nat);
    }
}

/// A proof that holds what a tree of depth 8 holds, the digest of the
/// leaf at the position that its index names and the tree's own siblings
/// above that leaf, recomputes the root of the tree, if the ancestors of
/// the leaf are the hashes of their children.
pub proof fn lemma_witness_verifies(tree: Tree, proof: Proof)
    requires
        tree.hashed_above(0, (proof@.index % 65536) as nat, 8),
        proof.ascent().current == tree.digest(0, (proof@.index % 65536) as nat),
        proof.ascent().levels == tree.witness(0, (proof@.index % 65536) as nat, 8),
    ensures
        proof.spec_root() == tree.root(),
{
    let position = (proof@.index % 65536) as nat;
    lemma_witness_climbs(tree, 0, position, 8);
    assert(ancestor(position, 8) == 0) by {
        reveal_with_fuel(ancestor, 9);
    }
    assert(capacity(8) == 65536) by {
        reveal_with_fuel(capacity, 9);
    }
    lemma_digits_differ(proof@.index as nat, position, 8);
    lemma_witness_shape(tree, 0, position, 8);
    lemma_climb_reads_low_digits(
        proof.ascent().levels,
        proof@.index as nat,
        position,
        0,
        proof.ascent().current,
    );
}

/// A proof that recomputes the root of a tree of depth 8 holds what the
/// tree holds, the digest of the leaf at the position that its index
/// names and the tree's own siblings above that leaf, unless the node
/// hash collides at some level on the children that the proof and the
/// tree hash there.
pub proof fn lemma_verified_proof_is_of_the_tree(tree: Tree, proof: Proof)
    requires
        tree.hashed_above(0, (proof@.index % 65536) as nat, 8),
        proof.spec_root() == tree.root(),
    ensures
        (proof.ascent().current == tree.digest(0, (proof@.index % 65536) as nat)
            && proof.ascent().levels == tree.witness(0, (proof@.index % 65536) as nat, 8))
            || ascents_collide(
            Ascent { index: (proof@.index % 65536) as nat, ..proof.ascent() },
            tree.ascent(0, (proof@.index % 65536) as nat, 8),
            0,
        ),
{
    let position = (proof@.index % 65536) as nat;
    let reduced = Ascent { index: position, ..proof.ascent() };
    let own = tree.ascent(0, position, 8);
    lemma_ascent_of_proof(proof);
    lemma_witness_shape(tree, 0, position, 8);
    lemma_witness_climbs(tree, 0, position, 8);
    assert(ancestor(position, 8) == 0) by {
        reveal_with_fuel(ancestor, 9);
    }
    assert(capacity(8) == 65536) by {
        reveal_with_fuel(capacity, 9);
    }
    lemma_digits_differ(proof@.index as nat, position, 8);
    lemma_climb_reads_low_digits(
        proof.ascent().levels,
        proof@.index as nat,
        position,
        0,
        proof.ascent().current,
    );
    assert(reduced.top(0) == own.top(0));
    lemma_same_top(reduced, own, 0);
    lemma_same_index_never_coincides(reduced, own, 0);
}

} // verus!
