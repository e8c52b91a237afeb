//! Proofs that a commitment is a leaf of a block, and their verification
//! against the block's root.

use crate::binding::{
    ascents_coincide, ascents_collide, capacity, lemma_climb_reads_low_digits, lemma_digits_differ,
    lemma_same_index_never_coincides, lemma_same_top, Ascent,
};
use crate::block::Root;
use crate::hash;
use crate::hash::Commitment;
use crate::path;
use crate::path::{Leaf, Node, Path};
use vstd::prelude::*;

verus! {

/// An as yet unverified proof that a commitment is the leaf at some
/// position of a block.
#[derive(Clone, Debug, PartialEq, Eq)]
pub struct Proof {
    commitment: Commitment,
    index: u64,
    path: Path,
}

/// What a proof states: the commitment, its position, and the sibling
/// groups on the way to it, from the root level to the leaf level.
pub struct ProofView {
    pub commitment: Commitment,
    pub index: u64,
    pub auth_path: Seq<[hash::Hash; 3]>,
}

impl View for Proof {
    type V = ProofView;

    closed spec fn view(&self) -> ProofView {
        ProofView {
            commitment: self.commitment,
            index: self.index,
            auth_path: path::flatten(self.path),
        }
    }
}

impl Proof {
    /// The proof that `new` builds from its arguments.
    pub closed spec fn spec_new(commitment: Commitment, index: u64, auth_path: [[hash::Hash; 3]; 8]) -> Proof {
        Proof { commitment, index, path: path::nest(auth_path@) }
    }

    /// The climb that this proof describes: from its commitment, through
    /// its sibling groups, by the digits of its index.
    pub open spec fn ascent(&self) -> Ascent {
        Ascent {
            levels: path::level_digests(self@.auth_path),
            index: self@.index as nat,
            current: self@.commitment@,
        }
    }

    /// The root that this proof recomputes: the one root against which it
    /// verifies.
    pub open spec fn spec_root(&self) -> Seq<u8> {
        path::root_of(path::level_digests(self@.auth_path), self@.index as nat, self@.commitment@)
    }

    /// What `verify` returns for this proof and `root`.
    pub closed spec fn spec_verify(self, root: Root) -> Result<(), VerifyError> {
        if self.spec_root() == root@ {
            Ok(())
        } else {
            Err(VerifyError { root, proof: self })
        }
    }

    /// Construct a new [`Proof`] of inclusion for a given [`Commitment`],
    /// index, and authentication path from root to leaf.
    pub fn new(commitment: Commitment, index: u64, auth_path: [[hash::Hash; 3]; 8]) -> (built: Proof)
        ensures
            built == Proof::spec_new(commitment, index, auth_path),
            built@ == (ProofView { commitment, index, auth_path: auth_path@ }),
    {
        let path = Leaf;
        let path = Node { siblings: auth_path[7], child: path };
        let path = Node { siblings: auth_path[6], child: path };
        let path = Node { siblings: auth_path[5], child: path };
        let path = Node { siblings: auth_path[4], child: path };
        let path = Node { siblings: auth_path[3], child: path };
        let path = Node { siblings: auth_path[2], child: path };
        let path = Node { siblings: auth_path[1], child: path };
        let path = Node { siblings: auth_path[0], child: path };
        proof {
            path::lemma_flatten_nest(auth_path@);
        }
        Proof { commitment, index, path }
    }

    /// Verify a [`Proof`] of inclusion against the [`Root`] of a block.
    ///
    /// # Errors
    ///
    /// Returns [`VerifyError`] if the proof is invalid for that [`Root`]:
    /// if the root that it recomputes is not `root`, byte for byte.
    pub fn verify(self, root: &Root) -> (result: Result<(), VerifyError>)
        ensures
            result == self.spec_verify(*root),
            result is Ok <==> self.spec_root() == root@,
            result matches Err(error) ==> error@.root == *root && error@.proof == self,
    {
        let recomputed = self.root();
        self.check_root(recomputed, root)
    }

    /// The root that this proof recomputes from its commitment, its index
    /// and its authentication path.
    pub fn root(&self) -> (hash: hash::Hash)
        ensures
            hash@ == self.spec_root(),
    {
        let levels = self.auth_path();
        assert(Seq::new(8, |i: int| path::digests(*levels[i])) =~= path::level_digests(
            self@.auth_path,
        ));
        path::root(levels, self.index, self.commitment.0)
    }

    /// Decides a verification from the root that the proof recomputes:
    /// success if `recomputed` is `root`, byte for byte, and otherwise the
    /// error that holds `root` and this proof.
    pub fn check_root(self, recomputed: hash::Hash, root: &Root) -> (result: Result<
        (),
        VerifyError,
    >)
        ensures
            result is Ok <==> recomputed == root.0,
            result matches Err(error) ==> error@.root == *root && error@.proof == self,
            recomputed@ == self.spec_root() ==> result == self.spec_verify(*root),
    {
        proof {
            if recomputed@ == root@ {
                hash::lemma_hash_view_injective(recomputed, root.0);
            }
        }
        if recomputed == root.0 {
            Ok(())
        } else {
            Err(VerifyError { root: *root, proof: self })
        }
    }

    /// Get the commitment whose inclusion is witnessed by the proof.
    pub fn commitment(&self) -> (commitment: Commitment)
        ensures
            commitment == self@.commitment,
    {
        self.commitment
    }

    /// Get the index of the witnessed commitment.
    pub fn index(&self) -> (index: u64)
        ensures
            index == self@.index,
    {
        self.index
    }

    /// Get the authentication path for this proof, order from root to leaf.
    pub fn auth_path(&self) -> (levels: [&[hash::Hash; 3]; 8])
        ensures
            self@.auth_path.len() == 8,
            forall|i: int| 0 <= i < 8 ==> *levels[i] == self@.auth_path[i],
    {
        let path = &self.path;
        let Node { siblings: a, child: path } = path;
        let Node { siblings: b, child: path } = path;
        let Node { siblings: c, child: path } = path;
        let Node { siblings: d, child: path } = path;
        let Node { siblings: e, child: path } = path;
        let Node { siblings: f, child: path } = path;
        let Node { siblings: g, child: path } = path;
        let Node { siblings: h, child: path } = path;
        let Leaf = path;
        [a, b, c, d, e, f, g, h]
    }
}

/// A proof built from a commitment, an index and an authentication path
/// states exactly these: the path read back from it is the path given, in
/// the same order.
pub proof fn lemma_new_keeps_its_arguments(
    commitment: Commitment,
    index: u64,
    auth_path: [[hash::Hash; 3]; 8],
)
    ensures
        Proof::spec_new(commitment, index, auth_path)@ == (ProofView {
            commitment,
            index,
            auth_path: auth_path@,
        }),
{
    path::lemma_flatten_nest(auth_path@);
}

/// A proof has eight sibling groups, and two proofs that state the same
/// are the same proof.
pub proof fn lemma_view_determines_proof(first: Proof, second: Proof)
    ensures
        first@.auth_path.len() == 8,
        first@ == second@ ==> first == second,
{
    path::lemma_nest_flatten(first.path);
    path::lemma_nest_flatten(second.path);
}

/// The climb of a proof goes through eight levels of three siblings, and
/// its top is the root that the proof recomputes.
pub proof fn lemma_ascent_of_proof(proof: Proof)
    ensures
        proof.ascent().levels.len() == 8,
        proof.ascent().well_formed(),
        proof.ascent().top(0) == proof.spec_root(),
{
    lemma_view_determines_proof(proof, proof);
}

/// A verification succeeds exactly when the proof recomputes the claimed
/// root, and a failed one keeps what it was given: the error's root is
/// the claimed root and the error's proof is the proof.
pub proof fn lemma_verification_outcome(proof: Proof, root: Root)
    ensures
        proof.spec_verify(root) is Ok <==> proof.spec_root() == root@,
        proof.spec_verify(root) matches Err(error) ==> error@.root == root && error@.proof
            == proof,
{
}

/// Changing the commitment or any sibling of a proof, and not its index,
/// changes the root that it recomputes, unless the node hash collides at
/// some level on the children that the two proofs hash there.
pub proof fn lemma_changed_proof_changes_root(given: Proof, changed: Proof)
    requires
        given@.index == changed@.index,
        given@ != changed@,
    ensures
        given.spec_root() != changed.spec_root() || ascents_collide(
            given.ascent(),
            changed.ascent(),
            0,
        ),
{
    lemma_ascent_of_proof(given);
    lemma_ascent_of_proof(changed);
    if given.spec_root() == changed.spec_root() {
        lemma_same_top(given.ascent(), changed.ascent(), 0);
        lemma_same_index_never_coincides(given.ascent(), changed.ascent(), 0);
        if !ascents_collide(given.ascent(), changed.ascent(), 0) {
            path::lemma_level_digests_injective(given@.auth_path, changed@.auth_path);
            hash::lemma_hash_view_injective(given@.commitment.0, changed@.commitment.0);
            assert(given@.commitment == changed@.commitment);
            assert(false);
        }
    }
}

/// Of the index a proof reads the eight lowest base-4 digits, its lowest
/// 16 bits: two proofs that differ only above them recompute the same
/// root.
pub proof fn lemma_root_reads_sixteen_bits(first: Proof, second: Proof)
    requires
        first@.commitment == second@.commitment,
        first@.auth_path == second@.auth_path,
        first@.index % 65536 == second@.index % 65536,
    ensures
        first.spec_root() == second.spec_root(),
{
    lemma_ascent_of_proof(first);
    assert(capacity(8) == 65536) by {
        reveal_with_fuel(capacity, 9);
    }
    lemma_digits_differ(first@.index as nat, second@.index as nat, 8);
    lemma_climb_reads_low_digits(
        first.ascent().levels,
        first@.index as nat,
        second@.index as nat,
        0,
        first@.commitment@,
    );
}

/// Changing the lowest 16 bits of the index of a proof, and nothing else,
/// changes the root that it recomputes, unless the node hash collides on
/// the way or, at some level, the node stands in another slot among the
/// same four children.
pub proof fn lemma_moved_proof_changes_root(given: Proof, moved: Proof)
    requires
        given@.commitment == moved@.commitment,
        given@.auth_path == moved@.auth_path,
        given@.index % 65536 != moved@.index % 65536,
    ensures
        given.spec_root() != moved.spec_root() || ascents_collide(
            given.ascent(),
            moved.ascent(),
            0,
        ) || ascents_coincide(given.ascent(), moved.ascent(), 0),
{
    lemma_ascent_of_proof(given);
    lemma_ascent_of_proof(moved);
    assert(capacity(8) == 65536) by {
        reveal_with_fuel(capacity, 9);
    }
    lemma_digits_differ(given@.index as nat, moved@.index as nat, 8);
    if given.spec_root() == moved.spec_root() {
        lemma_same_top(given.ascent(), moved.ascent(), 0);
    }
}

/// A [`Proof`] of inclusion did not verify against the provided root of
/// the block.
#[derive(Clone, Debug, PartialEq, Eq)]
pub struct VerifyError {
    root: Root,
    proof: Proof,
}

/// What a failed verification keeps: the root that was claimed and the
/// proof that did not recompute it.
pub struct VerifyErrorView {
    pub root: Root,
    pub proof: Proof,
}

impl View for VerifyError {
    type V = VerifyErrorView;

    closed spec fn view(&self) -> VerifyErrorView {
        VerifyErrorView { root: self.root, proof: self.proof }
    }
}

impl VerifyError {
    /// Get the root hash against which the proof failed to verify.
    pub fn root(&self) -> (root: Root)
        ensures
            root == self@.root,
    {
        self.root
    }

    /// Extract the original proof from this error.
    pub fn into_proof(self) -> (original: Proof)
        ensures
            original == self@.proof,
    {
        self.proof
    }
}

} // verus!
