//! Digests, commitments, and the hash that combines four children into
//! their parent.

use poseidon377::Fq;
use vstd::prelude::*;

verus! {

/// A digest of 32 bytes, compared byte for byte. Its view is the sequence
/// of its bytes. Where a digest is hashed, its bytes are read as a
/// little-endian integer modulo the order of the scalar field of BLS12-377.
#[derive(Clone, Copy, Debug)]
pub struct Hash(pub [u8; 32]);

impl View for Hash {
    type V = Seq<u8>;

    open spec fn view(&self) -> Seq<u8> {
        self.0@
    }
}

impl PartialEq for Hash {
    /// Byte-exact comparison.
    fn eq(&self, other: &Hash) -> (equal: bool) {
        let mut i: usize = 0;
        while i < 32
            invariant
                i <= 32,
                forall|j: int| 0 <= j < i ==> self.0[j] == other.0[j],
            decreases 32 - i,
        {
            if self.0[i] != other.0[i] {
                return false;
            }
            i += 1;
        }
        assert(self.0 =~= other.0);
        true
    }
}

impl Eq for Hash {

}

impl vstd::std_specs::cmp::PartialEqSpecImpl for Hash {
    open spec fn obeys_eq_spec() -> bool {
        true
    }

    open spec fn eq_spec(&self, other: &Hash) -> bool {
        *self == *other
    }
}

/// The domain separator under which the children of a node at `height`
/// are hashed: the height itself, as a field element in 32 little-endian
/// bytes. Heights count from 1, for the nodes directly above the leaves.
pub open spec fn domain_separator(height: nat) -> Seq<u8> {
    Seq::new(32, |i: int| if i == 0 { (height % 256) as u8 } else { 0u8 })
}

/// The bytes that `poseidon377::hash_4` returns for a domain separator and
/// four inputs, each given as 32 bytes that are read as a little-endian
/// integer and reduced modulo the field order.
pub uninterp spec fn poseidon_hash_4(
    domain: Seq<u8>,
    a: Seq<u8>,
    b: Seq<u8>,
    c: Seq<u8>,
    d: Seq<u8>,
) -> Seq<u8>;

/// The digest of a node at `height` with the children `a`, `b`, `c`, `d`,
/// from left to right.
pub open spec fn node_hash(height: nat, a: Seq<u8>, b: Seq<u8>, c: Seq<u8>, d: Seq<u8>) -> Seq<u8> {
    poseidon_hash_4(domain_separator(height), a, b, c, d)
}

/// Calls `poseidon377::hash_4` on field elements decoded with
/// `Fq::from_le_bytes_mod_order` and encodes the result with `Fq::to_bytes`.
/// Trusted, not proved: that the digest depends on the five byte strings
/// and on nothing else, so that `poseidon_hash_4` can name it.
#[verifier::external_body]
fn hash_4(domain: &[u8; 32], a: &[u8; 32], b: &[u8; 32], c: &[u8; 32], d: &[u8; 32]) -> (digest:
    [u8; 32])
    ensures
        digest@ == poseidon_hash_4(domain@, a@, b@, c@, d@),
{
    let domain = Fq::from_le_bytes_mod_order(domain);
    let value = (
        Fq::from_le_bytes_mod_order(a),
        Fq::from_le_bytes_mod_order(b),
        Fq::from_le_bytes_mod_order(c),
        Fq::from_le_bytes_mod_order(d),
    );
    poseidon377::hash_4(&domain, value).to_bytes()
}

impl Hash {
    /// The digest of a node at `height` from the digests of its four
    /// children, leftmost first.
    pub fn node(height: u8, a: Hash, b: Hash, c: Hash, d: Hash) -> (hash: Hash)
        ensures
            hash@ == node_hash(height as nat, a@, b@, c@, d@),
    {
        let mut domain = [0u8; 32];
        domain[0] = height;
        assert(domain@ =~= domain_separator(height as nat));
        Hash(hash_4(&domain, &a.0, &b.0, &c.0, &d.0))
    }
}

/// Two digests with the same bytes are the same digest.
pub proof fn lemma_hash_view_injective(a: Hash, b: Hash)
    requires
        a@ == b@,
    ensures
        a == b,
{
    assert(a.0 =~= b.0);
}

/// A commitment: the leaf value whose presence in the tree is proved.
#[derive(Clone, Copy, Debug, PartialEq, Eq)]
pub struct Commitment(pub Hash);

impl View for Commitment {
    type V = Seq<u8>;

    open spec fn view(&self) -> Seq<u8> {
        self.0@
    }
}

} // verus!
