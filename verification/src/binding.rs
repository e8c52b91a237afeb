//! What a recomputed root binds. Two ascents that reach the same digest
//! hashed the same four children at every level, unless the node hash
//! collides on the way or a node changed its slot without changing the
//! children of its parent.

use crate::path::{children_of, climb, node_digest};
use vstd::arithmetic::div_mod::lemma_mod_breakdown;
use vstd::prelude::*;

verus! {

/// The state of a climb towards the root: the sibling groups that are
/// still above the current node, from the top level down to the level of
/// the current node; what is left of the index, whose least significant
/// base-4 digit is the slot of the current node; and the digest of the
/// current node.
pub struct Ascent {
    pub levels: Seq<Seq<Seq<u8>>>,
    pub index: nat,
    pub current: Seq<u8>,
}

impl Ascent {
    /// Every sibling group holds three digests.
    pub open spec fn well_formed(self) -> bool {
        forall|i: int| 0 <= i < self.levels.len() ==> (#[trigger] self.levels[i]).len() == 3
    }

    /// The four children that are hashed next: those of the parent of
    /// the current node.
    pub open spec fn children(self) -> Seq<Seq<u8>> {
        children_of(self.levels.last(), self.index, self.current)
    }

    /// The state after one step up from a current node at `height`.
    pub open spec fn step(self, height: nat) -> Ascent {
        Ascent {
            levels: self.levels.drop_last(),
            index: self.index / 4,
            current: node_digest(height + 1, self.children()),
        }
    }

    /// The digest at the top of the climb from a current node at `height`.
    pub open spec fn top(self, height: nat) -> Seq<u8> {
        climb(self.levels, self.index, height, self.current)
    }
}

/// The node hash collides on `first` and `second`: they are different
/// children with the same digest at `height`. Two groups of children that
/// differ only in how they encode the same field elements collide too.
pub open spec fn collides(height: nat, first: Seq<Seq<u8>>, second: Seq<Seq<u8>>) -> bool {
    first != second && node_digest(height, first) == node_digest(height, second)
}

/// At some level of the two ascents, which start at `height`, the node hash
/// collides on the children that the one and the other hash there.
pub open spec fn ascents_collide(first: Ascent, second: Ascent, height: nat) -> bool
    decreases first.levels.len(),
{
    first.levels.len() > 0 && second.levels.len() > 0 && (collides(
        height + 1,
        first.children(),
        second.children(),
    ) || ascents_collide(first.step(height), second.step(height), height + 1))
}

/// At some level of the two ascents the current nodes stand in different
/// slots and yet their parents have the same four children.
pub open spec fn ascents_coincide(first: Ascent, second: Ascent, height: nat) -> bool
    decreases first.levels.len(),
{
    first.levels.len() > 0 && second.levels.len() > 0 && ((first.index % 4 != second.index % 4
        && first.children() == second.children()) || ascents_coincide(
        first.step(height),
        second.step(height),
        height + 1,
    ))
}

/// Among the `count` least significant base-4 digits of `first` and
/// `second`, two in the same place differ.
pub open spec fn digits_differ(first: nat, second: nat, count: nat) -> bool
    decreases count,
{
    count > 0 && (first % 4 != second % 4 || digits_differ(
        first / 4,
        second / 4,
        (count - 1) as nat,
    ))
}

/// The number of leaves below a node at `height`: 4 to the power `height`.
pub open spec fn capacity(height: nat) -> nat
    decreases height,
{
    if height == 0 {
        1
    } else {
        4 * capacity((height - 1) as nat)
    }
}

/// Two ascents through equally many levels that reach the same digest are
/// the same ascent up to the digits of the index above those levels,
/// unless they collide or coincide somewhere.
pub proof fn lemma_same_top(first: Ascent, second: Ascent, height: nat)
    requires
        first.levels.len() == second.levels.len(),
        first.well_formed(),
        second.well_formed(),
        first.top(height) == second.top(height),
    ensures
        ascents_collide(first, second, height) || ascents_coincide(first, second, height) || (
        first.levels == second.levels && first.current == second.current && !digits_differ(
            first.index,
            second.index,
            first.levels.len(),
        )),
    decreases first.levels.len(),
{
    if first.levels.len() == 0 {
        assert(first.levels =~= second.levels);
    } else {
        let above_first = first.step(height);
        let above_second = second.step(height);
        lemma_same_top(above_first, above_second, height + 1);
        if !ascents_collide(first, second, height) && !ascents_coincide(first, second, height) {
            let x = first.children();
            let y = second.children();
            let slot = (first.index % 4) as int;
            assert(x == y);
            assert(first.index % 4 == second.index % 4);
            assert(first.current == x[slot]);
            assert(second.current == y[slot]);
            assert(first.levels.last() =~= x.remove(slot));
            assert(second.levels.last() =~= y.remove(slot));
            assert(first.levels =~= first.levels.drop_last().push(first.levels.last()));
            assert(second.levels =~= second.levels.drop_last().push(second.levels.last()));
        }
    }
}

/// Ascents that read the same index never coincide: at every level their
/// current nodes stand in the same slot.
pub proof fn lemma_same_index_never_coincides(first: Ascent, second: Ascent, height: nat)
    requires
        first.index == second.index,
    ensures
        !ascents_coincide(first, second, height),
    decreases first.levels.len(),
{
    if first.levels.len() > 0 && second.levels.len() > 0 {
        lemma_same_index_never_coincides(first.step(height), second.step(height), height + 1);
    }
}

/// Two indices differ in one of their `count` lowest base-4 digits if and
/// only if they differ modulo 4 to the power `count`.
pub proof fn lemma_digits_differ(first: nat, second: nat, count: nat)
    ensures
        capacity(count) > 0,
        digits_differ(first, second, count) <==> first % capacity(count) != second % capacity(
            count,
        ),
    decreases count,
{
    if count > 0 {
        let below = (count - 1) as nat;
        lemma_digits_differ(first / 4, second / 4, below);
        lemma_mod_breakdown(first as int, 4, capacity(below) as int);
        lemma_mod_breakdown(second as int, 4, capacity(below) as int);
    }
}

/// A climb reads of the index only as many base-4 digits as there are
/// levels: indices that agree in those digits reach the same digest.
pub proof fn lemma_climb_reads_low_digits(
    levels: Seq<Seq<Seq<u8>>>,
    first: nat,
    second: nat,
    height: nat,
    current: Seq<u8>,
)
    requires
        !digits_differ(first, second, levels.len()),
    ensures
        climb(levels, first, height, current) == climb(levels, second, height, current),
    decreases levels.len(),
{
    if levels.len() > 0 {
        lemma_climb_reads_low_digits(
            levels.drop_last(),
            first / 4,
            second / 4,
            height + 1,
            node_digest(height + 1, children_of(levels.last(), first, current)),
        );
    }
}

} // verus!
