//! The authentication path of a leaf: the sibling digests at each level,
//! and the root that a leaf, its position and its path recompute.

use crate::hash;
use crate::hash::node_hash;
use vstd::prelude::*;

verus! {

/// The end of a path: the leaf itself, which carries no siblings.
#[derive(Clone, Copy, Debug, PartialEq, Eq)]
pub struct Leaf;

/// One level of a path: the three siblings of the node on the way to the
/// leaf, from left to right, and the rest of the path below it.
#[derive(Clone, Debug, PartialEq, Eq)]
pub struct Node<Child> {
    pub siblings: [hash::Hash; 3],
    pub child: Child,
}

/// A path through a tree of depth 8, from the root level down to the leaf.
pub type Path = Node<Node<Node<Node<Node<Node<Node<Node<Leaf>>>>>>>>;

/// The sibling groups of a path from the root level to the leaf level.
pub open spec fn flatten(path: Path) -> Seq<[hash::Hash; 3]> {
    seq![
        path.siblings,
        path.child.siblings,
        path.child.child.siblings,
        path.child.child.child.siblings,
        path.child.child.child.child.siblings,
        path.child.child.child.child.child.siblings,
        path.child.child.child.child.child.child.siblings,
        path.child.child.child.child.child.child.child.siblings,
    ]
}

/// The path whose levels, from the outermost inwards, carry the sibling
/// groups `levels[0]` to `levels[7]`.
pub open spec fn nest(levels: Seq<[hash::Hash; 3]>) -> Path {
    Node {
        siblings: levels[0],
        child: Node {
            siblings: levels[1],
            child: Node {
                siblings: levels[2],
                child: Node {
                    siblings: levels[3],
                    child: Node {
                        siblings: levels[4],
                        child: Node {
                            siblings: levels[5],
                            child: Node {
                                siblings: levels[6],
                                child: Node { siblings: levels[7], child: Leaf },
                            },
                        },
                    },
                },
            },
        },
    }
}

/// Nesting eight sibling groups and flattening the path gives them back,
/// in the same order.
pub proof fn lemma_flatten_nest(levels: Seq<[hash::Hash; 3]>)
    requires
        levels.len() == 8,
    ensures
        flatten(nest(levels)) == levels,
{
    assert(flatten(nest(levels)) =~= levels);
}

/// Flattening a path and nesting its sibling groups gives the path back.
pub proof fn lemma_nest_flatten(path: Path)
    ensures
        flatten(path).len() == 8,
        nest(flatten(path)) == path,
{
    let levels = flatten(path);
    let end = path.child.child.child.child.child.child.child.child;
    assert(end == Leaf);
    assert(levels[7] == path.child.child.child.child.child.child.child.siblings);
    assert(levels[0] == path.siblings);
}

/// The slot, among the four children of its parent, of the node on the
/// way to the leaf.
#[derive(Clone, Copy, Debug, PartialEq, Eq, Structural)]
pub enum WhichWay {
    Leftmost,
    Left,
    Right,
    Rightmost,
}

impl WhichWay {
    /// The number of the slot, counted from the left and from 0.
    pub open spec fn slot(self) -> int {
        match self {
            WhichWay::Leftmost => 0,
            WhichWay::Left => 1,
            WhichWay::Right => 2,
            WhichWay::Rightmost => 3,
        }
    }

    /// The way that the least significant base-4 digit of `index` points.
    pub fn at(index: u64) -> (way: WhichWay)
        ensures
            way.slot() == index % 4,
    {
        let digit: u64 = index % 4;
        if digit == 0 {
            WhichWay::Leftmost
        } else if digit == 1 {
            WhichWay::Left
        } else if digit == 2 {
            WhichWay::Right
        } else {
            WhichWay::Rightmost
        }
    }

    /// The four children of a parent, leftmost first: `item` in this slot
    /// and the three siblings, in their order, in the other slots.
    pub fn insert(self, item: hash::Hash, siblings: [hash::Hash; 3]) -> (children: [hash::Hash; 4])
        ensures
            children@ == siblings@.insert(self.slot(), item),
    {
        let a = siblings[0];
        let b = siblings[1];
        let c = siblings[2];
        let children = match self {
            WhichWay::Leftmost => [item, a, b, c],
            WhichWay::Left => [a, item, b, c],
            WhichWay::Right => [a, b, item, c],
            WhichWay::Rightmost => [a, b, c, item],
        };
        assert(children@ =~= siblings@.insert(self.slot(), item));
        children
    }
}

/// The bytes of each digest of a sibling group.
pub open spec fn digests(siblings: [hash::Hash; 3]) -> Seq<Seq<u8>> {
    seq![siblings[0]@, siblings[1]@, siblings[2]@]
}

/// The bytes of each digest of each sibling group.
pub open spec fn level_digests(levels: Seq<[hash::Hash; 3]>) -> Seq<Seq<Seq<u8>>> {
    Seq::new(levels.len(), |i: int| digests(levels[i]))
}

/// Sibling groups with the same bytes are the same sibling groups.
pub proof fn lemma_level_digests_injective(first: Seq<[hash::Hash; 3]>, second: Seq<[hash::Hash; 3]>)
    requires
        first.len() == second.len(),
        level_digests(first) == level_digests(second),
    ensures
        first == second,
{
    assert forall|i: int| 0 <= i < first.len() implies first[i] == second[i] by {
        let a = first[i];
        let b = second[i];
        assert(digests(a) == level_digests(first)[i]);
        assert(digests(b) == level_digests(second)[i]);
        assert forall|k: int| 0 <= k < 3 implies a[k] == b[k] by {
            assert(digests(a)[k] == a[k]@);
            assert(digests(b)[k] == b[k]@);
            hash::lemma_hash_view_injective(a[k], b[k]);
        }
        assert(a =~= b);
    }
    assert(first =~= second);
}

/// The four children of the parent of `current`, leftmost first, where
/// the least significant base-4 digit of `index` is the slot of `current`
/// and `siblings` fill the other three slots in their order.
pub open spec fn children_of(siblings: Seq<Seq<u8>>, index: nat, current: Seq<u8>) -> Seq<Seq<u8>> {
    siblings.insert((index % 4) as int, current)
}

/// The digest of a node at `height` with the given four children.
pub open spec fn node_digest(height: nat, children: Seq<Seq<u8>>) -> Seq<u8> {
    node_hash(height, children[0], children[1], children[2], children[3])
}

/// The digest reached from `current`, a node at `height`, by climbing
/// through `levels`, the last of which holds the siblings of `current`
/// and the first those just below the top. At each level the least
/// significant base-4 digit of what is left of `index` is the slot of the
/// node on the way; the next level up sees the next digit.
pub open spec fn climb(levels: Seq<Seq<Seq<u8>>>, index: nat, height: nat, current: Seq<u8>) -> Seq<
    u8,
>
    decreases levels.len(),
{
    if levels.len() == 0 {
        current
    } else {
        climb(
            levels.drop_last(),
            index / 4,
            height + 1,
            node_digest(height + 1, children_of(levels.last(), index, current)),
        )
    }
}

/// The root that a leaf at position `index` recomputes with the sibling
/// groups `levels`, given from the root level to the leaf level.
pub open spec fn root_of(levels: Seq<Seq<Seq<u8>>>, index: nat, leaf: Seq<u8>) -> Seq<u8> {
    climb(levels, index, 0, leaf)
}

/// Recomputes the root of a tree of depth 8 from a leaf, its position and
/// the sibling groups on its path, given from the root level to the leaf
/// level. Of `index` only the eight lowest base-4 digits are read.
pub fn root(levels: [&[hash::Hash; 3]; 8], index: u64, leaf: hash::Hash) -> (hash: hash::Hash)
    ensures
        hash@ == root_of(Seq::new(8, |i: int| digests(*levels[i])), index as nat, leaf@),
{
    let ghost all = Seq::new(8, |i: int| digests(*levels[i]));
    let mut current = leaf;
    let mut rest = index;
    let mut height: u8 = 0;
    assert(all.take(8) =~= all);
    while height < 8
        invariant
            height <= 8,
            all == Seq::new(8, |i: int| digests(*levels[i])),
            climb(all.take(8 - height), rest as nat, height as nat, current@) == root_of(
                all,
                index as nat,
                leaf@,
            ),
        decreases 8 - height,
    {
        let level: usize = 7 - height as usize;
        let siblings: [hash::Hash; 3] = *levels[level];
        let children = WhichWay::at(rest).insert(current, siblings);
        proof {
            let below = all.take(8 - height);
            assert(below.last() == digests(siblings));
            assert(below.drop_last() =~= all.take(7 - height));
            let given = children_of(below.last(), rest as nat, current@);
            assert(given =~= seq![children[0]@, children[1]@, children[2]@, children[3]@]);
        }
        height += 1;
        current = hash::Hash::node(height, children[0], children[1], children[2], children[3]);
        rest = rest / 4;
    }
    assert(all.take(0).len() == 0);
    current
}

} // verus!
