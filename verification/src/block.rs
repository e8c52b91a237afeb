//! One block of the tree: a quaternary tree of depth 8 over commitments.

use crate::hash;
use vstd::prelude::*;

pub mod inclusion;

verus! {

/// The root of a block: the digest that summarises all of its leaves.
#[derive(Clone, Copy, Debug, PartialEq, Eq)]
pub struct Root(pub hash::Hash);

impl View for Root {
    type V = Seq<u8>;

    open spec fn view(&self) -> Seq<u8> {
        self.0@
    }
}

} // verus!
