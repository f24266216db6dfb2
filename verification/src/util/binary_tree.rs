use vstd::prelude::*;

verus! {

/// A binary tree whose inner nodes carry a `BranchValue` and whose leaves carry a `LeafValue`.
#[allow(inconsistent_fields)]
pub enum BinaryTree<BranchValue, LeafValue> {
    Branch { value: BranchValue, left: Box<Self>, right: Box<Self> },
    Leaf { value: LeafValue },
    Empty,
}

} // verus!
