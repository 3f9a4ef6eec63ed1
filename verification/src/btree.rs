//! A B-tree node over string keys: the building block of a tree-shaped
//! index for the ordered key space. The store itself keeps its entries in
//! one ordered run; a node created here starts empty.

use vstd::prelude::*;

verus! {

/// One node: its keys with their values, its children, and whether it is
/// a leaf.
pub struct Node {
    pub keys: Vec<String>,
    pub values: Vec<String>,
    pub children: Vec<Node>,
    pub is_leaf: bool,
}

impl Node {
    /// A fresh node with no keys, values or children.
    pub fn new(leaf: bool) -> (n: Node)
        ensures
            n.keys@.len() == 0,
            n.values@.len() == 0,
            n.children@.len() == 0,
            n.is_leaf == leaf,
    {
        Node { keys: Vec::new(), values: Vec::new(), children: Vec::new(), is_leaf: leaf }
    }
}

} // verus!
