//! The root container of an indexed directory tree.

use vstd::prelude::*;
use crate::algorithm::Algorithm;
use crate::merkle_node::MerkleNode;
use crate::merkle_node_into_iter::MerkleNodeIntoIter;
use crate::merkle_node_iter::MerkleNodeIter;
use crate::merkle_node_iter::preorder;
use crate::merkle_tree_builder::MerkleTreeBuilder;

verus! {

/// Represents an indexed directory tree.
pub struct MerkleTree {
    /// The tree's root node, whose relative path is empty.
    pub root: MerkleNode,
}

impl MerkleTree {
    /// Creates a new merkle tree builder.
    ///
    /// - Default hash_names is **false**
    /// - Default algorithm is **blake3**
    pub fn builder(root_absolute_path: &str) -> (r: MerkleTreeBuilder)
        ensures
            r.absolute_root_path@ == root_absolute_path@,
            r.hash_names == false,
            r.algorithm == Algorithm::Blake3,
    {
        MerkleTreeBuilder {
            absolute_root_path: root_absolute_path.to_owned(),
            hash_names: false,
            algorithm: Algorithm::Blake3,
        }
    }

    /// Returns an iterator over each file and directory in the tree, in
    /// depth-first pre-order.
    pub fn iter(&self) -> (r: MerkleNodeIter<'_>)
        ensures
            r.remaining() == preorder(self.root),
    {
        self.root.iter()
    }

    /// Consumes the tree and returns an iterator over every item, in
    /// depth-first pre-order.
    pub fn into_iter(self) -> (r: MerkleNodeIntoIter)
        ensures
            r.remaining() == preorder(self.root),
    {
        self.root.into_iter()
    }
}

} // verus!
