//! The builder that collects a root path and configuration before
//! indexing a snapshot into a tree.

use vstd::prelude::*;
use crate::algorithm::Algorithm;
use crate::error::ErrorModel;
use crate::error::IndexingError;
use crate::fs_tree::FsTree;
use crate::merkle_node::MerkleNode;
use crate::merkle_node::node_matches;
use crate::merkle_node::node_outcome;
use crate::merkle_tree::MerkleTree;

verus! {

/// Utility builder pattern.
pub struct MerkleTreeBuilder {
    /// Absolute root path of the tree.
    pub absolute_root_path: String,
    /// Whether to include names in the hashes of files and directories,
    /// default is false.
    pub hash_names: bool,
    /// Which hashing algorithm to use, default is blake3.
    pub algorithm: Algorithm,
}

impl MerkleTreeBuilder {
    /// Sets whether to include the names of the files and directories in
    /// the hashing process, default is **false**.
    pub fn hash_names(self, hash_names: bool) -> (r: Self)
        ensures
            r.absolute_root_path == self.absolute_root_path,
            r.hash_names == hash_names,
            r.algorithm == self.algorithm,
    {
        Self {
            absolute_root_path: self.absolute_root_path,
            hash_names: hash_names,
            algorithm: self.algorithm,
        }
    }

    /// Sets the hashing algorithm to use, default is **blake3**.
    pub fn algorithm(self, algorithm: Algorithm) -> (r: Self)
        ensures
            r.absolute_root_path == self.absolute_root_path,
            r.hash_names == self.hash_names,
            r.algorithm == algorithm,
    {
        Self {
            absolute_root_path: self.absolute_root_path,
            hash_names: self.hash_names,
            algorithm: algorithm,
        }
    }

    /// Builds the hash tree by indexing every descendant the snapshot
    /// holds under the configured root.
    pub fn build(self, fs: &FsTree) -> (r: Result<MerkleTree, IndexingError>)
        ensures
            match r {
                Ok(t) => node_outcome(
                    self.absolute_root_path@,
                    self.absolute_root_path@,
                    self.hash_names,
                    self.algorithm,
                    *fs,
                ) is Ok && node_matches(
                    t.root,
                    self.absolute_root_path@,
                    Seq::<char>::empty(),
                    self.absolute_root_path@,
                    self.hash_names,
                    self.algorithm,
                    *fs,
                ),
                Err(e) => node_outcome(
                    self.absolute_root_path@,
                    self.absolute_root_path@,
                    self.hash_names,
                    self.algorithm,
                    *fs,
                ) == Err::<Seq<u8>, ErrorModel>(e@),
            },
    {
        match MerkleNode::root(self.absolute_root_path.as_str(), self.hash_names, self.algorithm, fs) {
            Ok(root) => Ok(MerkleTree { root }),
            Err(e) => Err(e),
        }
    }
}

} // verus!
