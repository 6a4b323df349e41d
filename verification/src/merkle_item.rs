//! The payload of one tree node: its path pair, its digest, and the paths
//! of its immediate children.

use vstd::prelude::*;
use crate::merkle_path::MerklePath;
use crate::merkle_path::PathModel;

verus! {

/// The ghost shape of a [`MerkleItem`].
pub ghost struct ItemModel {
    pub path: PathModel,
    pub hash: Seq<u8>,
    pub children_paths: Seq<PathModel>,
}

/// The views of a list of path pairs.
pub open spec fn paths_of(ps: Seq<MerklePath>) -> Seq<PathModel> {
    Seq::new(ps.len(), |i: int| ps[i]@)
}

/// Holds the path, hash and children paths of a file or directory.
#[derive(Clone, Debug)]
pub struct MerkleItem {
    /// The node's path pair.
    pub path: MerklePath,
    /// The node's digest; its width is fixed by the chosen algorithm.
    pub hash: Vec<u8>,
    /// The path pairs of the node's immediate children, in sorted order: a
    /// convenience duplicate of the children's own paths.
    pub children_paths: Vec<MerklePath>,
}

impl View for MerkleItem {
    type V = ItemModel;

    open spec fn view(&self) -> ItemModel {
        ItemModel {
            path: self.path@,
            hash: self.hash@,
            children_paths: paths_of(self.children_paths@),
        }
    }
}

impl MerkleItem {
    /// Assembles an item from its parts.
    pub fn new(path: MerklePath, hash: Vec<u8>, children_paths: Vec<MerklePath>) -> (r: Self)
        ensures
            r.path == path,
            r.hash == hash,
            r.children_paths == children_paths,
    {
        Self { path, hash, children_paths }
    }
}

} // verus!
