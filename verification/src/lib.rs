//! Content-addressed fingerprints for directory trees.
//!
//! Every file and directory in an indexed tree receives a digest that depends
//! on its contents (and optionally its name); a directory's digest is derived
//! from the digests of its children, combined pairwise in sorted order up to a
//! single root digest.  Comparing one root digest therefore detects a change
//! anywhere in the tree, and traversal enumerates every node's digest for
//! incremental diffing.

pub mod algorithm;
pub mod error;
pub mod fs_tree;
pub mod hex_encoding;
pub mod merkle_item;
pub mod merkle_node;
pub mod merkle_node_into_iter;
pub mod merkle_node_iter;
pub mod merkle_path;
pub mod merkle_tree;
pub mod merkle_tree_builder;
pub mod path_text;

pub use algorithm::Algorithm;
pub use fs_tree::FsChild;
pub use fs_tree::FsEntryPath;
pub use fs_tree::FsTree;
pub use hex_encoding::bytes_to_hex;
pub use hex_encoding::Encodable;
pub use merkle_item::MerkleItem;
pub use merkle_node::MerkleNode;
pub use merkle_node_into_iter::MerkleNodeIntoIter;
pub use merkle_node_iter::MerkleNodeIter;
pub use merkle_path::MerklePath;
pub use merkle_tree::MerkleTree;
pub use merkle_tree_builder::MerkleTreeBuilder;
