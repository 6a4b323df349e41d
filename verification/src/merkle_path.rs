//! A pair of paths locating one tree node: the path relative to the
//! indexing root and the absolute filesystem path.

use vstd::prelude::*;
use crate::path_text::lex_le;
use crate::path_text::str_le;

verus! {

/// The ghost shape of a [`MerklePath`]: its two paths as character
/// sequences.
pub ghost struct PathModel {
    pub relative: Seq<char>,
    pub absolute: Seq<char>,
}

/// A utility struct that contains an absolute path and a relative path.
///
/// Ordering and identity are defined by the relative path only; the
/// relative path of the indexing root is empty.
#[derive(Clone, Debug)]
pub struct MerklePath {
    /// The path relative to the indexing root.
    pub relative: String,
    /// The absolute filesystem path.
    pub absolute: String,
}

impl View for MerklePath {
    type V = PathModel;

    open spec fn view(&self) -> PathModel {
        PathModel { relative: self.relative@, absolute: self.absolute@ }
    }
}

impl MerklePath {
    /// Pairs a relative path with its absolute path.
    pub fn new(relative_path: String, absolute_path: String) -> (r: Self)
        ensures
            r@.relative == relative_path@,
            r@.absolute == absolute_path@,
    {
        Self { relative: relative_path, absolute: absolute_path }
    }

    /// An owned copy holding the same two paths.
    pub fn duplicate(&self) -> (r: Self)
        ensures
            r@ == self@,
    {
        Self { relative: self.relative.clone(), absolute: self.absolute.clone() }
    }

    /// Whether this path precedes (or equals) another in the ordering by
    /// relative path.
    pub fn le(&self, other: &MerklePath) -> (r: bool)
        ensures
            r == lex_le(self@.relative, other@.relative),
    {
        str_le(self.relative.as_str(), other.relative.as_str())
    }
}

} // verus!
