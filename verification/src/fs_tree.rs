//! A value-level snapshot of a filesystem subtree: what one walk of the
//! disk observed, with every read failure recorded in place.
//!
//! The indexing algorithm works on this snapshot alone, so its behaviour is
//! a function of plain values; the caller performs the actual disk reads
//! and records their outcomes here.

use vstd::prelude::*;

verus! {

/// The absolute path the filesystem reported for one directory entry.
pub enum FsEntryPath {
    /// A path that is valid UTF-8 text.
    Text { path: String },
    /// A path that is not valid text; the payload renders it lossily.
    NotText { lossy: String },
}

/// One immediate entry of a directory.
pub enum FsChild {
    /// An entry that could be read, with the subtree found under it.
    Entry { path: FsEntryPath, tree: FsTree },
    /// An entry that could not be read.
    Unreadable { cause: String },
}

/// A snapshot of one filesystem node and everything under it.
pub enum FsTree {
    /// A regular file whose bytes were read in full.
    File { content: Vec<u8> },
    /// A regular file whose bytes could not be read.
    FileUnreadable { cause: String },
    /// A directory, with its immediate entries in the order the
    /// filesystem reported them.
    Dir { entries: Vec<FsChild> },
    /// A directory that could not be opened for enumeration.
    DirUnreadable { cause: String },
}

} // verus!
