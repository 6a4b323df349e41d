//! Typed failures of the indexing walk.

use vstd::prelude::*;

verus! {

/// The ghost shape of an [`IndexingError`]: the same variants over character
/// sequences, so that contracts can speak of error values.
pub ghost enum ErrorModel {
    PathIsNotValidUtf8 { path: Seq<char> },
    UnableToReadFileName { path: Seq<char> },
    UnableToReadFile { path: Seq<char>, cause: Seq<char> },
    UnableToReadDir { path: Seq<char>, cause: Seq<char> },
    UnableToReadDirEntry { path: Seq<char>, cause: Seq<char> },
    UnableToStripRootPrefix { path: Seq<char>, root: Seq<char>, cause: Seq<char> },
}

/// Types of errors that can occur when recursively indexing a directory for
/// its hashes.  Every variant names the offending path; the variants that
/// stem from a failed read also carry a description of the cause.
#[derive(Debug)]
pub enum IndexingError {
    /// An absolute path holds bytes that cannot be read as UTF-8 text; the
    /// payload is a lossy rendering of it.
    PathIsNotValidUtf8 { path: String },
    /// The final path component could not be resolved (needed only when
    /// names are hashed).
    UnableToReadFileName { path: String },
    /// A file's bytes could not be read.
    UnableToReadFile { path: String, cause: String },
    /// A directory could not be opened for enumeration.
    UnableToReadDir { path: String, cause: String },
    /// One entry within an otherwise open directory could not be read.
    UnableToReadDirEntry { path: String, cause: String },
    /// An entry's absolute path does not lie under the declared root.
    UnableToStripRootPrefix { path: String, root: String, cause: String },
}

impl View for IndexingError {
    type V = ErrorModel;

    open spec fn view(&self) -> ErrorModel {
        match *self {
            IndexingError::PathIsNotValidUtf8 { path } => ErrorModel::PathIsNotValidUtf8 {
                path: path@,
            },
            IndexingError::UnableToReadFileName { path } => ErrorModel::UnableToReadFileName {
                path: path@,
            },
            IndexingError::UnableToReadFile { path, cause } => ErrorModel::UnableToReadFile {
                path: path@,
                cause: cause@,
            },
            IndexingError::UnableToReadDir { path, cause } => ErrorModel::UnableToReadDir {
                path: path@,
                cause: cause@,
            },
            IndexingError::UnableToReadDirEntry { path, cause } => ErrorModel::UnableToReadDirEntry {
                path: path@,
                cause: cause@,
            },
            IndexingError::UnableToStripRootPrefix { path, root, cause } => (
                ErrorModel::UnableToStripRootPrefix { path: path@, root: root@, cause: cause@ }
            ),
        }
    }
}

/// The description that [`IndexingError::message`] renders for an error:
/// its kind, the offending path, and the recorded cause where one exists.
pub open spec fn message_of(e: ErrorModel) -> Seq<char> {
    match e {
        ErrorModel::PathIsNotValidUtf8 { path } => "Path is not valid UTF8 path: "@ + path,
        ErrorModel::UnableToReadFileName { path } => "Unable to read file name: "@ + path,
        ErrorModel::UnableToReadFile { path, cause } => "Unable to read file: "@ + path
            + ", error: "@ + cause,
        ErrorModel::UnableToReadDir { path, cause } => "Unable to read dir: "@ + path
            + ", error: "@ + cause,
        ErrorModel::UnableToReadDirEntry { path, cause } => (
        "Unable to read dir entry in dir: "@ + path + ", error: "@ + cause),
        ErrorModel::UnableToStripRootPrefix { path, root, cause } => (
        "Unable to strip root prefix for path: "@ + path + ", where root: "@ + root + ", error: "@
            + cause),
    }
}

impl IndexingError {
    /// A human-readable description of the error: its kind, the offending
    /// path, and the recorded cause where one exists.
    pub fn message(&self) -> (s: String)
        ensures
            s@ == message_of(self@),
    {
        let mut s = String::new();
        match self {
            IndexingError::PathIsNotValidUtf8 { path } => {
                s.append("Path is not valid UTF8 path: ");
                s.append(path.as_str());
            },
            IndexingError::UnableToReadFileName { path } => {
                s.append("Unable to read file name: ");
                s.append(path.as_str());
            },
            IndexingError::UnableToReadFile { path, cause } => {
                s.append("Unable to read file: ");
                s.append(path.as_str());
                s.append(", error: ");
                s.append(cause.as_str());
            },
            IndexingError::UnableToReadDir { path, cause } => {
                s.append("Unable to read dir: ");
                s.append(path.as_str());
                s.append(", error: ");
                s.append(cause.as_str());
            },
            IndexingError::UnableToReadDirEntry { path, cause } => {
                s.append("Unable to read dir entry in dir: ");
                s.append(path.as_str());
                s.append(", error: ");
                s.append(cause.as_str());
            },
            IndexingError::UnableToStripRootPrefix { path, root, cause } => {
                s.append("Unable to strip root prefix for path: ");
                s.append(path.as_str());
                s.append(", where root: ");
                s.append(root.as_str());
                s.append(", error: ");
                s.append(cause.as_str());
            },
        }
        s
    }
}

} // verus!
