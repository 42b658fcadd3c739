//! What a file-system walk of the repository found, as plain values.
use vstd::prelude::*;

verus! {

/// An entry that a directory walk reached (links are not followed).
#[derive(Debug, Clone)]
pub struct TreeEntry {
    /// The entry's path: its components relative to the repository root.
    pub path: Vec<String>,
    /// A regular file.
    pub is_file: bool,
    /// A directory.
    pub is_dir: bool,
    /// A symbolic link.
    pub is_symlink: bool,
}

/// One step of a directory walk: an entry, or an error the walk reported.
#[derive(Debug, Clone)]
pub enum WalkStep {
    Entry(TreeEntry),
    Failed {
        /// The error's message.
        message: String,
        /// The path the error concerns, relative to the repository root.
        path: Option<Vec<String>>,
    },
}

/// What `symlink_metadata` reports of a path.
#[derive(Debug, Clone)]
pub struct FileMeta {
    /// The size in bytes.
    pub len: u64,
    pub is_file: bool,
    pub is_dir: bool,
    pub is_symlink: bool,
}

} // verus!
