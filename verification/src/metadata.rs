//! What the namespace knows of an entry besides its contents.

use vstd::prelude::*;

verus! {

/// The two kinds of entry in the namespace.
#[derive(Clone, Copy, Debug, PartialEq, Eq, Hash)]
pub enum FileType {
    /// A path under which files are listed.
    Directory,
    /// A path under which bytes are stored.
    File,
}

/// The description of one entry.
#[derive(Clone, Copy, Debug, PartialEq, Eq)]
pub struct Metadata {
    /// The kind of the entry.
    pub file_type: FileType,
}

} // verus!
