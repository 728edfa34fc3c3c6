//! The one way in which a query can fail.

use vstd::prelude::*;

verus! {

/// Why a query on the embedded namespace failed.
#[derive(Debug, PartialEq, Eq)]
pub enum AssetIoError {
    /// Nothing is stored under the path that was asked for; the path is
    /// handed back as it was given.
    NotFound(String),
}

impl AssetIoError {
    /// Whether this is the failure to find exactly `path`.
    pub open spec fn is_not_found(self, path: Seq<char>) -> bool {
        self matches AssetIoError::NotFound(missing) && missing@ == path
    }
}

} // verus!
