//! What a search is asked to do.

use vstd::prelude::*;

verus! {

/// A search request: the pattern, where to look for it, and how.
#[derive(Debug)]
pub struct Cli {
    /// Lines are matched with regard to case.
    pub sensitive: bool,
    /// The pattern is searched as it is written, not reversed.
    pub english: bool,
    /// The pattern to search for.
    pub pattern: String,
    /// The file or directory to search.
    pub path: String,
}

} // verus!
