//! What can go wrong in a search.

use vstd::prelude::*;

verus! {

/// A fault of the installation or of the search itself.
#[derive(Debug, Clone, Copy, PartialEq, Eq, Structural)]
pub enum ScoopFindError {
    /// No candidate for the installation root is a directory.
    ScoopHomeNotFound,
    /// The installation root lacks its buckets directory, or a bucket has
    /// no readable name.
    ScoopBadInstalled,
    /// The lock around the shared results was poisoned.
    PoinsonedMutex,
}

impl ScoopFindError {
    /// The message of each fault.
    pub open spec fn spec_message(self) -> Seq<char> {
        match self {
            ScoopFindError::ScoopHomeNotFound => "scoop home not found"@,
            ScoopFindError::ScoopBadInstalled => "scoop not installed correctly"@,
            ScoopFindError::PoinsonedMutex => "poinsoned mutex"@,
        }
    }

    /// The message of this fault.
    pub fn message(&self) -> (r: String)
        ensures
            r@ == self.spec_message(),
    {
        match self {
            ScoopFindError::ScoopHomeNotFound => "scoop home not found".to_owned(),
            ScoopFindError::ScoopBadInstalled => "scoop not installed correctly".to_owned(),
            ScoopFindError::PoinsonedMutex => "poinsoned mutex".to_owned(),
        }
    }
}

/// A fault in what a search was given to read.
#[derive(Debug)]
pub enum SearchError {
    /// The installation is at fault.
    Scoop(ScoopFindError),
    /// The manifest at position `index` of a bucket's files is no JSON
    /// document.
    Manifest { index: usize, cause: serde_json::Error },
    /// The answer of the rate-limit endpoint is no JSON document.
    RateLimit(serde_json::Error),
    /// The query does not make a pattern.
    Pattern(regex::Error),
    /// The match at position `index` of a listing captured no name.
    NoCapture { index: usize },
}

} // verus!
