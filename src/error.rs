use vstd::prelude::*;

verus! {

/// Errors of the sync engine.
#[derive(Clone, Copy, Debug, PartialEq, Eq, Structural)]
pub enum WatcherError {
    /// The store and the fetcher were configured with different sources.
    SourceMismatch,
    /// A block URL could not be built from a source URL and a block path.
    UrlParse,
    /// The cursor store failed with something other than a benign duplicate.
    Store,
}

} // verus!
