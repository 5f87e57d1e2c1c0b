use vstd::prelude::*;

use crate::error::WatcherError;
use crate::watcher::{FetchRequest, Watcher};

verus! {

/// The text of `path` resolved against the base URL `base`, or `None` when
/// the URL parser refuses either of them.
pub uninterp spec fn joined_url(base: Seq<char>, path: Seq<char>) -> Option<Seq<char>>;

/// Relies on url::Url::parse to read the base URL, url::Url::join to resolve
/// the path against it, and url::Url::as_str for the resulting text; the
/// result depends on the two strings alone.
#[verifier::external_body]
fn join_url(base: &str, path: &str) -> (r: Option<String>)
    ensures
        r is Some <==> joined_url(base@, path@) is Some,
        r matches Some(s) ==> joined_url(base@, path@) == Some(s@),
{
    match url::Url::parse(base) {
        Ok(u) => match u.join(path) {
            Ok(j) => Some(j.as_str().to_string()),
            Err(_) => None,
        },
        Err(_) => None,
    }
}

impl Watcher {
    /// The URL to fetch for a request: the block's path resolved against the
    /// base URL of the request's source. A base URL or a path that the URL
    /// parser refuses gives `UrlParse`.
    pub fn block_url(&self, req: &FetchRequest, block_path: &str) -> (r: Result<
        String,
        WatcherError,
    >)
        requires
            req.source < self.source_urls.len(),
        ensures
            r is Ok <==> joined_url(self.source_urls@[req.source as int]@, block_path@) is Some,
            r matches Ok(u) ==> joined_url(self.source_urls@[req.source as int]@, block_path@)
                == Some(u@),
            r is Err ==> r matches Err(WatcherError::UrlParse),
    {
        match join_url(self.source_urls[req.source].as_str(), block_path) {
            Some(u) => Ok(u),
            None => Err(WatcherError::UrlParse),
        }
    }
}

} // verus!
