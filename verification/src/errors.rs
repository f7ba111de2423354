//! Error taxonomy for tracking dispatch, caching and URL-list management.

use vstd::prelude::*;

verus! {

/// Failure of one URL-list operation.
#[derive(Debug, Clone, PartialEq, Eq)]
pub enum UrlError {
    /// The URL is already present in the list.
    AlreadyInFile(String),
    /// No URL in the list matches the pattern.
    NotFound(String),
    /// More than one URL in the list matches the query.
    MultipleMatches(String),
}

/// Failure of one dispatch, cache or settings operation.
#[derive(Debug, Clone, PartialEq, Eq)]
pub enum Error {
    /// No registered handler recognizes the URL.
    NoHandlerFound(String),
    /// The URL does not contain the identifiers the handler requires; the
    /// second field names the missing identifier.
    UrlParseFailed(String, String),
    /// The outbound request failed, with the HTTP status if one was received.
    FetchFailed(Option<u16>),
    /// The response body could not be parsed.
    ParseFailed(String),
    /// A required field was absent from an otherwise well-formed body.
    MissingField(String),
    /// Reading or writing the cache file failed.
    CacheIoFailed(String),
    /// A shared lock was poisoned.
    LockPoisoned,
    /// A URL-list operation failed.
    Url(UrlError),
    /// An invalid settings key or value was supplied.
    InvalidSetting(String),
}

impl Error {
    /// The fetch failed with an HTTP client error (status 4xx).
    pub open spec fn spec_is_client_error(self) -> bool {
        match self {
            Error::FetchFailed(Some(status)) => 400 <= status < 500,
            _ => false,
        }
    }

    /// Does this error report an HTTP client error (status 4xx)?
    pub fn is_client_error(&self) -> (r: bool)
        ensures
            r == self.spec_is_client_error(),
    {
        match self {
            Error::FetchFailed(Some(status)) => 400 <= *status && *status < 500,
            _ => false,
        }
    }
}

} // verus!
