//! Failures of the cache and of the backing store behind it.

use std::sync::Arc;
use vstd::prelude::*;

verus! {

/// The store name that the in-memory cache puts into a [`Error::Generic`].
pub const IN_MEMORY_CACHE: &'static str = "InMemoryCache";

/// What lies behind a failure.
#[derive(Debug, Clone)]
pub enum ErrorSource {
    /// A failure of the backing store, kept as its message.
    Backend(String),
    /// A failure that a cache received from a loader and wrapped.
    Wrapped(Arc<Error>),
}

/// A failed cache operation.
#[derive(Debug, Clone)]
pub enum Error {
    /// The object, or the page, does not exist at the backing store.
    NotFound { path: String, source: ErrorSource },
    /// Any other failure, of the store named by `store`.
    Generic { store: &'static str, source: ErrorSource },
}

impl Error {
    /// Whether this failure says that the object is absent.
    pub fn is_not_found(&self) -> (r: bool)
        ensures
            r == (self is NotFound),
    {
        match self {
            Error::NotFound { .. } => true,
            Error::Generic { .. } => false,
        }
    }
}

/// `failure` is what a page load that failed with `cause` is reported as:
/// absence stays absence, now of `location`; anything else becomes a generic
/// failure of the in-memory cache. Either way `cause` is kept as the source.
pub open spec fn is_page_load_failure(failure: Error, location: Seq<char>, cause: Arc<Error>) -> bool {
    match *cause {
        Error::NotFound { .. } => {
            &&& failure matches Error::NotFound { path, source }
            &&& path@ == location
            &&& source == ErrorSource::Wrapped(cause)
        },
        Error::Generic { .. } => {
            &&& failure matches Error::Generic { store, source }
            &&& store@ == IN_MEMORY_CACHE@
            &&& source == ErrorSource::Wrapped(cause)
        },
    }
}

/// `failure` is what a metadata load that failed with `cause` is reported
/// as: absence stays absence and keeps the path that the loader named;
/// anything else becomes a generic failure of the in-memory cache.
pub open spec fn is_head_load_failure(failure: Error, cause: Arc<Error>) -> bool {
    match *cause {
        Error::NotFound { path: missing, .. } => {
            &&& failure matches Error::NotFound { path, source }
            &&& path@ == missing@
            &&& source == ErrorSource::Wrapped(cause)
        },
        Error::Generic { .. } => {
            &&& failure matches Error::Generic { store, source }
            &&& store@ == IN_MEMORY_CACHE@
            &&& source == ErrorSource::Wrapped(cause)
        },
    }
}

/// Reports the failure `cause` of a page loader for `location`.
pub fn page_load_failure(location: &str, cause: Arc<Error>) -> (failure: Error)
    ensures
        is_page_load_failure(failure, location@, cause),
{
    let absent = cause.is_not_found();
    if absent {
        Error::NotFound { path: location.to_owned(), source: ErrorSource::Wrapped(cause) }
    } else {
        Error::Generic { store: IN_MEMORY_CACHE, source: ErrorSource::Wrapped(cause) }
    }
}

/// Reports the failure `cause` of a metadata loader.
pub fn head_load_failure(cause: Arc<Error>) -> (failure: Error)
    ensures
        is_head_load_failure(failure, cause),
{
    let missing = match &*cause {
        Error::NotFound { path, .. } => Some(path.clone()),
        Error::Generic { .. } => None,
    };
    match missing {
        Some(path) => Error::NotFound { path, source: ErrorSource::Wrapped(cause) },
        None => Error::Generic { store: IN_MEMORY_CACHE, source: ErrorSource::Wrapped(cause) },
    }
}

} // verus!
