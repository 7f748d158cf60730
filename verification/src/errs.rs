//! Errors of the cache.

use vstd::prelude::*;

verus! {

/// Error of building a cache from an array of entries in which a key occurs
/// more than once.
#[derive(Debug, Default, Copy, Clone, PartialEq, Eq)]
pub struct DuplicateKeysError<K>(
    /// The first duplicate key found
    pub K,
);

} // verus!
