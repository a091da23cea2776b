//! Process-wide memoization of the directory: a set-once slot. Concurrent
//! fetches may race to fill it; the first delivered success wins and every
//! later delivery is ignored, so the directory never changes once cached. A
//! failed fetch leaves the slot empty, so the next access tries again.
use crate::directory::Maps;
use vstd::prelude::*;

verus! {

/// A fetch failure, collapsed to its human-readable description.
#[derive(Clone)]
pub struct FetchError {
    pub message: String,
}

/// The slot the directory is cached in for the life of the process. There is
/// no invalidation and no refresh: only an empty slot accepts a value.
pub struct DirectoryCache {
    cached: Option<Maps>,
}

impl DirectoryCache {
    pub closed spec fn cached_dir(&self) -> Option<Maps> {
        self.cached
    }

    pub fn new() -> (r: DirectoryCache)
        ensures
            r.cached_dir() is None,
    {
        DirectoryCache { cached: None }
    }

    /// Returns the cached directory, if any, without any network activity:
    /// every access after a successful fill sees the same directory.
    pub fn get(&self) -> (r: Option<&Maps>)
        ensures
            match r {
                Some(m) => self.cached_dir() == Some(*m),
                None => self.cached_dir() is None,
            },
    {
        self.cached.as_ref()
    }

    /// Delivers the outcome of one directory fetch. A success fills an empty
    /// slot and is silently ignored when another fetch won the race; a
    /// failure is returned to the caller and never touches the slot, so a
    /// later access retries the fetch.
    pub fn install(&mut self, outcome: Result<Maps, FetchError>) -> (r: Result<(), FetchError>)
        ensures
            old(self).cached_dir() is Some ==> final(self).cached_dir() == old(self).cached_dir(),
            outcome is Err ==> final(self).cached_dir() == old(self).cached_dir(),
            outcome is Ok && old(self).cached_dir() is None ==> final(self).cached_dir() == Some(
                outcome->Ok_0,
            ),
            r is Ok <==> outcome is Ok,
            outcome is Err ==> r == Result::<(), FetchError>::Err(outcome->Err_0),
    {
        match outcome {
            Ok(m) => {
                if self.cached.is_none() {
                    self.cached = Some(m);
                }
                Ok(())
            },
            Err(e) => Err(e),
        }
    }
}

} // verus!
