//! Counter stores: where the limiter keeps the number of requests that each
//! key has made in its current window.

use vstd::prelude::*;

pub mod clock;
pub mod map;

verus! {

/// Why a store could not answer.
#[derive(Clone, Copy, Debug, PartialEq, Eq)]
pub enum StoreError {
    /// The system clock reads a time before the Unix epoch.
    Clock,
}

/// What a write failed with, if it failed.
pub open spec fn failure_of<E>(r: Result<(), E>) -> Option<E> {
    match r {
        Ok(_) => None,
        Err(e) => Some(e),
    }
}

/// A place that keeps one counter for each key, each with a time to live.
///
/// What a store answers may depend on more than the store itself (the time,
/// a server at the other end of a connection), so each operation is described
/// by the outcomes that it may have: the answer, together with the store as
/// the call leaves it.
pub trait Store {
    /// Why the store could not answer.
    type Error: core::fmt::Debug;

    /// Whether `get` for `key` may give `answer` and leave the store `self`
    /// as `after`. A store that says nothing of itself may give any answer.
    open spec fn get_gives(
        &self,
        key: Seq<char>,
        answer: Result<Option<usize>, Self::Error>,
        after: &Self,
    ) -> bool {
        true
    }

    /// Whether `set` of `value` for `key`, with a window of `expiry_s`
    /// seconds, may leave the store `self` as `after`: with success where
    /// `failure` is `None`, and else with the failure that it holds. A store
    /// that says nothing of itself may end in any way.
    open spec fn set_gives(
        &self,
        key: Seq<char>,
        value: usize,
        expiry_s: usize,
        failure: Option<Self::Error>,
        after: &Self,
    ) -> bool {
        true
    }

    /// The counter of `key`, or `None` where the store holds none or the one
    /// it holds has expired.
    fn get(&mut self, key: &str) -> (r: Result<Option<usize>, Self::Error>)
        ensures
            old(self).get_gives(key@, r, final(self)),
    ;

    /// Writes `value` as the counter of `key`. A counter that is still alive
    /// keeps the window that it was first written with; otherwise a window of
    /// `expiry_s` seconds begins now.
    fn set(&mut self, key: &str, value: usize, expiry_s: usize) -> (r: Result<(), Self::Error>)
        ensures
            old(self).set_gives(key@, value, expiry_s, failure_of(r), final(self)),
    ;
}

} // verus!
