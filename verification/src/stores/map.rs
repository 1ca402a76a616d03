//! The in-memory store: one record for each key, evicted lazily once its
//! window has passed.

use vstd::hash_map::StringHashMap;
use vstd::prelude::*;
use vstd::string::*;

use crate::rate_limiter::Options;
use crate::stores::clock::{clock_gives, lemma_unix_now_is_a_reading, unix_now};
use crate::stores::{Store, StoreError};
use crate::verdict::{decide, verdict_of, Verdict};

verus! {

/// One counter with its window: `value` requests counted since `unix`, the
/// second at which the window began, in a window of `expiry_s` seconds.
#[derive(Clone, Copy, Debug, PartialEq, Eq, Structural)]
pub struct MapValue {
    /// The number of requests counted in the window.
    pub value: usize,
    /// The length of the window, in seconds.
    pub expiry_s: usize,
    /// The second at which the window began, counted from the Unix epoch.
    pub unix: u64,
}

impl MapValue {
    /// The window is still open at `now`: it closes `expiry_s` seconds after
    /// it began.
    pub open spec fn live_at(self, now: u64) -> bool {
        now < self.unix + self.expiry_s
    }

    /// Whether the window is still open at `now`.
    fn is_live_at(&self, now: u64) -> (live: bool)
        ensures
            live == self.live_at(now),
    {
        (now as u128) < self.unix as u128 + self.expiry_s as u128
    }
}

/// What a store holds: the record of each key.
pub type Counters = Map<Seq<char>, MapValue>;

/// The counter of `key` as a read at `now` sees it: `None` where there is no
/// record or its window has passed.
pub open spec fn count_at(counters: Counters, key: Seq<char>, now: u64) -> Option<usize> {
    if counters.contains_key(key) && counters[key].live_at(now) {
        Some(counters[key].value)
    } else {
        None
    }
}

/// What the store holds after a read of `key` at `now`: a record whose window
/// has passed is evicted, and nothing else changes.
pub open spec fn after_get(counters: Counters, key: Seq<char>, now: u64) -> Counters {
    if counters.contains_key(key) && !counters[key].live_at(now) {
        counters.remove(key)
    } else {
        counters
    }
}

/// What the store holds after `value` is written for `key` at `now`: a record
/// whose window is open keeps its window and takes the value; otherwise a
/// window of `expiry_s` seconds begins at `now`.
pub open spec fn after_set(
    counters: Counters,
    key: Seq<char>,
    value: usize,
    expiry_s: usize,
    now: u64,
) -> Counters {
    if counters.contains_key(key) && counters[key].live_at(now) {
        counters.insert(key, MapValue { value, ..counters[key] })
    } else {
        counters.insert(key, MapValue { value, expiry_s, unix: now })
    }
}

/// One request on the counter `key` under `policy` at the time `now`: the
/// verdict, and what the store holds afterwards. The counter is read (which
/// evicts it if its window has passed); only an admitted request writes its
/// number back.
pub open spec fn step(counters: Counters, key: Seq<char>, policy: Options, now: u64) -> (
    Verdict,
    Counters,
) {
    let verdict = verdict_of(policy, count_at(counters, key, now));
    let read = after_get(counters, key, now);
    match verdict {
        Verdict::Admitted { count } => (verdict, after_set(read, key, count, policy.per_s, now)),
        _ => (verdict, read),
    }
}

/// A store that keeps its counters in memory.
pub struct MapStore {
    hash_map: StringHashMap<MapValue>,
}

impl View for MapStore {
    type V = Counters;

    closed spec fn view(&self) -> Counters {
        self.hash_map@
    }
}

impl MapStore {
    /// An empty store.
    pub fn new() -> (store: Self)
        ensures
            store@ == Counters::empty(),
    {
        Self { hash_map: StringHashMap::new() }
    }

    /// Reads the counter of `key` at the time `now`, and evicts its record if
    /// the window has passed.
    pub fn get_at(&mut self, key: &str, now: u64) -> (count: Option<usize>)
        ensures
            count == count_at(old(self)@, key@, now),
            final(self)@ == after_get(old(self)@, key@, now),
    {
        let record = match self.hash_map.get(key) {
            Some(record) => *record,
            None => { return None; },
        };
        if record.is_live_at(now) {
            Some(record.value)
        } else {
            self.hash_map.remove(key);
            None
        }
    }

    /// Writes `value` as the counter of `key` at the time `now`. A record
    /// whose window is open keeps its window; otherwise a window of
    /// `expiry_s` seconds begins at `now`.
    pub fn set_at(&mut self, key: &str, value: usize, expiry_s: usize, now: u64)
        ensures
            final(self)@ == after_set(old(self)@, key@, value, expiry_s, now),
    {
        let record = match self.hash_map.get(key) {
            Some(already) if already.is_live_at(now) => MapValue { value, ..*already },
            _ => MapValue { value, expiry_s, unix: now },
        };
        self.hash_map.insert(String::from_str(key), record);
    }

    /// Takes one request on the counter `key` under `policy` at the time
    /// `now`: reads the counter, decides, and counts the request if it is
    /// admitted. The store is held for the whole of it, so that no other
    /// request comes between the read and the write.
    pub fn hit_at(&mut self, key: &str, policy: Options, now: u64) -> (verdict: Verdict)
        ensures
            (verdict, final(self)@) == step(old(self)@, key@, policy, now),
    {
        let current = self.get_at(key, now);
        let verdict = decide(policy, current);
        match verdict {
            Verdict::Admitted { count } => {
                self.set_at(key, count, policy.per_s, now);
            },
            _ => {},
        }
        verdict
    }

    /// Takes one request on the counter `key` under `policy` at the second
    /// that the system clock shows, and succeeds whenever it shows one; where
    /// the clock fails, its failure is handed on and the store stays as it was.
    pub fn hit(&mut self, key: &str, policy: Options) -> (r: Result<Verdict, StoreError>)
        ensures
            hit_gives(old(self)@, key@, policy, r, final(self)@),
    {
        let reading = unix_now();
        proof {
            lemma_unix_now_is_a_reading(reading);
        }
        match reading {
            Ok(now) => Ok(self.hit_at(key, policy, now)),
            Err(e) => Err(e),
        }
    }
}

impl Default for MapStore {
    /// An empty store.
    fn default() -> (store: Self)
        ensures
            store@ == Counters::empty(),
    {
        Self::new()
    }
}

impl Store for MapStore {
    type Error = StoreError;

    /// A read sees the store at the time that the system clock shows. The
    /// clock is asked only where the store holds a record of `key`, so the
    /// read of a key without a record cannot fail. A read that fails changes
    /// nothing.
    open spec fn get_gives(
        &self,
        key: Seq<char>,
        answer: Result<Option<usize>, StoreError>,
        after: &Self,
    ) -> bool {
        match answer {
            Ok(count) => exists|now: u64|
                count == count_at(self@, key, now) && after@ == after_get(self@, key, now),
            Err(_) => self@.contains_key(key) && after@ == self@,
        }
    }

    /// A write happens at the second that the system clock shows, and
    /// succeeds whenever the clock shows one: a record whose window is open
    /// at that second keeps its window, and otherwise a window begins at it.
    /// A write that finds the clock failing fails with the failure of the
    /// clock and changes nothing.
    open spec fn set_gives(
        &self,
        key: Seq<char>,
        value: usize,
        expiry_s: usize,
        failure: Option<StoreError>,
        after: &Self,
    ) -> bool {
        write_gives(self@, key, value, expiry_s, failure, after@)
    }

    fn get(&mut self, key: &str) -> (r: Result<Option<usize>, StoreError>) {
        if !self.hash_map.contains_key(key) {
            assert(None::<usize> == count_at(self@, key@, 0) && self@ == after_get(self@, key@, 0));
            return Ok(None);
        }
        match unix_now() {
            Ok(now) => Ok(self.get_at(key, now)),
            Err(e) => Err(e),
        }
    }

    fn set(&mut self, key: &str, value: usize, expiry_s: usize) -> (r: Result<(), StoreError>) {
        let reading = unix_now();
        proof {
            lemma_unix_now_is_a_reading(reading);
        }
        match reading {
            Ok(now) => {
                self.set_at(key, value, expiry_s, now);
                Ok(())
            },
            Err(e) => Err(e),
        }
    }
}

/// Whether a write of `value` for `key` that reads the clock may take the
/// store from `before` to `after`, with `failure` as what it failed with.
/// The clock is read once: where it shows a second, the write happens at that
/// second and succeeds; where it fails, the write fails with the failure of
/// the clock and changes nothing.
pub open spec fn write_gives(
    before: Counters,
    key: Seq<char>,
    value: usize,
    expiry_s: usize,
    failure: Option<StoreError>,
    after: Counters,
) -> bool {
    exists|reading: Result<u64, StoreError>|
        #[trigger] clock_gives(reading) && match reading {
            Ok(now) => failure is None && after == after_set(before, key, value, expiry_s, now),
            Err(e) => failure == Some(e) && after == before,
        }
}

/// Whether one request on the counter `key` under `policy` that reads the
/// clock may end with `answer` and take the store from `before` to `after`.
/// The clock is read once: where it shows a second, the request is taken as
/// `step` takes it at that second; where it fails, the request ends with the
/// failure of the clock and changes nothing.
pub open spec fn hit_gives(
    before: Counters,
    key: Seq<char>,
    policy: Options,
    answer: Result<Verdict, StoreError>,
    after: Counters,
) -> bool {
    exists|reading: Result<u64, StoreError>|
        #[trigger] clock_gives(reading) && match reading {
            Ok(now) => (answer, after) == (
                Ok::<Verdict, StoreError>(step(before, key, policy, now).0),
                step(before, key, policy, now).1,
            ),
            Err(e) => answer == Err::<Verdict, StoreError>(e) && after == before,
        }
}

} // verus!
