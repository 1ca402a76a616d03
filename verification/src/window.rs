//! Fixed-window counting: what holds of one counter over the requests that
//! fall on it.

use vstd::prelude::*;

use crate::limiter::{check_gives, lemma_labels_count_apart, settles};
use crate::rate_limiter::{Options, RateLimiter};
use crate::stores::map::{after_get, after_set, count_at, step, Counters, MapStore, MapValue};
use crate::stores::Store;
use crate::verdict::{verdict_of, Verdict};

verus! {

/// The number of requests that a request at `now` finds counted before it.
pub open spec fn seen_at(counters: Counters, key: Seq<char>, now: u64) -> int {
    match count_at(counters, key, now) {
        Some(seen) => seen as int,
        None => 0,
    }
}

/// The verdict on the request that finds `seen` requests counted before it.
pub open spec fn verdict_after(policy: Options, seen: int) -> Verdict {
    if seen < policy.max {
        Verdict::Admitted { count: (seen + 1) as usize }
    } else {
        Verdict::RateLimitExceeded { retry_after: policy.per_s }
    }
}

/// The verdicts on the requests that are made one after another at `times`,
/// all on the counter `key` under `policy`.
pub open spec fn verdicts(
    counters: Counters,
    key: Seq<char>,
    policy: Options,
    times: Seq<u64>,
) -> Seq<Verdict>
    decreases times.len(),
{
    if times.len() == 0 {
        Seq::empty()
    } else {
        let (verdict, next) = step(counters, key, policy, times[0]);
        seq![verdict] + verdicts(next, key, policy, times.drop_first())
    }
}

/// A request goes on whenever fewer than `policy.max` requests were counted
/// in its window before it, and it is then counted itself.
pub proof fn lemma_room_admits(counters: Counters, key: Seq<char>, policy: Options, now: u64)
    requires
        seen_at(counters, key, now) < policy.max,
    ensures
        step(counters, key, policy, now).0 == (Verdict::Admitted {
            count: (seen_at(counters, key, now) + 1) as usize,
        }),
        step(counters, key, policy, now).1.contains_key(key),
        step(counters, key, policy, now).1[key].value == seen_at(counters, key, now) + 1,
{
}

/// A request that finds `policy.max` requests or more counted in its window
/// is turned away with the length of the window as its hint. Nothing is
/// written for it: the store is as the read of the counter left it.
pub proof fn lemma_full_window_rejects(
    counters: Counters,
    key: Seq<char>,
    policy: Options,
    now: u64,
)
    requires
        seen_at(counters, key, now) >= policy.max,
    ensures
        step(counters, key, policy, now) == (
            Verdict::RateLimitExceeded { retry_after: policy.per_s },
            after_get(counters, key, now),
        ),
        count_at(step(counters, key, policy, now).1, key, now) == count_at(counters, key, now),
{
}

/// One request on the counter `key` whose read and write see different
/// times: the counter is read at `read_at`, and an admitted request is
/// written back at `written_at`.
pub open spec fn step_between(
    counters: Counters,
    key: Seq<char>,
    policy: Options,
    read_at: u64,
    written_at: u64,
) -> (Verdict, Counters) {
    let verdict = verdict_of(policy, count_at(counters, key, read_at));
    let read = after_get(counters, key, read_at);
    match verdict {
        Verdict::Admitted { count } => (
            verdict,
            after_set(read, key, count, policy.per_s, written_at),
        ),
        _ => (verdict, read),
    }
}

/// What the limiter does on the in-memory store through `get` and `set`,
/// each of which asks the clock for itself: the request is taken as
/// `step_between` takes it at the two readings of the clock, and so as `step`
/// takes it where both readings show the same second.
pub proof fn lemma_check_on_map_store(
    before: &MapStore,
    key: Seq<char>,
    policy: Options,
    verdict: Verdict,
    after: &MapStore,
)
    requires
        check_gives(before, key, policy, Ok(verdict), after),
    ensures
        exists|read_at: u64, written_at: u64|
            (verdict, after@) == #[trigger] step_between(
                before@,
                key,
                policy,
                read_at,
                written_at,
            ),
        forall|now: u64| step_between(before@, key, policy, now, now) == step(
            before@,
            key,
            policy,
            now,
        ),
{
    let (current, read) = choose|current: Option<usize>, read: MapStore|
        {
            &&& #[trigger] before.get_gives(key, Ok(current), &read)
            &&& settles(&read, key, policy, current, Ok(verdict), after)
        };
    let read_at = choose|now: u64|
        current == count_at(before@, key, now) && read@ == after_get(before@, key, now);
    match verdict {
        Verdict::Admitted { count } => {
            let written_at = choose|now: u64|
                after@ == after_set(read@, key, count, policy.per_s, now);
            assert((verdict, after@) == step_between(before@, key, policy, read_at, written_at));
        },
        _ => {
            assert((verdict, after@) == step_between(before@, key, policy, read_at, read_at));
        },
    }
}

/// A request changes nothing but the record of its own counter.
pub proof fn lemma_step_touches_one_key(
    counters: Counters,
    key: Seq<char>,
    policy: Options,
    now: u64,
    other: Seq<char>,
)
    requires
        other != key,
    ensures
        step(counters, key, policy, now).1.contains_key(other) == counters.contains_key(other),
        step(counters, key, policy, now).1[other] == counters[other],
        forall|at: u64|
            count_at(step(counters, key, policy, now).1, other, at) == count_at(
                counters,
                other,
                at,
            ),
{
}

/// Each route keeps a count of its own for each identity: a request for one
/// path leaves the counter of the same identity on a path that goes under
/// another label as it was.
pub proof fn lemma_routes_count_apart<S>(
    limiter: RateLimiter<S>,
    counters: Counters,
    identity: Seq<char>,
    path: Seq<char>,
    other_path: Seq<char>,
    now: u64,
)
    requires
        limiter.route_of(path).0 != limiter.route_of(other_path).0,
    ensures
        limiter.key_of(identity, path) != limiter.key_of(identity, other_path),
        forall|at: u64|
            count_at(
                step(counters, limiter.key_of(identity, path), limiter.policy_of(path), now).1,
                limiter.key_of(identity, other_path),
                at,
            ) == count_at(counters, limiter.key_of(identity, other_path), at),
{
    lemma_labels_count_apart(identity, limiter.route_of(path).0, limiter.route_of(other_path).0);
    lemma_step_touches_one_key(
        counters,
        limiter.key_of(identity, path),
        limiter.policy_of(path),
        now,
        limiter.key_of(identity, other_path),
    );
}

/// While its window is open a record keeps the window that it was first
/// written with, and its value never falls: a request that goes on adds one,
/// and one that is turned away leaves it.
pub proof fn lemma_window_does_not_slide(
    counters: Counters,
    key: Seq<char>,
    policy: Options,
    now: u64,
)
    requires
        counters.contains_key(key),
        counters[key].live_at(now),
    ensures
        step(counters, key, policy, now).1.contains_key(key),
        step(counters, key, policy, now).1[key].unix == counters[key].unix,
        step(counters, key, policy, now).1[key].expiry_s == counters[key].expiry_s,
        step(counters, key, policy, now).0 is Admitted ==> step(
            counters,
            key,
            policy,
            now,
        ).1[key].value == counters[key].value + 1,
        !(step(counters, key, policy, now).0 is Admitted) ==> step(
            counters,
            key,
            policy,
            now,
        ).1[key].value == counters[key].value,
{
}

/// The limiter never writes a count above `policy.max`: a record that is
/// within the policy stays within it.
pub proof fn lemma_count_stays_within_policy(
    counters: Counters,
    key: Seq<char>,
    policy: Options,
    now: u64,
)
    requires
        counters.contains_key(key) ==> counters[key].value <= policy.max,
    ensures
        step(counters, key, policy, now).1.contains_key(key) ==> step(
            counters,
            key,
            policy,
            now,
        ).1[key].value <= policy.max,
{
}

/// Once the window of a record has passed, the next request is the first of
/// a new window: it is taken as if the store held no record of the key, and
/// where the policy lets any request through, it is admitted as number one
/// of a window that begins at `now`.
pub proof fn lemma_fresh_window_after_expiry(
    counters: Counters,
    key: Seq<char>,
    policy: Options,
    now: u64,
)
    requires
        counters.contains_key(key),
        !counters[key].live_at(now),
    ensures
        step(counters, key, policy, now) == step(counters.remove(key), key, policy, now),
        policy.max > 0 ==> step(counters, key, policy, now) == (
            Verdict::Admitted { count: 1 },
            counters.insert(key, MapValue { value: 1, expiry_s: policy.per_s, unix: now }),
        ),
        policy.max == 0 ==> step(counters, key, policy, now) == (
            Verdict::RateLimitExceeded { retry_after: policy.per_s },
            counters.remove(key),
        ),
{
}

/// Over requests that all fall into the open window of one record, the
/// count goes up by one with each request until it reaches `policy.max`;
/// every request after that is turned away.
pub proof fn lemma_open_window(counters: Counters, key: Seq<char>, policy: Options, times: Seq<u64>)
    requires
        counters.contains_key(key),
        forall|i: int| 0 <= i < times.len() ==> counters[key].live_at(#[trigger] times[i]),
    ensures
        verdicts(counters, key, policy, times).len() == times.len(),
        forall|i: int|
            #![trigger verdicts(counters, key, policy, times)[i]]
            0 <= i < times.len() ==> verdicts(counters, key, policy, times)[i] == verdict_after(
                policy,
                counters[key].value + i,
            ),
    decreases times.len(),
{
    if times.len() > 0 {
        let next = step(counters, key, policy, times[0]).1;
        let rest = times.drop_first();
        let all = verdicts(counters, key, policy, times);
        let tail = verdicts(next, key, policy, rest);
        assert forall|i: int| 0 <= i < rest.len() implies next[key].live_at(#[trigger] rest[i]) by {
            assert(rest[i] == times[i + 1]);
        }
        lemma_open_window(next, key, policy, rest);
        assert forall|i: int| 0 <= i < times.len() implies #[trigger] all[i] == verdict_after(
            policy,
            counters[key].value + i,
        ) by {
            if i > 0 {
                assert(all[i] == tail[i - 1]);
            }
        }
    }
}

/// Where the store holds no record of the key, and the policy lets no
/// request through, every request is turned away.
proof fn lemma_closed_policy(counters: Counters, key: Seq<char>, policy: Options, times: Seq<u64>)
    requires
        !counters.contains_key(key),
        policy.max == 0,
    ensures
        verdicts(counters, key, policy, times).len() == times.len(),
        forall|i: int|
            #![trigger verdicts(counters, key, policy, times)[i]]
            0 <= i < times.len() ==> verdicts(counters, key, policy, times)[i] == verdict_after(
                policy,
                i,
            ),
    decreases times.len(),
{
    if times.len() > 0 {
        let next = step(counters, key, policy, times[0]).1;
        let rest = times.drop_first();
        let all = verdicts(counters, key, policy, times);
        let tail = verdicts(next, key, policy, rest);
        assert(next =~= counters);
        lemma_closed_policy(next, key, policy, rest);
        assert forall|i: int| 0 <= i < times.len() implies #[trigger] all[i] == verdict_after(
            policy,
            i,
        ) by {
            if i > 0 {
                assert(all[i] == tail[i - 1]);
            }
        }
    }
}

/// Over the requests of one window, which the first of them opens, the first
/// `policy.max` are admitted, numbered from one, and every later one is
/// turned away with the length of the window as its hint.
pub proof fn lemma_window_admits_max(
    counters: Counters,
    key: Seq<char>,
    policy: Options,
    times: Seq<u64>,
)
    requires
        times.len() > 0,
        count_at(counters, key, times[0]) is None,
        forall|i: int| 0 <= i < times.len() ==> #[trigger] times[i] < times[0] + policy.per_s,
    ensures
        verdicts(counters, key, policy, times).len() == times.len(),
        forall|i: int|
            #![trigger verdicts(counters, key, policy, times)[i]]
            0 <= i < times.len() ==> verdicts(counters, key, policy, times)[i] == if i
                < policy.max {
                Verdict::Admitted { count: (i + 1) as usize }
            } else {
                Verdict::RateLimitExceeded { retry_after: policy.per_s }
            },
{
    let next = step(counters, key, policy, times[0]).1;
    let rest = times.drop_first();
    let all = verdicts(counters, key, policy, times);
    let tail = verdicts(next, key, policy, rest);
    if policy.max == 0 {
        lemma_closed_policy(next, key, policy, rest);
    } else {
        assert(next[key] == MapValue { value: 1, expiry_s: policy.per_s, unix: times[0] });
        assert forall|i: int| 0 <= i < rest.len() implies next[key].live_at(#[trigger] rest[i]) by {
            assert(rest[i] == times[i + 1]);
        }
        lemma_open_window(next, key, policy, rest);
    }
    assert forall|i: int| 0 <= i < times.len() implies #[trigger] all[i] == verdict_after(
        policy,
        i,
    ) by {
        if i > 0 {
            assert(all[i] == tail[i - 1]);
        }
    }
}

} // verus!
