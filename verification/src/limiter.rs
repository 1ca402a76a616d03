//! The decision taken on each request: which counter it falls on, whether the
//! policy still has room for it, and what is written back.

use vstd::prelude::*;
use vstd::string::*;

use crate::rate_limiter::{Options, RateLimiter};
use crate::stores::map::{step, Counters, MapStore};
use crate::stores::Store;
use crate::verdict::{decide, verdict_of, Verdict};

verus! {

/// The key of the counter that the requests of `identity` on the routes
/// labelled `label` share.
pub open spec fn counter_key_of(identity: Seq<char>, label: Seq<char>) -> Seq<char> {
    "rate-limit:"@ + identity + ":"@ + label
}

/// Builds the key of the counter that the requests of `identity` on the
/// routes labelled `label` share.
pub fn counter_key(identity: &str, label: &str) -> (key: String)
    ensures
        key@ == counter_key_of(identity@, label@),
{
    let mut key = String::from_str("rate-limit:");
    key.append(identity);
    key.append(":");
    key.append(label);
    key
}

/// One identity has a counter of its own for each label: keys of the same
/// identity under different labels differ.
pub proof fn lemma_labels_count_apart(identity: Seq<char>, label: Seq<char>, other: Seq<char>)
    requires
        label != other,
    ensures
        counter_key_of(identity, label) != counter_key_of(identity, other),
{
    let head = "rate-limit:"@ + identity + ":"@;
    assert(counter_key_of(identity, label).skip(head.len() as int) =~= label);
    assert(counter_key_of(identity, other).skip(head.len() as int) =~= other);
}

/// Under one label each identity has a counter of its own: keys of
/// different identities under the same label differ.
pub proof fn lemma_identities_count_apart(identity: Seq<char>, other: Seq<char>, label: Seq<char>)
    requires
        identity != other,
    ensures
        counter_key_of(identity, label) != counter_key_of(other, label),
{
    let head = "rate-limit:"@.len() as int;
    let a = counter_key_of(identity, label);
    let b = counter_key_of(other, label);
    assert(a.subrange(head, head + identity.len()) =~= identity);
    assert(b.subrange(head, head + other.len()) =~= other);
}

/// Identities that hold no `':'` never share a counter: the key tells both
/// the identity and the label.
pub proof fn lemma_key_tells_identity_and_label(
    identity: Seq<char>,
    label: Seq<char>,
    other_identity: Seq<char>,
    other_label: Seq<char>,
)
    requires
        !identity.contains(':'),
        !other_identity.contains(':'),
        counter_key_of(identity, label) == counter_key_of(other_identity, other_label),
    ensures
        identity == other_identity,
        label == other_label,
{
    reveal_strlit(":");
    let head = "rate-limit:"@.len() as int;
    let a = counter_key_of(identity, label);
    let b = counter_key_of(other_identity, other_label);
    assert(a[head + identity.len()] == ':');
    assert(b[head + other_identity.len()] == ':');
    if identity.len() < other_identity.len() {
        assert(b[head + identity.len()] == other_identity[identity.len() as int]);
        assert(other_identity.contains(other_identity[identity.len() as int]));
    } else if other_identity.len() < identity.len() {
        assert(a[head + other_identity.len()] == identity[other_identity.len() as int]);
        assert(identity.contains(identity[other_identity.len() as int]));
    }
    assert(a.subrange(head, head + identity.len()) =~= identity);
    assert(b.subrange(head, head + other_identity.len()) =~= other_identity);
    if label != other_label {
        lemma_labels_count_apart(identity, label, other_label);
    }
}

impl<S> RateLimiter<S> {
    /// The key of the counter that a request of `identity` for `path` falls
    /// on.
    pub open spec fn key_of(&self, identity: Seq<char>, path: Seq<char>) -> Seq<char> {
        counter_key_of(identity, self.route_of(path).0)
    }

    /// The policy that governs `path`.
    pub open spec fn policy_of(&self, path: Seq<char>) -> Options {
        self.route_of(path).1
    }
}

impl RateLimiter<MapStore> {
    /// Takes the request of `identity` for `path` at the time `now`: finds
    /// the policy and the counter that it falls on, and counts it there.
    pub fn check_at(&mut self, identity: &str, path: &str, now: u64) -> (verdict: Verdict)
        ensures
            final(self).options == old(self).options,
            final(self).routes == old(self).routes,
            (verdict, final(self).store@) == step(
                old(self).store@,
                old(self).key_of(identity@, path@),
                old(self).policy_of(path@),
                now,
            ),
    {
        let (label, policy) = self.resolve(path);
        let key = counter_key(identity, label.as_str());
        self.store.hit_at(key.as_str(), policy, now)
    }
}

impl Default for RateLimiter<MapStore> {
    /// At most 200 requests a minute on every path, counted in memory.
    fn default() -> (limiter: Self)
        ensures
            limiter.options == (Options { max: 200, per_s: 60 }),
            limiter.routes@ == Seq::<(String, Options)>::empty(),
            limiter.store@ == Counters::empty(),
    {
        Self::new(Options { max: 200, per_s: 60 }, MapStore::new())
    }
}

/// Whether a request that found `current` on the counter `key`, with the
/// store left as `read` by that, may end with `answer` and the store as
/// `after`. A request that the policy has room for is written back as number
/// `current + 1`: it goes on if the write succeeds, and ends with what the
/// write failed with otherwise. One that is turned away writes nothing.
pub open spec fn settles<S: Store>(
    read: &S,
    key: Seq<char>,
    policy: Options,
    current: Option<usize>,
    answer: Result<Verdict, S::Error>,
    after: &S,
) -> bool {
    match verdict_of(policy, current) {
        Verdict::Admitted { count } => match answer {
            Ok(verdict) => {
                &&& verdict == Verdict::Admitted { count }
                &&& read.set_gives(key, count, policy.per_s, None, after)
            },
            Err(e) => read.set_gives(key, count, policy.per_s, Some(e), after),
        },
        verdict => answer == Ok::<Verdict, S::Error>(verdict) && after == read,
    }
}

/// Whether a request on the counter `key` under `policy` may end with
/// `answer` and take the store from `before` to `after`. The counter is read:
/// either the read fails, and what it failed with is the answer, or the
/// request is settled on what was read.
pub open spec fn check_gives<S: Store>(
    before: &S,
    key: Seq<char>,
    policy: Options,
    answer: Result<Verdict, S::Error>,
    after: &S,
) -> bool {
    ||| answer matches Err(e) && before.get_gives(key, Err(e), after)
    ||| exists|current: Option<usize>, read: S|
        {
            &&& #[trigger] before.get_gives(key, Ok(current), &read)
            &&& settles(&read, key, policy, current, answer, after)
        }
}

/// Whatever the store answers, a request that goes on was counted within
/// its policy, and one that is turned away learns the length of its window.
pub proof fn lemma_check_keeps_policy<S: Store>(
    before: &S,
    key: Seq<char>,
    policy: Options,
    verdict: Verdict,
    after: &S,
)
    requires
        check_gives(before, key, policy, Ok(verdict), after),
    ensures
        match verdict {
            Verdict::Admitted { count } => 1 <= count <= policy.max,
            Verdict::RateLimitExceeded { retry_after } => retry_after == policy.per_s,
            Verdict::Unlimited => false,
        },
{
}

impl<S: Store> RateLimiter<S> {
    /// Takes the request of `identity` for `path`: reads its counter from the
    /// store, decides, and writes the new count back if the request is
    /// admitted. A request that is turned away writes nothing. What the store
    /// fails with is handed on as it is.
    pub fn check(&mut self, identity: &str, path: &str) -> (r: Result<Verdict, S::Error>)
        ensures
            final(self).options == old(self).options,
            final(self).routes == old(self).routes,
            check_gives(
                &old(self).store,
                old(self).key_of(identity@, path@),
                old(self).policy_of(path@),
                r,
                &final(self).store,
            ),
    {
        let (label, policy) = self.resolve(path);
        let key = counter_key(identity, label.as_str());
        let current = match self.store.get(key.as_str()) {
            Ok(current) => current,
            Err(e) => { return Err(e); },
        };
        let ghost read = self.store;
        let verdict = decide(policy, current);
        match verdict {
            Verdict::Admitted { count } => {
                match self.store.set(key.as_str(), count, policy.per_s) {
                    Ok(()) => {},
                    Err(e) => {
                        assert(settles(&read, key@, policy, current, Err(e), &self.store));
                        return Err(e);
                    },
                }
            },
            _ => {},
        }
        assert(settles(&read, key@, policy, current, Ok(verdict), &self.store));
        Ok(verdict)
    }

    /// Takes a request of which the configuration has said whether it is
    /// subject to limiting. One that is not goes on at once, and the store is
    /// neither read nor written; any other is taken as `check` takes it.
    pub fn throttle(&mut self, should_limit: bool, identity: &str, path: &str) -> (r: Result<
        Verdict,
        S::Error,
    >)
        ensures
            final(self).options == old(self).options,
            final(self).routes == old(self).routes,
            !should_limit ==> r == Ok::<Verdict, S::Error>(Verdict::Unlimited),
            !should_limit ==> final(self).store == old(self).store,
            should_limit ==> check_gives(
                &old(self).store,
                old(self).key_of(identity@, path@),
                old(self).policy_of(path@),
                r,
                &final(self).store,
            ),
    {
        if should_limit {
            self.check(identity, path)
        } else {
            Ok(Verdict::Unlimited)
        }
    }
}

/// What the limiter reads of a request.
#[derive(Clone, Debug)]
pub struct Request {
    /// The path that is asked for, with its query string if it has one.
    pub route: String,
    /// The network address of the caller, where it is known.
    pub ip: Option<String>,
}

/// The identity that a request is counted under unless the configuration
/// says otherwise: the caller's network address, or the empty string where it
/// is not known.
pub open spec fn default_key(request: &Request) -> Seq<char> {
    match request.ip {
        Some(ip) => ip@,
        None => Seq::empty(),
    }
}

/// What the host decides of each request: whether it is limited at all, and
/// under which identity it is counted.
pub trait Configuration {
    /// Whether `request` is subject to limiting. Unless the host says
    /// otherwise, every request is.
    fn should_limit(&self, request: &Request) -> (limited: bool)
        default_ensures
            limited,
    {
        true
    }

    /// The identity that `request` is counted under. Unless the host says
    /// otherwise, it is the caller's network address, or the empty string
    /// where that is not known.
    fn get_key(&self, request: &Request) -> (key: String)
        default_ensures
            key@ == default_key(request),
    {
        match &request.ip {
            Some(ip) => ip.clone(),
            None => String::new(),
        }
    }
}

/// The configuration that limits every request and counts it under the
/// caller's network address.
#[derive(Clone, Copy, Debug)]
pub struct DefaultConfiguration;

impl Configuration for DefaultConfiguration {

}

/// Whether the limiter `before` may give `answer` to `request` under
/// `configuration`, and leave its store as `after`. Either the configuration
/// says that the request is not limited: then it goes on, and the store is as
/// it was. Or it says that the request is limited, and names an identity:
/// then the request is taken on the counter of that identity for its path.
pub open spec fn middleware_gives<C: Configuration, S: Store>(
    before: RateLimiter<S>,
    configuration: &C,
    request: &Request,
    answer: Result<Verdict, S::Error>,
    after: &S,
) -> bool {
    ||| {
        &&& call_ensures(C::should_limit, (configuration, request), false)
        &&& answer == Ok::<Verdict, S::Error>(Verdict::Unlimited)
        &&& *after == before.store
    }
    ||| exists|identity: String|
        {
            &&& call_ensures(C::should_limit, (configuration, request), true)
            &&& #[trigger] call_ensures(C::get_key, (configuration, request), identity)
            &&& check_gives(
                &before.store,
                before.key_of(identity@, request.route@),
                before.policy_of(request.route@),
                answer,
                after,
            )
        }
}

/// The limiter as one step of a request pipeline. It asks `configuration`
/// whether `request` is limited at all, and if so under which identity it is
/// counted, and lets `limiter` decide. The caller goes on to what follows
/// where the verdict allows it, and answers the request itself where the
/// limit is exceeded.
pub fn rate_limit_middleware<C: Configuration, S: Store>(
    limiter: &mut RateLimiter<S>,
    configuration: &C,
    request: &Request,
) -> (r: Result<Verdict, S::Error>)
    ensures
        final(limiter).options == old(limiter).options,
        final(limiter).routes == old(limiter).routes,
        middleware_gives(*old(limiter), configuration, request, r, &final(limiter).store),
{
    let should_limit = configuration.should_limit(request);
    let identity = if should_limit {
        configuration.get_key(request)
    } else {
        String::new()
    };
    limiter.throttle(should_limit, identity.as_str(), request.route.as_str())
}

} // verus!
