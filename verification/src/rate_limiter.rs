//! The limiter's configuration: a default policy, the routes that override
//! it, and the choice of the policy that governs a request path.

use vstd::prelude::*;
use vstd::string::*;

use crate::utils::url::{path_chunks, route_matches, segments_match, to_path_chunks};

verus! {

/// A policy: at most `max` requests in each window of `per_s` seconds.
#[derive(Clone, Copy, Debug, PartialEq, Eq, Structural)]
pub struct Options {
    /// The number of requests that a window has room for.
    pub max: usize,
    /// The length of a window, in seconds.
    pub per_s: usize,
}

impl Options {
    /// The policy of at most `max` requests in each window of `per_s`
    /// seconds.
    pub fn new(max: usize, per_s: usize) -> (options: Self)
        ensures
            options == (Options { max, per_s }),
    {
        Self { max, per_s }
    }
}

/// The limiter: the default policy, the routes with a policy of their own in
/// order of precedence, and the store that keeps the counters.
#[derive(Clone)]
pub struct RateLimiter<S> {
    /// The policy of every path that no route overrides.
    pub options: Options,
    /// Route patterns with the policy of each; the first that matches a path
    /// governs it.
    pub routes: Vec<(String, Options)>,
    /// Where the counters are kept.
    pub store: S,
}

/// The first of `overrides` whose pattern `path` falls under, if any.
pub open spec fn first_match(
    overrides: Seq<(Seq<char>, Options)>,
    path: Seq<char>,
) -> Option<(Seq<char>, Options)>
    decreases overrides.len(),
{
    if overrides.len() == 0 {
        None
    } else if route_matches(overrides[0].0, path) {
        Some(overrides[0])
    } else {
        first_match(overrides.drop_first(), path)
    }
}

/// The label and the policy that govern `path`: those of the first override
/// that matches, or the empty label and the default policy.
pub open spec fn resolve_route(
    overrides: Seq<(Seq<char>, Options)>,
    fallback: Options,
    path: Seq<char>,
) -> (Seq<char>, Options) {
    match first_match(overrides, path) {
        Some(found) => found,
        None => (Seq::empty(), fallback),
    }
}

/// Whether the override at `i` matches `path`, and none before it does.
pub open spec fn is_first_match(
    overrides: Seq<(Seq<char>, Options)>,
    path: Seq<char>,
    i: int,
) -> bool {
    &&& 0 <= i < overrides.len()
    &&& route_matches(overrides[i].0, path)
    &&& forall|j: int| 0 <= j < i ==> !route_matches(#[trigger] overrides[j].0, path)
}

/// Overrides take precedence in their order: an override that matches
/// `path`, with none before it that does, governs `path`, whatever the
/// default policy and the overrides after it are.
pub proof fn lemma_first_override_wins(
    overrides: Seq<(Seq<char>, Options)>,
    fallback: Options,
    path: Seq<char>,
    i: int,
)
    requires
        is_first_match(overrides, path, i),
    ensures
        first_match(overrides, path) == Some(overrides[i]),
        resolve_route(overrides, fallback, path) == overrides[i],
    decreases i,
{
    if i > 0 {
        let rest = overrides.drop_first();
        lemma_first_override_wins(rest, fallback, path, i - 1);
    }
}

/// A path that no override matches is governed by the default policy, under
/// the empty label.
pub proof fn lemma_unmatched_falls_back(
    overrides: Seq<(Seq<char>, Options)>,
    fallback: Options,
    path: Seq<char>,
)
    requires
        forall|j: int| 0 <= j < overrides.len() ==> !route_matches(#[trigger] overrides[j].0, path),
    ensures
        first_match(overrides, path) is None,
        resolve_route(overrides, fallback, path) == (Seq::<char>::empty(), fallback),
    decreases overrides.len(),
{
    if overrides.len() > 0 {
        let rest = overrides.drop_first();
        lemma_unmatched_falls_back(rest, fallback, path);
    }
}

/// What `first_match` finds is an override that matches the path, with none
/// before it that does; it finds nothing only where no override matches.
pub proof fn lemma_first_match_is_first(overrides: Seq<(Seq<char>, Options)>, path: Seq<char>)
    ensures
        match first_match(overrides, path) {
            Some(found) => exists|i: int|
                #[trigger] is_first_match(overrides, path, i) && overrides[i] == found,
            None => forall|j: int|
                0 <= j < overrides.len() ==> !route_matches(#[trigger] overrides[j].0, path),
        },
    decreases overrides.len(),
{
    if overrides.len() == 0 {
    } else if route_matches(overrides[0].0, path) {
        assert(is_first_match(overrides, path, 0));
    } else {
        let rest = overrides.drop_first();
        lemma_first_match_is_first(rest, path);
        match first_match(rest, path) {
            Some(found) => {
                let i = choose|i: int| #[trigger] is_first_match(rest, path, i) && rest[i] == found;
                assert forall|j: int| 0 <= j < i + 1 implies !route_matches(
                    #[trigger] overrides[j].0,
                    path,
                ) by {
                    if j > 0 {
                        assert(overrides[j] == rest[j - 1]);
                    }
                }
                assert(is_first_match(overrides, path, i + 1));
            },
            None => {
                assert forall|j: int| 0 <= j < overrides.len() implies !route_matches(
                    #[trigger] overrides[j].0,
                    path,
                ) by {
                    if j > 0 {
                        assert(overrides[j] == rest[j - 1]);
                    }
                }
            },
        }
    }
}

impl<S> RateLimiter<S> {
    /// The overriding routes as plain values, in order of precedence.
    pub open spec fn overrides(&self) -> Seq<(Seq<char>, Options)> {
        Seq::new(self.routes@.len(), |i: int| (self.routes@[i].0@, self.routes@[i].1))
    }

    /// The label and the policy that govern `path` under this limiter.
    pub open spec fn route_of(&self, path: Seq<char>) -> (Seq<char>, Options) {
        resolve_route(self.overrides(), self.options, path)
    }

    /// A limiter that holds every path to `options`.
    pub fn new(options: Options, store: S) -> (limiter: Self)
        ensures
            limiter.options == options,
            limiter.routes@ == Seq::<(String, Options)>::empty(),
            limiter.store == store,
    {
        RateLimiter { options, routes: Vec::new(), store }
    }

    /// Replaces the overriding routes by `routes`; the first that matches a
    /// path governs it.
    pub fn override_routes(self, routes: Vec<(String, Options)>) -> (limiter: Self)
        ensures
            limiter.options == self.options,
            limiter.routes == routes,
            limiter.store == self.store,
    {
        let mut limiter = self;
        limiter.routes = routes;
        limiter
    }

    /// The first overriding route that `target` falls under, with its policy.
    pub fn matches_route(&self, target: &str) -> (r: Option<(String, Options)>)
        ensures
            match r {
                Some(found) => first_match(self.overrides(), target@) == Some((found.0@, found.1)),
                None => first_match(self.overrides(), target@) is None,
            },
    {
        let target_parts = match to_path_chunks(target) {
            Some(parts) => parts,
            None => { return None; },
        };
        let mut i: usize = 0;
        assert(self.overrides().skip(0) =~= self.overrides());
        while i < self.routes.len()
            invariant
                0 <= i <= self.routes.len(),
                target_parts.deep_view() == path_chunks(target@),
                first_match(self.overrides(), target@) == first_match(
                    self.overrides().skip(i as int),
                    target@,
                ),
            decreases self.routes.len() - i,
        {
            let ghost rest = self.overrides().skip(i as int);
            assert(rest[0] == self.overrides()[i as int]);
            assert(rest.drop_first() =~= self.overrides().skip(i + 1));
            let matched = match to_path_chunks(self.routes[i].0.as_str()) {
                Some(self_parts) => segments_match(&self_parts, &target_parts),
                None => false,
            };
            if matched {
                return Some((self.routes[i].0.clone(), self.routes[i].1));
            }
            i = i + 1;
        }
        None
    }

    /// The label and the policy that govern `path`: those of the first
    /// overriding route that matches, or the empty label and the default
    /// policy.
    pub fn resolve(&self, path: &str) -> (r: (String, Options))
        ensures
            (r.0@, r.1) == self.route_of(path@),
    {
        match self.matches_route(path) {
            Some(found) => found,
            None => (String::new(), self.options),
        }
    }
}

} // verus!
