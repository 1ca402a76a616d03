use thruster_rate_limit::stores::map::MapStore;
use thruster_rate_limit::{
    counter_key, decide, rate_limit_middleware, rejection_message, Configuration,
    DefaultConfiguration, Options, RateLimiter, Request, Store, Verdict, TOO_MANY_REQUESTS,
};

const ROUTE: &str = "/foo";

struct RateLimiterConf;

impl Configuration for RateLimiterConf {}

fn request(route: &str) -> Request {
    Request { route: route.to_string(), ip: None }
}

fn request_from(route: &str, ip: &str) -> Request {
    Request { route: route.to_string(), ip: Some(ip.to_string()) }
}

#[test]
fn hello_world() {
    let mut rate_limiter = RateLimiter::default();

    let verdict = rate_limit_middleware(&mut rate_limiter, &RateLimiterConf, &request(ROUTE));

    assert_eq!(verdict, Ok(Verdict::Admitted { count: 1 }));
    assert!(verdict.unwrap().is_allowed());
}

#[test]
fn simple_block() {
    let mut rate_limiter = RateLimiter::new(Options { max: 10, per_s: 10 }, MapStore::new());

    for _ in 0..10 {
        let verdict = rate_limit_middleware(&mut rate_limiter, &RateLimiterConf, &request(ROUTE));
        assert!(verdict.unwrap().is_allowed());
    }

    let verdict = rate_limit_middleware(&mut rate_limiter, &RateLimiterConf, &request(ROUTE));
    assert_eq!(verdict, Ok(Verdict::RateLimitExceeded { retry_after: 10 }));
    assert!(!verdict.unwrap().is_allowed());
    assert_eq!(TOO_MANY_REQUESTS, 429);
}

#[test]
fn routes_option() {
    let mut rate_limiter = RateLimiter::new(Options::new(1, 100), MapStore::new())
        .override_routes(vec![
            ("/foo".to_string(), Options::new(10, 10)),
            ("/user/:id".to_string(), Options::new(10, 10)),
        ]);

    for i in 0..11 {
        let verdict =
            rate_limit_middleware(&mut rate_limiter, &RateLimiterConf, &request("/foo?q=q"));
        assert_eq!(verdict.unwrap().is_allowed(), i != 10);
    }

    for i in 0..11 {
        let verdict =
            rate_limit_middleware(&mut rate_limiter, &RateLimiterConf, &request("/user/0"));
        assert_eq!(verdict.unwrap().is_allowed(), i != 10);
    }

    for i in 0..2 {
        let verdict = rate_limit_middleware(&mut rate_limiter, &RateLimiterConf, &request("/"));
        assert_eq!(verdict.unwrap().is_allowed(), i != 1);
    }
}

#[test]
fn default_policy_admits_a_hundred_and_rejects_the_next() {
    let mut limiter = RateLimiter::new(Options { max: 100, per_s: 60 }, MapStore::new());
    let from = request_from("/anything", "1.1.1.1");

    for i in 0..100 {
        let verdict = rate_limit_middleware(&mut limiter, &DefaultConfiguration, &from);
        assert_eq!(verdict, Ok(Verdict::Admitted { count: i + 1 }));
    }
    let verdict = rate_limit_middleware(&mut limiter, &DefaultConfiguration, &from);
    assert_eq!(verdict, Ok(Verdict::RateLimitExceeded { retry_after: 60 }));
}

#[test]
fn default_limiter_allows_two_hundred_a_minute() {
    let limiter: RateLimiter<MapStore> = RateLimiter::default();
    assert_eq!(limiter.options, Options { max: 200, per_s: 60 });
    assert!(limiter.routes.is_empty());
}

#[test]
fn requests_within_one_window_fill_it() {
    let mut limiter = RateLimiter::new(Options::new(3, 10), MapStore::new());

    assert_eq!(limiter.check_at("a", "/", 1000), Verdict::Admitted { count: 1 });
    assert_eq!(limiter.check_at("a", "/", 1004), Verdict::Admitted { count: 2 });
    assert_eq!(limiter.check_at("a", "/", 1009), Verdict::Admitted { count: 3 });
    assert_eq!(limiter.check_at("a", "/", 1009), Verdict::RateLimitExceeded { retry_after: 10 });
    assert_eq!(limiter.check_at("a", "/", 1001), Verdict::RateLimitExceeded { retry_after: 10 });
}

#[test]
fn next_window_starts_from_one() {
    let mut limiter = RateLimiter::new(Options::new(2, 10), MapStore::new());

    assert_eq!(limiter.check_at("a", "/", 1000), Verdict::Admitted { count: 1 });
    assert_eq!(limiter.check_at("a", "/", 1005), Verdict::Admitted { count: 2 });
    assert_eq!(limiter.check_at("a", "/", 1009), Verdict::RateLimitExceeded { retry_after: 10 });
    assert_eq!(limiter.check_at("a", "/", 1010), Verdict::Admitted { count: 1 });
    assert_eq!(limiter.check_at("a", "/", 1019), Verdict::Admitted { count: 2 });
    assert_eq!(limiter.check_at("a", "/", 1019), Verdict::RateLimitExceeded { retry_after: 10 });
    assert_eq!(limiter.check_at("a", "/", 1020), Verdict::Admitted { count: 1 });
}

#[test]
fn window_does_not_slide_with_each_request() {
    let mut limiter = RateLimiter::new(Options::new(100, 10), MapStore::new());

    for second in 0..10 {
        let verdict = limiter.check_at("a", "/", 500 + second);
        assert_eq!(verdict, Verdict::Admitted { count: second as usize + 1 });
    }
    assert_eq!(limiter.check_at("a", "/", 510), Verdict::Admitted { count: 1 });
}

#[test]
fn rejected_requests_are_not_counted() {
    let mut limiter = RateLimiter::new(Options::new(1, 10), MapStore::new());

    assert_eq!(limiter.check_at("a", "/", 0), Verdict::Admitted { count: 1 });
    for _ in 0..5 {
        assert_eq!(limiter.check_at("a", "/", 1), Verdict::RateLimitExceeded { retry_after: 10 });
    }
    assert_eq!(limiter.store.get_at("rate-limit:a:", 1), Some(1));
}

#[test]
fn policy_without_room_rejects_everything() {
    let mut limiter = RateLimiter::new(Options::new(0, 10), MapStore::new());

    assert_eq!(limiter.check_at("a", "/", 0), Verdict::RateLimitExceeded { retry_after: 10 });
    assert_eq!(limiter.check_at("a", "/", 100), Verdict::RateLimitExceeded { retry_after: 10 });
    assert_eq!(limiter.store.get_at("rate-limit:a:", 100), None);
}

#[test]
fn window_of_no_length_never_fills() {
    let mut limiter = RateLimiter::new(Options::new(1, 0), MapStore::new());

    assert_eq!(limiter.check_at("a", "/", 7), Verdict::Admitted { count: 1 });
    assert_eq!(limiter.check_at("a", "/", 7), Verdict::Admitted { count: 1 });
}

#[test]
fn routes_count_apart() {
    let mut limiter = RateLimiter::new(Options::new(1, 100), MapStore::new())
        .override_routes(vec![("/foo".to_string(), Options::new(2, 10))]);

    assert_eq!(limiter.check_at("a", "/foo", 0), Verdict::Admitted { count: 1 });
    assert_eq!(limiter.check_at("a", "/", 0), Verdict::Admitted { count: 1 });
    assert_eq!(limiter.check_at("a", "/foo", 0), Verdict::Admitted { count: 2 });
    assert_eq!(limiter.check_at("a", "/foo", 0), Verdict::RateLimitExceeded { retry_after: 10 });
    assert_eq!(limiter.check_at("a", "/", 0), Verdict::RateLimitExceeded { retry_after: 100 });
    assert_eq!(limiter.check_at("a", "/foo", 10), Verdict::Admitted { count: 1 });
    assert_eq!(limiter.check_at("a", "/", 10), Verdict::RateLimitExceeded { retry_after: 100 });
}

#[test]
fn unmatched_routes_share_one_counter() {
    let mut limiter = RateLimiter::new(Options::new(2, 100), MapStore::new())
        .override_routes(vec![("/foo".to_string(), Options::new(10, 10))]);

    assert_eq!(limiter.check_at("a", "/bar", 0), Verdict::Admitted { count: 1 });
    assert_eq!(limiter.check_at("a", "/baz/qux", 0), Verdict::Admitted { count: 2 });
    assert_eq!(limiter.check_at("a", "/", 0), Verdict::RateLimitExceeded { retry_after: 100 });
}

#[test]
fn identities_count_apart() {
    let mut limiter = RateLimiter::new(Options::new(1, 100), MapStore::new());

    assert_eq!(limiter.check_at("1.1.1.1", "/", 0), Verdict::Admitted { count: 1 });
    assert_eq!(limiter.check_at("2.2.2.2", "/", 0), Verdict::Admitted { count: 1 });
    assert_eq!(limiter.check_at("1.1.1.1", "/", 0), Verdict::RateLimitExceeded { retry_after: 100 });
    assert_eq!(limiter.check_at("", "/", 0), Verdict::Admitted { count: 1 });
}

#[test]
fn wildcard_route_counts_all_its_paths_together() {
    let mut limiter = RateLimiter::new(Options::new(1, 100), MapStore::new())
        .override_routes(vec![("/user/:id".to_string(), Options::new(2, 10))]);

    assert_eq!(limiter.check_at("a", "/user/0", 0), Verdict::Admitted { count: 1 });
    assert_eq!(limiter.check_at("a", "/user/1", 0), Verdict::Admitted { count: 2 });
    assert_eq!(limiter.check_at("a", "/user/2", 0), Verdict::RateLimitExceeded { retry_after: 10 });
    assert_eq!(limiter.store.get_at("rate-limit:a:/user/:id", 0), Some(2));
}

#[test]
fn first_matching_override_wins() {
    let limiter = RateLimiter::new(Options::new(1, 1), MapStore::new()).override_routes(vec![
        ("/user/:id".to_string(), Options::new(2, 20)),
        ("/user/0".to_string(), Options::new(3, 30)),
        ("/:any".to_string(), Options::new(4, 40)),
    ]);

    assert_eq!(
        limiter.matches_route("/user/0"),
        Some(("/user/:id".to_string(), Options::new(2, 20)))
    );
    assert_eq!(limiter.matches_route("/users"), Some(("/:any".to_string(), Options::new(4, 40))));
    assert_eq!(limiter.matches_route("/user/0/extra"), None);
    assert_eq!(limiter.matches_route("/"), None);
    assert_eq!(limiter.resolve("/user/0?x=1"), ("/user/:id".to_string(), Options::new(2, 20)));
    assert_eq!(limiter.resolve("/a/b/c"), (String::new(), Options::new(1, 1)));
}

#[test]
fn limiter_without_overrides_matches_no_route() {
    let limiter = RateLimiter::new(Options::new(5, 6), MapStore::new());

    assert!(limiter.routes.is_empty());
    assert_eq!(limiter.options, Options { max: 5, per_s: 6 });
    assert_eq!(limiter.matches_route("/foo"), None);
    assert_eq!(limiter.resolve("/foo"), (String::new(), Options::new(5, 6)));
}

#[test]
fn override_routes_replaces_the_routes() {
    let limiter = RateLimiter::new(Options::new(5, 6), MapStore::new())
        .override_routes(vec![("/a".to_string(), Options::new(1, 1))])
        .override_routes(vec![("/b".to_string(), Options::new(2, 2))]);

    assert_eq!(limiter.routes, vec![("/b".to_string(), Options::new(2, 2))]);
    assert_eq!(limiter.options, Options::new(5, 6));
    assert_eq!(limiter.matches_route("/a"), None);
}

#[test]
fn decide_counts_the_request_itself() {
    let policy = Options::new(3, 7);

    assert_eq!(decide(policy, None), Verdict::Admitted { count: 1 });
    assert_eq!(decide(policy, Some(0)), Verdict::Admitted { count: 1 });
    assert_eq!(decide(policy, Some(2)), Verdict::Admitted { count: 3 });
    assert_eq!(decide(policy, Some(3)), Verdict::RateLimitExceeded { retry_after: 7 });
    assert_eq!(decide(policy, Some(100)), Verdict::RateLimitExceeded { retry_after: 7 });
}

#[test]
fn decide_at_the_largest_count() {
    let policy = Options::new(usize::MAX, 1);

    assert_eq!(decide(policy, Some(usize::MAX - 1)), Verdict::Admitted { count: usize::MAX });
    assert_eq!(decide(policy, Some(usize::MAX)), Verdict::RateLimitExceeded { retry_after: 1 });
    assert_eq!(decide(Options::new(0, 9), None), Verdict::RateLimitExceeded { retry_after: 9 });
}

#[test]
fn counter_key_joins_identity_and_label() {
    assert_eq!(counter_key("1.1.1.1", ""), "rate-limit:1.1.1.1:");
    assert_eq!(counter_key("1.1.1.1", "/user/:id"), "rate-limit:1.1.1.1:/user/:id");
    assert_eq!(counter_key("", ""), "rate-limit::");
}

#[test]
fn rejection_names_the_seconds_to_wait() {
    assert_eq!(TOO_MANY_REQUESTS, 429);
    assert_eq!(rejection_message(10), "Rate limit exceeded, please wait 10 seconds");
    assert_eq!(rejection_message(0), "Rate limit exceeded, please wait 0 seconds");
    assert_eq!(rejection_message(7), "Rate limit exceeded, please wait 7 seconds");
    assert_eq!(rejection_message(1009), "Rate limit exceeded, please wait 1009 seconds");
    assert_eq!(
        rejection_message(usize::MAX),
        format!("Rate limit exceeded, please wait {} seconds", usize::MAX)
    );
}

#[test]
fn only_exceeding_the_limit_stops_a_request() {
    assert!(Verdict::Unlimited.is_allowed());
    assert!(Verdict::Admitted { count: 1 }.is_allowed());
    assert!(!Verdict::RateLimitExceeded { retry_after: 1 }.is_allowed());
}

struct Exempt;

impl Configuration for Exempt {
    fn should_limit(&self, _request: &Request) -> bool {
        false
    }
}

#[test]
fn exempt_requests_are_never_counted() {
    let mut limiter = RateLimiter::new(Options::new(1, 100), MapStore::new());
    let from = request_from("/", "1.1.1.1");

    for _ in 0..1000 {
        let verdict = rate_limit_middleware(&mut limiter, &Exempt, &from);
        assert_eq!(verdict, Ok(Verdict::Unlimited));
    }
    assert_eq!(limiter.store.get("rate-limit:1.1.1.1:"), Ok(None));
    assert_eq!(
        rate_limit_middleware(&mut limiter, &DefaultConfiguration, &from),
        Ok(Verdict::Admitted { count: 1 })
    );
}

#[test]
fn throttle_takes_the_answer_of_the_configuration() {
    let mut limiter = RateLimiter::new(Options::new(1, 100), MapStore::new());

    assert_eq!(limiter.throttle(false, "a", "/"), Ok(Verdict::Unlimited));
    assert_eq!(limiter.throttle(true, "a", "/"), Ok(Verdict::Admitted { count: 1 }));
    assert_eq!(limiter.throttle(false, "a", "/"), Ok(Verdict::Unlimited));
    assert_eq!(
        limiter.throttle(true, "a", "/"),
        Ok(Verdict::RateLimitExceeded { retry_after: 100 })
    );
    assert_eq!(limiter.check("a", "/"), Ok(Verdict::RateLimitExceeded { retry_after: 100 }));
    assert_eq!(limiter.check("b", "/"), Ok(Verdict::Admitted { count: 1 }));
}

struct ByRoute;

impl Configuration for ByRoute {
    fn get_key(&self, request: &Request) -> String {
        request.route.clone()
    }
}

#[test]
fn configuration_chooses_the_identity() {
    let mut limiter = RateLimiter::new(Options::new(1, 100), MapStore::new());

    assert_eq!(
        rate_limit_middleware(&mut limiter, &ByRoute, &request_from("/a", "1.1.1.1")),
        Ok(Verdict::Admitted { count: 1 })
    );
    assert_eq!(
        rate_limit_middleware(&mut limiter, &ByRoute, &request_from("/a", "2.2.2.2")),
        Ok(Verdict::RateLimitExceeded { retry_after: 100 })
    );
    assert_eq!(
        rate_limit_middleware(&mut limiter, &ByRoute, &request_from("/b", "1.1.1.1")),
        Ok(Verdict::Admitted { count: 1 })
    );
}

#[test]
fn default_identity_is_the_network_address() {
    let with_address = request_from("/", "10.0.0.7");
    let without = request("/");

    assert!(DefaultConfiguration.should_limit(&with_address));
    assert_eq!(DefaultConfiguration.get_key(&with_address), "10.0.0.7");
    assert_eq!(DefaultConfiguration.get_key(&without), "");
    assert!(RateLimiterConf.should_limit(&without));
    assert_eq!(RateLimiterConf.get_key(&with_address), "10.0.0.7");
}

/// A store that answers from a script, and keeps what was asked of it.
struct Scripted {
    answer: Result<Option<usize>, String>,
    write: Result<(), String>,
    calls: Vec<String>,
}

impl Scripted {
    fn new(answer: Result<Option<usize>, String>, write: Result<(), String>) -> Self {
        Scripted { answer, write, calls: Vec::new() }
    }
}

impl Store for Scripted {
    type Error = String;

    fn get(&mut self, key: &str) -> Result<Option<usize>, String> {
        self.calls.push(format!("get {}", key));
        self.answer.clone()
    }

    fn set(&mut self, key: &str, value: usize, expiry_s: usize) -> Result<(), String> {
        self.calls.push(format!("set {} {} {}", key, value, expiry_s));
        self.write.clone()
    }
}

#[test]
fn admitted_request_is_read_and_written_back() {
    let mut limiter = RateLimiter::new(Options::new(5, 30), Scripted::new(Ok(Some(3)), Ok(())))
        .override_routes(vec![("/user/:id".to_string(), Options::new(4, 20))]);

    assert_eq!(limiter.check("1.1.1.1", "/user/7?x=1"), Ok(Verdict::Admitted { count: 4 }));
    assert_eq!(limiter.check("1.1.1.1", "/other"), Ok(Verdict::Admitted { count: 4 }));
    assert_eq!(
        limiter.store.calls,
        vec![
            "get rate-limit:1.1.1.1:/user/:id",
            "set rate-limit:1.1.1.1:/user/:id 4 20",
            "get rate-limit:1.1.1.1:",
            "set rate-limit:1.1.1.1: 4 30",
        ]
    );
}

#[test]
fn rejected_request_is_read_and_not_written() {
    let mut limiter = RateLimiter::new(Options::new(3, 30), Scripted::new(Ok(Some(3)), Ok(())));

    assert_eq!(limiter.check("a", "/"), Ok(Verdict::RateLimitExceeded { retry_after: 30 }));
    assert_eq!(limiter.store.calls, vec!["get rate-limit:a:"]);
}

#[test]
fn failed_read_is_handed_on() {
    let mut limiter =
        RateLimiter::new(Options::new(3, 30), Scripted::new(Err("down".to_string()), Ok(())));

    assert_eq!(limiter.check("a", "/"), Err("down".to_string()));
    assert_eq!(limiter.throttle(true, "a", "/"), Err("down".to_string()));
    assert_eq!(
        rate_limit_middleware(&mut limiter, &DefaultConfiguration, &request("/")),
        Err("down".to_string())
    );
    assert_eq!(
        limiter.store.calls,
        vec!["get rate-limit:a:", "get rate-limit:a:", "get rate-limit::"]
    );
}

#[test]
fn failed_write_is_handed_on() {
    let mut limiter =
        RateLimiter::new(Options::new(3, 30), Scripted::new(Ok(None), Err("full".to_string())));

    assert_eq!(limiter.check("a", "/"), Err("full".to_string()));
    assert_eq!(limiter.store.calls, vec!["get rate-limit:a:", "set rate-limit:a: 1 30"]);
}

#[test]
fn exempt_request_does_not_reach_the_store() {
    let mut limiter =
        RateLimiter::new(Options::new(3, 30), Scripted::new(Err("down".to_string()), Ok(())));

    assert_eq!(limiter.throttle(false, "a", "/"), Ok(Verdict::Unlimited));
    assert_eq!(
        rate_limit_middleware(&mut limiter, &Exempt, &request("/")),
        Ok(Verdict::Unlimited)
    );
    assert!(limiter.store.calls.is_empty());
}
