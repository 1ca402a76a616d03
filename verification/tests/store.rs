use thruster_rate_limit::stores::map::MapStore;
use thruster_rate_limit::{Options, Store, Verdict};

#[test]
fn empty_store_holds_nothing() {
    let mut store = MapStore::new();
    assert_eq!(store.get_at("k", 0), None);
    assert_eq!(store.get("k"), Ok(None));
    let mut store = MapStore::default();
    assert_eq!(store.get_at("k", u64::MAX), None);
}

#[test]
fn record_lives_until_its_window_closes() {
    let mut store = MapStore::new();
    store.set_at("k", 5, 10, 100);

    assert_eq!(store.get_at("k", 100), Some(5));
    assert_eq!(store.get_at("k", 109), Some(5));
    assert_eq!(store.get_at("other", 109), None);
    assert_eq!(store.get_at("k", 110), None);
}

#[test]
fn expired_record_is_evicted_by_the_read() {
    let mut store = MapStore::new();
    store.set_at("k", 5, 10, 100);

    assert_eq!(store.get_at("k", 110), None);
    assert_eq!(store.get_at("k", 105), None);
}

#[test]
fn write_on_a_live_record_keeps_its_window() {
    let mut store = MapStore::new();
    store.set_at("k", 1, 10, 100);
    store.set_at("k", 2, 1000, 105);

    assert_eq!(store.get_at("k", 109), Some(2));
    assert_eq!(store.get_at("k", 110), None);
}

#[test]
fn write_on_an_expired_record_opens_a_window() {
    let mut store = MapStore::new();
    store.set_at("k", 7, 10, 100);
    store.set_at("k", 1, 5, 200);

    assert_eq!(store.get_at("k", 204), Some(1));
    assert_eq!(store.get_at("k", 205), None);
}

#[test]
fn window_of_no_length_is_closed_at_once() {
    let mut store = MapStore::new();
    store.set_at("k", 1, 0, 100);

    assert_eq!(store.get_at("k", 100), None);
}

#[test]
fn record_is_live_before_its_window_began() {
    let mut store = MapStore::new();
    store.set_at("k", 1, 10, 100);

    assert_eq!(store.get_at("k", 0), Some(1));
}

#[test]
fn window_past_the_last_second_never_closes() {
    let mut store = MapStore::new();
    store.set_at("k", 1, usize::MAX, u64::MAX);

    assert_eq!(store.get_at("k", u64::MAX), Some(1));
    store.set_at("j", 2, 1, u64::MAX);
    assert_eq!(store.get_at("j", u64::MAX), Some(2));
}

#[test]
fn keys_are_kept_apart() {
    let mut store = MapStore::new();
    store.set_at("a", 1, 10, 0);
    store.set_at("b", 2, 20, 0);

    assert_eq!(store.get_at("a", 5), Some(1));
    assert_eq!(store.get_at("b", 5), Some(2));
    assert_eq!(store.get_at("a", 10), None);
    assert_eq!(store.get_at("b", 10), Some(2));
}

#[test]
fn hit_counts_up_to_the_limit() {
    let mut store = MapStore::new();
    let policy = Options::new(2, 10);

    assert_eq!(store.hit_at("k", policy, 50), Verdict::Admitted { count: 1 });
    assert_eq!(store.hit_at("k", policy, 51), Verdict::Admitted { count: 2 });
    assert_eq!(store.hit_at("k", policy, 52), Verdict::RateLimitExceeded { retry_after: 10 });
    assert_eq!(store.get_at("k", 59), Some(2));
    assert_eq!(store.hit_at("k", policy, 60), Verdict::Admitted { count: 1 });
}

#[test]
fn store_reads_the_clock() {
    let mut store = MapStore::new();

    assert_eq!(store.set("k", 3, 1000), Ok(()));
    assert_eq!(store.get("k"), Ok(Some(3)));
    assert_eq!(store.set("k", 4, 0), Ok(()));
    assert_eq!(store.get("k"), Ok(Some(4)));
    assert_eq!(store.set("gone", 1, 0), Ok(()));
    assert_eq!(store.get("gone"), Ok(None));
}

#[test]
fn hit_reads_the_clock() {
    let mut store = MapStore::new();
    let policy = Options::new(1, 1000);

    assert_eq!(store.hit("k", policy), Ok(Verdict::Admitted { count: 1 }));
    assert_eq!(store.hit("k", policy), Ok(Verdict::RateLimitExceeded { retry_after: 1000 }));
    assert_eq!(store.get("k"), Ok(Some(1)));
}

#[test]
fn clock_shows_a_time_after_the_epoch() {
    let mut store = MapStore::new();
    store.set("k", 1, 10).unwrap();

    assert_eq!(store.get_at("k", 0), Some(1));
    assert_eq!(store.get_at("k", 1_000_000_000), Some(1));
    assert_eq!(store.get_at("k", u64::MAX), None);
}
