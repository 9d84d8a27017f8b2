use llm_quota::UserId;
use llm_quota::rate_limiter::{RateBucket, RateLimit, RateLimiter, RateLimited, StoredBucket};

/// A stand-in for the durable store: (user id, kind name) -> record,
/// last write wins.
type Store = Vec<(i32, String, StoredBucket)>;

fn store_get(store: &Store, user: UserId, name: &str) -> Option<StoredBucket> {
    store
        .iter()
        .find(|(u, n, _)| *u == user.0 && n == name)
        .map(|(_, _, s)| *s)
}

fn store_save(store: &mut Store, user: UserId, name: &str, snap: StoredBucket) {
    if let Some(entry) = store
        .iter_mut()
        .find(|(u, n, _)| *u == user.0 && n == name)
    {
        entry.2 = snap;
    } else {
        store.push((user.0, name.to_string(), snap));
    }
}

/// One full check as the limiter's host drives it: hydrate from the store
/// on a cache miss, check, then write the snapshot through.
fn check(
    limiter: &mut RateLimiter,
    store: &mut Store,
    user: UserId,
    limit: &RateLimit,
    now_ms: u64,
) -> Result<(), RateLimited> {
    if !limiter.is_cached(user, limit.kind_id) {
        if let Some(saved) = store_get(store, user, &limit.db_name) {
            limiter.hydrate(user, limit, saved);
        }
    }
    let (result, snap) = limiter.check(user, limit, now_ms);
    store_save(store, user, &limit.db_name, snap);
    result
}

fn rate_limit_a() -> RateLimit {
    RateLimit {
        kind_id: 1,
        capacity: 2,
        refill_duration_ms: 2000,
        db_name: String::from("rate-limit-a"),
    }
}

fn rate_limit_b() -> RateLimit {
    RateLimit {
        kind_id: 2,
        capacity: 10,
        refill_duration_ms: 3000,
        db_name: String::from("rate-limit-b"),
    }
}

fn create_user(registry: &mut Vec<(String, String)>, email: &str, login: &str) -> UserId {
    registry.push((email.to_string(), login.to_string()));
    UserId(registry.len() as i32)
}

#[test]
fn test_rate_limiter() {
    let mut registry: Vec<(String, String)> = Vec::new();
    let user_1 = create_user(&mut registry, "user-1@zed.dev", "user-1");
    let user_2 = create_user(&mut registry, "user-2@zed.dev", "user-2");

    let mut store: Store = Vec::new();
    let mut now: u64 = 1_700_000_000_000;

    let mut rate_limiter = RateLimiter::new();

    // User 1 can access resource A two times before being rate-limited.
    check(&mut rate_limiter, &mut store, user_1, &rate_limit_a(), now).unwrap();
    check(&mut rate_limiter, &mut store, user_1, &rate_limit_a(), now).unwrap();
    check(&mut rate_limiter, &mut store, user_1, &rate_limit_a(), now).unwrap_err();

    // User 2 can access resource A and user 1 can access resource B.
    check(&mut rate_limiter, &mut store, user_2, &rate_limit_b(), now).unwrap();
    check(&mut rate_limiter, &mut store, user_1, &rate_limit_b(), now).unwrap();

    // After one second, user 1 can make another request before being
    // rate-limited again.
    now += 1000;
    check(&mut rate_limiter, &mut store, user_1, &rate_limit_a(), now).unwrap();
    check(&mut rate_limiter, &mut store, user_1, &rate_limit_a(), now).unwrap_err();

    // Rate limits are reloaded from the store, so user 1 is still
    // rate-limited for resource A after a restart.
    let mut rate_limiter = RateLimiter::new();
    check(&mut rate_limiter, &mut store, user_1, &rate_limit_a(), now).unwrap_err();
}

#[test]
fn fresh_bucket_allows_exactly_capacity_at_one_instant() {
    let mut limiter = RateLimiter::new();
    let limit = RateLimit {
        kind_id: 7,
        capacity: 5,
        refill_duration_ms: 5000,
        db_name: String::from("rate-limit-five"),
    };
    let now: u64 = 10_000;
    for _ in 0..5 {
        let (r, _) = limiter.check(UserId(3), &limit, now);
        assert!(r.is_ok());
    }
    for _ in 0..3 {
        let (r, _) = limiter.check(UserId(3), &limit, now);
        assert!(r.is_err());
    }
}

#[test]
fn one_token_earned_after_one_refill_interval() {
    let mut limiter = RateLimiter::new();
    let limit = rate_limit_a(); // capacity 2, window 2 s: 1 s per token
    let t0: u64 = 50_000;
    let (r, _) = limiter.check(UserId(9), &limit, t0);
    assert!(r.is_ok());
    let (r, _) = limiter.check(UserId(9), &limit, t0);
    assert!(r.is_ok());
    let (r, _) = limiter.check(UserId(9), &limit, t0);
    assert!(r.is_err());
    // One token's worth of time later: exactly one more check succeeds.
    let (r, snap) = limiter.check(UserId(9), &limit, t0 + 1000);
    assert!(r.is_ok());
    assert_eq!(snap.token_count, 0);
    assert_eq!(snap.last_refill_ms, t0 + 1000);
    let (r, _) = limiter.check(UserId(9), &limit, t0 + 1000);
    assert!(r.is_err());
}

#[test]
fn independent_pairs_do_not_interfere() {
    let mut limiter = RateLimiter::new();
    let limit = rate_limit_a();
    let now: u64 = 0;
    // Exhaust user 1's quota for resource A.
    limiter.check(UserId(1), &limit, now).0.unwrap();
    limiter.check(UserId(1), &limit, now).0.unwrap();
    limiter.check(UserId(1), &limit, now).0.unwrap_err();
    // User 2 on the same resource, and user 1 on another resource, are
    // unaffected.
    limiter.check(UserId(2), &limit, now).0.unwrap();
    limiter.check(UserId(1), &rate_limit_b(), now).0.unwrap();
}

#[test]
fn token_count_stays_within_bounds() {
    let mut bucket = RateBucket::new(3, 3000, 0);
    assert_eq!(bucket.capacity, 3);
    assert_eq!(bucket.token_count, 3);
    assert_eq!(bucket.refill_time_per_token_ms, 1000);
    let instants: [u64; 10] = [0, 0, 500, 1500, 1499, 100_000, 100_000, 99_000, 100_500, 101_500];
    for &t in instants.iter() {
        bucket.allow(t);
        assert!(bucket.token_count <= bucket.capacity);
        bucket.refill(t);
        assert!(bucket.token_count <= bucket.capacity);
    }
}

#[test]
fn refill_keeps_fractional_progress() {
    // capacity 2, window 2 s: one token per second.
    let mut bucket = RateBucket::new(2, 2000, 0);
    assert!(bucket.allow(0));
    assert!(bucket.allow(0));
    assert!(!bucket.allow(0));
    // 999 ms is not a full token's worth: nothing earned, and the anchor
    // must not advance (the progress is not lost).
    bucket.refill(999);
    assert_eq!(bucket.token_count, 0);
    assert_eq!(bucket.last_refill_ms, 0);
    // One more millisecond completes the token.
    assert!(bucket.allow(1000));
    assert!(!bucket.allow(1000));
}

#[test]
fn hydrated_bucket_resumes_persisted_state() {
    let mut limiter = RateLimiter::new();
    let limit = rate_limit_a();
    let stored = StoredBucket { token_count: 1, last_refill_ms: 4000 };
    limiter.hydrate(UserId(5), &limit, stored);
    // One token left in the record: one check succeeds, the next fails.
    let (r, _) = limiter.check(UserId(5), &limit, 4000);
    assert!(r.is_ok());
    let (r, _) = limiter.check(UserId(5), &limit, 4000);
    assert!(r.is_err());
}

#[test]
fn scenario_capacity_two_window_two_seconds() {
    let mut store: Store = Vec::new();
    let user = UserId(11);
    let limit = rate_limit_a(); // capacity 2, window 2 s
    let t0: u64 = 0;

    let mut limiter = RateLimiter::new();
    assert!(check(&mut limiter, &mut store, user, &limit, t0).is_ok());
    assert!(check(&mut limiter, &mut store, user, &limit, t0).is_ok());
    assert!(check(&mut limiter, &mut store, user, &limit, t0).is_err());

    // At t0 + 1 s one token has refilled.
    assert!(check(&mut limiter, &mut store, user, &limit, t0 + 1000).is_ok());
    assert!(check(&mut limiter, &mut store, user, &limit, t0 + 1000).is_err());

    // Restart at t0 + 1 s after all writes have landed: the persisted
    // state is exhausted, so the check is denied, not served fresh.
    let mut limiter = RateLimiter::new();
    assert!(check(&mut limiter, &mut store, user, &limit, t0 + 1000).is_err());
}
