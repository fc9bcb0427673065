use imagevault::catalog::Catalog;
use imagevault::limiter::{client_ip, ApiKeyRateLimiter, IpRateLimiter};

#[test]
fn ip_bucket_of_two_over_one_second() {
    // Capacity 2 refilled over 1 second: of 3 instantaneous requests
    // exactly 2 pass; after one full window the next passes again.
    let mut l = IpRateLimiter::new(2, 1000);
    let t0: u64 = 50_000;
    assert!(l.check("1.2.3.4", t0));
    assert!(l.check("1.2.3.4", t0));
    assert!(!l.check("1.2.3.4", t0));
    assert!(l.check("1.2.3.4", t0 + 1000));
}

#[test]
fn ip_buckets_are_independent() {
    let mut l = IpRateLimiter::new(1, 1000);
    let t0: u64 = 1_000;
    assert!(l.check("1.1.1.1", t0));
    assert!(!l.check("1.1.1.1", t0));
    assert!(l.check("2.2.2.2", t0));
}

#[test]
fn ip_bucket_refills_gradually() {
    let mut l = IpRateLimiter::new(2, 1000);
    let t0: u64 = 10_000;
    assert!(l.check("a", t0));
    assert!(l.check("a", t0));
    assert!(!l.check("a", t0));
    // Half a window refills half the capacity: one request's worth.
    assert!(l.check("a", t0 + 500));
    assert!(!l.check("a", t0 + 500));
}

#[test]
fn key_window_enforces_the_override() {
    let mut c = Catalog::new();
    c.generate_api_key("k1".to_string(), "alice".to_string(), Some(2), None, 0).unwrap();
    let mut l = ApiKeyRateLimiter::new(10, 1000);
    let t0: u64 = 5_000;
    assert!(l.check_rate_limit(&c, "k1", t0));
    assert!(l.check_rate_limit(&c, "k1", t0));
    assert!(!l.check_rate_limit(&c, "k1", t0));
    // Once the window slides past the stored timestamps, room returns.
    assert!(l.check_rate_limit(&c, "k1", t0 + 1001));
}

#[test]
fn key_without_override_is_unlimited() {
    let mut c = Catalog::new();
    c.generate_api_key("k1".to_string(), "alice".to_string(), None, None, 0).unwrap();
    let mut l = ApiKeyRateLimiter::new(1, 1000);
    for _ in 0..5 {
        assert!(l.check_rate_limit(&c, "k1", 7_000));
    }
}

#[test]
fn unknown_key_degrades_to_the_default() {
    let c = Catalog::new();
    let mut l = ApiKeyRateLimiter::new(2, 1000);
    let t0: u64 = 9_000;
    assert!(l.check_rate_limit(&c, "ghost", t0));
    assert!(l.check_rate_limit(&c, "ghost", t0));
    assert!(!l.check_rate_limit(&c, "ghost", t0));
}

#[test]
fn client_ip_prefers_the_trusted_header() {
    let real = "9.9.9.9".to_string();
    let fwd = "1.2.3.4, 5.6.7.8".to_string();
    assert_eq!(client_ip(Some(&real), Some(&fwd)), "9.9.9.9");
    assert_eq!(client_ip(None, Some(&fwd)), "1.2.3.4");
    assert_eq!(client_ip(None, None), "127.0.0.1");
}
