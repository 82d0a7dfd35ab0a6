use std::collections::HashMap;
use web_access::rate_limit::{
    prune, IpAddr, LoginRateLimiter, WindowEntry, MAX_FAILURES, VERIFY_PERMITS, WINDOW,
};

const MILLISECOND: u128 = 1_000_000;

fn ip(last: u8) -> IpAddr {
    IpAddr::V4(0x7f00_0000 + last as u32)
}

#[test]
fn blocks_after_max_failures_and_recovers_after_window() {
    let mut l = LoginRateLimiter::new();
    let t0: u128 = 1_000_000_000;
    for _ in 0..MAX_FAILURES {
        assert!(l.allow_at(ip(1), t0));
        l.record_failure_at(ip(1), t0);
    }
    assert!(!l.allow_at(ip(1), t0));
    assert!(!l.allow_at(ip(1), t0 + WINDOW - MILLISECOND));
    assert!(l.allow_at(ip(1), t0 + WINDOW));
}

#[test]
fn success_clears_the_counter() {
    let mut l = LoginRateLimiter::new();
    let t0: u128 = 1_000_000_000;
    for _ in 0..MAX_FAILURES {
        l.record_failure_at(ip(1), t0);
    }
    assert!(!l.allow_at(ip(1), t0));
    l.record_success(ip(1));
    assert!(l.allow_at(ip(1), t0));
}

#[test]
fn ips_are_independent() {
    let mut l = LoginRateLimiter::new();
    let t0: u128 = 1_000_000_000;
    for _ in 0..MAX_FAILURES {
        l.record_failure_at(ip(1), t0);
    }
    assert!(!l.allow_at(ip(1), t0));
    assert!(l.allow_at(ip(2), t0), "another IP must not inherit the block");
}

#[test]
fn expired_entries_are_pruned_so_the_map_stays_bounded() {
    let mut l = LoginRateLimiter::new();
    let t0: u128 = 1_000_000_000;
    for last in 1..=100u8 {
        l.record_failure_at(ip(last), t0);
    }
    assert_eq!(l.len(), 100);
    assert!(l.allow_at(ip(1), t0 + WINDOW));
    assert_eq!(l.len(), 0);
}

#[test]
fn limits() {
    assert_eq!(MAX_FAILURES, 5);
    assert_eq!(WINDOW, 60 * 1000 * MILLISECOND);
    assert_eq!(VERIFY_PERMITS, 2);
}

#[test]
fn the_first_failure_fixes_the_window() {
    let mut l = LoginRateLimiter::default();
    for i in 0..5u128 {
        l.record_failure_at(ip(1), i * 10_000 * MILLISECOND);
    }
    assert!(!l.allow_at(ip(1), WINDOW - 1));
    assert!(l.allow_at(ip(1), WINDOW));
    assert_eq!(l.len(), 0);
    // A later failure opens a new window.
    l.record_failure_at(ip(1), WINDOW + 5);
    assert!(l.allow_at(ip(1), WINDOW + 5));
    assert_eq!(l.len(), 1);
}

#[test]
fn address_families_do_not_mix() {
    let mut l = LoginRateLimiter::new();
    for _ in 0..MAX_FAILURES {
        l.record_failure_at(IpAddr::V4(1), 7);
    }
    assert!(!l.allow_at(IpAddr::V4(1), 7));
    assert!(l.allow_at(IpAddr::V6(1), 7));
    l.record_failure_at(IpAddr::V6(1), 7);
    assert_eq!(l.len(), 2);
    for _ in 0..MAX_FAILURES {
        l.record_failure_at(IpAddr::V6(2), 7);
    }
    assert!(!l.allow_at(IpAddr::V6(2), 7));
    l.record_success_at(IpAddr::V6(2), 8);
    assert!(l.allow_at(IpAddr::V6(2), 8));
    assert!(!l.allow_at(IpAddr::V4(1), 8));
}

#[test]
fn an_earlier_reading_counts_as_no_time() {
    let mut l = LoginRateLimiter::new();
    for _ in 0..MAX_FAILURES {
        l.record_failure_at(ip(1), 500);
    }
    assert!(!l.allow_at(ip(1), 0));
    assert!(l.allow_at(ip(1), 500 + WINDOW));
}

#[test]
fn success_prunes_other_addresses_too() {
    let mut l = LoginRateLimiter::new();
    l.record_failure_at(ip(1), 0);
    l.record_failure_at(ip(2), 1);
    l.record_success_at(ip(3), WINDOW);
    assert_eq!(l.len(), 1);
}

#[test]
fn the_clock_is_read() {
    let mut l = LoginRateLimiter::new();
    assert!(l.allow(ip(1)));
    for _ in 0..MAX_FAILURES {
        l.record_failure(ip(1));
    }
    assert!(!l.allow(ip(1)));
    assert!(l.allow(ip(2)));
    l.record_success(ip(1));
    assert!(l.allow(ip(1)));
    let early: u128 = l.now();
    while l.now() == early {}
    assert!(l.now() > early);
}

#[test]
fn asking_is_not_an_attempt() {
    let mut l = LoginRateLimiter::new();
    for _ in 0..20 {
        assert!(l.allow_at(ip(1), 3));
    }
    assert_eq!(l.len(), 0);
}

#[test]
fn what_others_do_in_between_does_not_count() {
    let mut l = LoginRateLimiter::new();
    for t in 0..4u128 {
        l.record_failure_at(ip(1), t);
        l.record_failure_at(ip(2), t);
        l.record_success_at(ip(3), t);
        l.allow_at(ip(4), t);
    }
    assert!(l.allow_at(ip(1), 4));
    l.record_failure_at(ip(2), 4);
    assert!(l.allow_at(ip(1), 4));
    assert!(!l.allow_at(ip(2), 4));
    l.record_failure_at(ip(1), 5);
    assert!(!l.allow_at(ip(1), 5));
}

#[test]
fn pruning_keeps_the_live_entries_unchanged() {
    let mut entries: HashMap<u32, WindowEntry> = HashMap::new();
    for start in 0..4u32 {
        let e = WindowEntry { window_start: start as u128, failures: start + 1 };
        entries.insert(start, e);
    }
    for _ in 0..2 {
        prune(&mut entries, WINDOW + 1);
        assert_eq!(entries.len(), 2);
        assert_eq!(entries[&2], WindowEntry { window_start: 2, failures: 3 });
        assert_eq!(entries[&3], WindowEntry { window_start: 3, failures: 4 });
    }
    prune(&mut entries, 0);
    assert_eq!(entries.len(), 2);
}
