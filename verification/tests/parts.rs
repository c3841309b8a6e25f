use std::time::Duration;

use api_locks::caches::{ApiCaches, CacheOptions, ProjectInfoCacheOptions};
use api_locks::client::{ControlPlaneCall, ControlPlaneClient, Route};
use api_locks::clock::{elapsed_since, saturating_nanos};
use api_locks::limiter::{DynamicLimiter, Outcome, RateLimiterConfig, Token};
use api_locks::error::ApiLockError;
use api_locks::locks::{power_of_two, Admission, ApiLocks};
use api_locks::metrics::{ApiLockMetrics, Histogram};
use tokio::time::Instant;

#[test]
fn a_fresh_limiter_has_its_budget_free() {
    let limiter = DynamicLimiter::new(RateLimiterConfig { initial_limit: 4 });
    assert_eq!(limiter, DynamicLimiter { limit: 4, in_flight: 0, waiting: 0, last_outcome: None });
    assert!(limiter.is_idle());
}

#[test]
fn a_limiter_grants_up_to_its_budget() {
    let mut limiter = DynamicLimiter::new(RateLimiterConfig { initial_limit: 2 });
    assert!(limiter.try_acquire());
    assert!(!limiter.is_idle());
    assert!(limiter.try_acquire());
    assert!(!limiter.try_acquire());
    assert_eq!(limiter.in_flight, 2);
    limiter.release(Outcome::Overload);
    assert_eq!(limiter, DynamicLimiter { limit: 2, in_flight: 1, waiting: 0, last_outcome: Some(Outcome::Overload) });
    assert!(limiter.try_acquire());
    limiter.release(Outcome::Success);
    limiter.release(Outcome::Success);
    assert!(limiter.is_idle());
}

#[test]
fn a_limiter_without_budget_grants_nothing() {
    let mut limiter = DynamicLimiter::new(RateLimiterConfig { initial_limit: 0 });
    assert!(!limiter.try_acquire());
    assert!(limiter.is_idle());
}

#[test]
fn releasing_an_idle_limiter_changes_nothing() {
    let mut limiter = DynamicLimiter::new(RateLimiterConfig { initial_limit: 1 });
    limiter.release(Outcome::Overload);
    assert_eq!(limiter, DynamicLimiter { limit: 1, in_flight: 0, waiting: 0, last_outcome: None });
}

#[test]
fn a_disabled_token_claims_nothing() {
    let token = Token::disabled();
    assert!(token.is_disabled());
    assert_eq!(token.limiter(), None);
}

#[test]
fn a_histogram_counts_and_sums() {
    let mut histogram = Histogram::new();
    assert_eq!((histogram.count, histogram.total), (0, 0));
    histogram.observe(5);
    histogram.observe(0);
    histogram.observe(12);
    assert_eq!((histogram.count, histogram.total), (3, 17));
}

#[test]
fn a_histogram_saturates() {
    let mut histogram = Histogram { count: u64::MAX, total: u64::MAX - 3 };
    histogram.observe(2);
    assert_eq!((histogram.count, histogram.total), (u64::MAX, u64::MAX - 1));
    histogram.observe(2);
    assert_eq!((histogram.count, histogram.total), (u64::MAX, u64::MAX));
}

#[test]
fn counters_count_and_saturate() {
    let mut metrics = ApiLockMetrics::new();
    metrics.inc_registered();
    metrics.inc_registered();
    metrics.inc_unregistered(5);
    metrics.inc_unregistered(0);
    metrics.observe_acquire(9);
    metrics.observe_reclamation(4);
    assert_eq!(metrics.semaphores_registered, 2);
    assert_eq!(metrics.semaphores_unregistered, 5);
    assert_eq!(metrics.semaphore_acquire_nanos.total, 9);
    assert_eq!(metrics.reclamation_lag_nanos.total, 4);

    let mut full = ApiLockMetrics {
        semaphores_registered: u64::MAX,
        semaphores_unregistered: u64::MAX - 1,
        ..ApiLockMetrics::new()
    };
    full.inc_registered();
    full.inc_unregistered(7);
    assert_eq!(full.semaphores_registered, u64::MAX);
    assert_eq!(full.semaphores_unregistered, u64::MAX);
}

#[test]
fn powers_of_two_are_told_apart() {
    for n in [1usize, 2, 4, 8, 1 << 20, 1 << (usize::BITS - 1)] {
        assert!(power_of_two(n), "{}", n);
    }
    for n in [0usize, 3, 5, 6, 7, 9, 10, 12, 1000, usize::MAX] {
        assert!(!power_of_two(n), "{}", n);
    }
}

#[test]
fn the_clock_tells_how_long_ago() {
    let now = Instant::now();
    let earlier = now.checked_sub(Duration::from_millis(250)).unwrap_or(now);
    let waited = elapsed_since(&earlier);
    if earlier != now {
        assert!(waited >= 250_000_000);
    }
    assert!(waited < 3_600_000_000_000);
    assert!(elapsed_since(&now) < 60_000_000_000);
}

#[test]
fn get_permit_reads_the_clock() {
    let mut locks = ApiLocks::new(
        "wake_compute",
        RateLimiterConfig { initial_limit: 1 },
        2,
        50_000_000,
        1_000_000_000,
        ApiLockMetrics::new(),
    )
    .unwrap();
    let now = Instant::now();
    let held = match locks.get_permit(&1, &now) {
        Ok(Admission::Granted(permit)) => permit,
        other => panic!("expected a permit, got {:?}", other),
    };
    assert_eq!(locks.metrics().semaphore_acquire_nanos.count, 1);

    let long_ago = now.checked_sub(Duration::from_millis(200));
    if let Some(started) = long_ago {
        let failed = locks.get_permit(&1, &started).unwrap_err();
        assert_eq!(failed, ApiLockError::TimeoutError);
        assert_eq!(locks.metrics().semaphore_acquire_nanos.count, 2);
        assert!(locks.metrics().semaphore_acquire_nanos.total >= 200_000_000);
    }

    let generous = ApiLocks::new(
        "wake_compute",
        RateLimiterConfig { initial_limit: 1 },
        2,
        3_600_000_000_000,
        3_600_000_000_000,
        ApiLockMetrics::new(),
    );
    let mut generous = generous.unwrap();
    let first = generous.get_permit(&1, &now);
    assert!(matches!(first, Ok(Admission::Granted(_))));
    match generous.get_permit(&1, &Instant::now()) {
        Ok(Admission::Wait { remaining, lease }) => {
            assert_eq!(lease.key(), 1);
            assert!(remaining <= 3_600_000_000_000);
            assert!(remaining > 3_000_000_000_000);
        }
        other => panic!("expected to wait, got {:?}", other),
    }
    held.release(&mut locks, Outcome::Success);
}

#[test]
fn caches_are_made_with_their_options() {
    let wake = CacheOptions { size: 4000, ttl: 240_000_000_000 };
    let projects = ProjectInfoCacheOptions {
        size: 10_000,
        ttl: 240_000_000_000,
        max_roles: 10,
        gc_interval: 3_600_000_000_000,
    };
    let caches = ApiCaches::new(wake, projects);
    assert_eq!(caches.node_info.options(), wake);
    assert_eq!(caches.project_info.options(), projects);
}

#[test]
fn calls_are_routed_by_backend() {
    let calls = [
        ControlPlaneCall::GetRoleAccessControl,
        ControlPlaneCall::GetEndpointAccessControl,
        ControlPlaneCall::GetEndpointJwks,
        ControlPlaneCall::WakeCompute,
    ];
    for client in [ControlPlaneClient::ProxyV1, ControlPlaneClient::PostgresMock] {
        for call in calls {
            assert!(client.supports(call));
            assert_eq!(client.route(call), Route::Backend);
        }
    }
    let double = ControlPlaneClient::Test;
    assert!(!double.supports(ControlPlaneCall::GetRoleAccessControl));
    assert!(double.supports(ControlPlaneCall::GetEndpointAccessControl));
    assert_eq!(double.route(ControlPlaneCall::GetEndpointAccessControl), Route::Backend);
    assert_eq!(double.route(ControlPlaneCall::GetEndpointJwks), Route::NoRules);
    assert_eq!(double.route(ControlPlaneCall::WakeCompute), Route::Backend);
}

#[test]
fn spans_beyond_the_largest_are_held_at_it() {
    assert_eq!(saturating_nanos(0), 0);
    assert_eq!(saturating_nanos(1_500_000_000), 1_500_000_000);
    assert_eq!(saturating_nanos(u64::MAX as u128), u64::MAX);
    assert_eq!(saturating_nanos(u64::MAX as u128 + 1), u64::MAX);
    assert_eq!(saturating_nanos(u128::MAX), u64::MAX);
}
