use api_locks::limiter::{DynamicLimiter, Outcome, RateLimiterConfig};
use api_locks::error::{ApiLockError, ConfigError, ErrorKind};
use api_locks::locks::{Admission, ApiLocks, Lease, WakeComputePermit};
use api_locks::metrics::ApiLockMetrics;

const MILLI: u64 = 1_000_000;
const SECOND: u64 = 1_000_000_000;

fn controller(limit: usize, shards: usize) -> ApiLocks {
    ApiLocks::new(
        "wake_compute",
        RateLimiterConfig { initial_limit: limit },
        shards,
        100 * MILLI,
        SECOND,
        ApiLockMetrics::new(),
    )
    .unwrap()
}

fn granted(answer: Result<Admission, ApiLockError>) -> WakeComputePermit {
    match answer {
        Ok(Admission::Granted(permit)) => permit,
        other => panic!("expected a permit, got {:?}", other),
    }
}

fn told_to_wait(answer: Result<Admission, ApiLockError>) -> (u64, Lease) {
    match answer {
        Ok(Admission::Wait { remaining, lease }) => (remaining, lease),
        other => panic!("expected to wait, got {:?}", other),
    }
}

#[test]
fn one_slot_is_held_while_another_key_goes_through() {
    let mut locks = controller(1, 2);
    let ep1 = 1u64;
    let ep2 = 2u64;

    let held = granted(locks.get_permit_after(&ep1, 0));
    assert!(held.should_check_cache());
    assert_eq!(held.key(), Some(ep1));

    let (remaining, lease) = told_to_wait(locks.get_permit_after(&ep1, 0));
    assert_eq!(remaining, 100 * MILLI);
    assert_eq!(lease.key(), ep1);
    assert_eq!(locks.limiter(&ep1).unwrap().waiting, 1);
    let failed = locks.resume_permit_after(lease, 100 * MILLI).unwrap_err();
    assert_eq!(failed, ApiLockError::TimeoutError);
    assert_eq!(failed.get_error_kind(), ErrorKind::RateLimit);
    assert_eq!(locks.limiter(&ep1).unwrap().waiting, 0);

    let other = granted(locks.get_permit_after(&ep2, 0));
    assert_eq!(other.key(), Some(ep2));

    assert_eq!(locks.limiter(&ep1).unwrap().in_flight, 1);
    assert_eq!(locks.limiter(&ep2).unwrap().in_flight, 1);
    held.release(&mut locks, Outcome::Success);
    other.release(&mut locks, Outcome::Success);
}

#[test]
fn disabled_controller_hands_out_disabled_permits() {
    let mut locks = controller(0, 2);
    let any = 77u64;
    let permit = granted(locks.get_permit_after(&any, 0));
    assert!(!permit.should_check_cache());
    assert_eq!(permit.key(), None);
    assert!(locks.limiter(&any).is_none());
    assert_eq!(locks.metrics().semaphores_registered, 0);
    assert_eq!(locks.metrics().semaphore_acquire_nanos.count, 0);

    let late = granted(locks.get_permit_after(&any, 5 * SECOND));
    assert!(!late.should_check_cache());
    assert!(locks.limiter(&any).is_none());

    permit.release(&mut locks, Outcome::Overload);
    assert!(locks.limiter(&any).is_none());
    assert_eq!(late.release_result(&mut locks, Ok::<u8, u8>(3)), Ok(3));
    assert!(locks.limiter(&any).is_none());
}

#[test]
fn budget_bounds_the_permits_of_a_key() {
    let mut locks = controller(2, 4);
    let key = 9u64;
    let first = granted(locks.get_permit_after(&key, 0));
    let second = granted(locks.get_permit_after(&key, 0));
    let (_, lease) = told_to_wait(locks.get_permit_after(&key, 0));
    assert_eq!(
        locks.limiter(&key),
        Some(DynamicLimiter { limit: 2, in_flight: 2, waiting: 1, last_outcome: None })
    );
    first.release(&mut locks, Outcome::Success);
    assert_eq!(locks.limiter(&key).unwrap().in_flight, 1);
    let third = granted(locks.resume_permit_after(lease, 40 * MILLI));
    assert_eq!(
        locks.limiter(&key),
        Some(DynamicLimiter {
            limit: 2,
            in_flight: 2,
            waiting: 0,
            last_outcome: Some(Outcome::Success)
        })
    );
    second.release(&mut locks, Outcome::Success);
    third.release(&mut locks, Outcome::Success);
    assert_eq!(locks.limiter(&key).unwrap().in_flight, 0);
}

#[test]
fn what_is_left_of_the_wait_is_exact() {
    let mut locks = controller(1, 2);
    let key = 4u64;
    let _held = granted(locks.get_permit_after(&key, 0));
    let (remaining, lease) = told_to_wait(locks.get_permit_after(&key, 30 * MILLI));
    assert_eq!(remaining, 70 * MILLI);
    let (remaining, lease) = told_to_wait(locks.resume_permit_after(lease, 100 * MILLI - 1));
    assert_eq!(remaining, 1);
    assert_eq!(locks.limiter(&key).unwrap().waiting, 1);
    assert!(locks.resume_permit_after(lease, 100 * MILLI).is_err());
    assert_eq!(locks.limiter(&key).unwrap().waiting, 0);
    assert!(locks.get_permit_after(&key, u64::MAX).is_err());
    assert_eq!(locks.limiter(&key).unwrap().waiting, 0);
}

#[test]
fn a_free_slot_is_granted_however_long_the_wait_was() {
    let mut locks = controller(1, 2);
    let permit = granted(locks.get_permit_after(&1, 10 * SECOND));
    assert!(permit.should_check_cache());
}

#[test]
fn zero_timeout_fails_at_once_when_no_slot_is_free() {
    let mut locks = ApiLocks::new(
        "wake_compute",
        RateLimiterConfig { initial_limit: 1 },
        2,
        0,
        SECOND,
        ApiLockMetrics::new(),
    )
    .unwrap();
    let _held = granted(locks.get_permit_after(&1, 0));
    assert_eq!(locks.get_permit_after(&1, 0).unwrap_err(), ApiLockError::TimeoutError);
}

#[test]
fn acquisitions_are_measured() {
    let mut locks = controller(1, 2);
    let key = 3u64;
    let _held = granted(locks.get_permit_after(&key, 7));
    assert_eq!(locks.metrics().semaphore_acquire_nanos.count, 1);
    assert_eq!(locks.metrics().semaphore_acquire_nanos.total, 7);

    let (_, lease) = told_to_wait(locks.get_permit_after(&key, 50 * MILLI));
    assert_eq!(locks.metrics().semaphore_acquire_nanos.count, 1);

    assert!(locks.resume_permit_after(lease, 101 * MILLI).is_err());
    assert_eq!(locks.metrics().semaphore_acquire_nanos.count, 2);
    assert_eq!(locks.metrics().semaphore_acquire_nanos.total, 7 + 101 * MILLI);
}

#[test]
fn a_key_gets_one_limiter() {
    let mut locks = controller(3, 8);
    let key = 42u64;
    assert!(locks.limiter(&key).is_none());
    let first = locks.get_or_create(&key);
    assert_eq!(first, DynamicLimiter { limit: 3, in_flight: 0, waiting: 0, last_outcome: None });
    assert_eq!(locks.metrics().semaphores_registered, 1);
    let permit = granted(locks.get_permit_after(&key, 0));
    let again = locks.get_or_create(&key);
    assert_eq!(again, DynamicLimiter { limit: 3, in_flight: 1, waiting: 0, last_outcome: None });
    assert_eq!(locks.limiter(&key), Some(again));
    assert_eq!(locks.metrics().semaphores_registered, 1);
    locks.get_or_create(&43);
    assert_eq!(locks.metrics().semaphores_registered, 2);
    assert_eq!(locks.limiter(&key), Some(again));
    permit.release(&mut locks, Outcome::Success);
}

#[test]
fn the_verdict_reaches_the_limiter() {
    let mut locks = controller(2, 2);
    let key = 5u64;
    let first = granted(locks.get_permit_after(&key, 0));
    let second = granted(locks.get_permit_after(&key, 0));
    first.release(&mut locks, Outcome::Overload);
    assert_eq!(
        locks.limiter(&key),
        Some(DynamicLimiter { limit: 2, in_flight: 1, waiting: 0, last_outcome: Some(Outcome::Overload) })
    );
    second.release(&mut locks, Outcome::Success);
    assert_eq!(
        locks.limiter(&key),
        Some(DynamicLimiter { limit: 2, in_flight: 0, waiting: 0, last_outcome: Some(Outcome::Success) })
    );
}

#[test]
fn release_result_passes_the_result_on() {
    let mut locks = controller(2, 2);
    let key = 6u64;
    let first = granted(locks.get_permit_after(&key, 0));
    let out: Result<&str, u32> = first.release_result(&mut locks, Ok("node"));
    assert_eq!(out, Ok("node"));
    assert_eq!(locks.limiter(&key).unwrap().last_outcome, Some(Outcome::Success));

    let second = granted(locks.get_permit_after(&key, 0));
    let out: Result<&str, u32> = second.release_result(&mut locks, Err(503));
    assert_eq!(out, Err(503));
    assert_eq!(locks.limiter(&key).unwrap().last_outcome, Some(Outcome::Overload));
    assert_eq!(locks.limiter(&key).unwrap().in_flight, 0);
}

#[test]
fn a_permit_of_another_controller_changes_nothing() {
    let mut here = controller(1, 2);
    let mut there = controller(1, 2);
    let permit = granted(there.get_permit_after(&8, 0));
    permit.release(&mut here, Outcome::Success);
    assert!(here.limiter(&8).is_none());
    assert_eq!(there.limiter(&8).unwrap().in_flight, 1);
}

#[test]
fn shard_count_must_be_a_power_of_two_above_one() {
    for shards in [0usize, 1, 3, 5, 6, 7, 12, 100, usize::MAX] {
        let made = ApiLocks::new(
            "x",
            RateLimiterConfig { initial_limit: 1 },
            shards,
            1,
            u64::MAX,
            ApiLockMetrics::new(),
        );
        assert_eq!(made.err(), Some(ConfigError::InvalidShardCount), "{}", shards);
    }
    for shards in [2usize, 4, 8, 64, 1024] {
        let made = ApiLocks::new(
            "x",
            RateLimiterConfig { initial_limit: 1 },
            shards,
            1,
            SECOND,
            ApiLockMetrics::new(),
        );
        assert_eq!(made.unwrap().shard_count(), shards);
    }
}

#[test]
fn epoch_must_give_every_shard_its_turn() {
    let config = RateLimiterConfig { initial_limit: 1 };
    let short = ApiLocks::new("x", config, 4, 1, 3, ApiLockMetrics::new());
    assert_eq!(short.err(), Some(ConfigError::EpochTooShort));
    let none = ApiLocks::new("x", config, 2, 1, 0, ApiLockMetrics::new());
    assert_eq!(none.err(), Some(ConfigError::EpochTooShort));
    let both = ApiLocks::new("x", config, 3, 1, 0, ApiLockMetrics::new());
    assert_eq!(both.err(), Some(ConfigError::InvalidShardCount));
    let enough = ApiLocks::new("x", config, 4, 1, 4, ApiLockMetrics::new()).unwrap();
    assert_eq!(enough.tick_interval(), Some(1));
}

#[test]
fn a_controller_keeps_what_it_was_made_with() {
    let metrics = ApiLockMetrics {
        semaphores_registered: 3,
        semaphores_unregistered: 2,
        ..ApiLockMetrics::new()
    };
    let locks = ApiLocks::new(
        "wake_compute",
        RateLimiterConfig { initial_limit: 5 },
        16,
        100 * MILLI,
        SECOND,
        metrics,
    )
    .unwrap();
    assert_eq!(locks.name(), "wake_compute");
    assert_eq!(locks.config().initial_limit, 5);
    assert_eq!(locks.timeout(), 100 * MILLI);
    assert_eq!(locks.epoch(), SECOND);
    assert_eq!(locks.shard_count(), 16);
    assert_eq!(locks.metrics().semaphores_registered, 3);
    assert_eq!(locks.metrics().semaphores_unregistered, 2);
    assert!(locks.limiter(&0).is_none());
}

#[test]
fn timeout_error_reads_as_a_rate_limit() {
    let error = ApiLockError::TimeoutError;
    assert_eq!(error.message(), "timeout acquiring resource permit");
    assert_eq!(error.get_error_kind(), ErrorKind::RateLimit);
}

#[test]
fn a_request_that_waits_is_counted_until_it_is_answered() {
    let mut locks = controller(1, 2);
    let key = 12u64;
    let held = granted(locks.get_permit_after(&key, 0));
    let (_, first) = told_to_wait(locks.get_permit_after(&key, 0));
    let (_, second) = told_to_wait(locks.get_permit_after(&key, 0));
    assert_eq!(locks.limiter(&key).unwrap().waiting, 2);

    let (_, first) = told_to_wait(locks.resume_permit_after(first, 10 * MILLI));
    assert_eq!(locks.limiter(&key).unwrap().waiting, 2);

    locks.give_up(second);
    assert_eq!(locks.limiter(&key).unwrap().waiting, 1);

    held.release(&mut locks, Outcome::Success);
    let permit = granted(locks.resume_permit_after(first, 20 * MILLI));
    assert_eq!(
        locks.limiter(&key),
        Some(DynamicLimiter {
            limit: 1,
            in_flight: 1,
            waiting: 0,
            last_outcome: Some(Outcome::Success)
        })
    );
    permit.release(&mut locks, Outcome::Success);
}

#[test]
fn a_lease_without_a_limiter_is_a_first_request() {
    let mut here = controller(1, 2);
    let mut there = controller(1, 2);
    let _held = granted(there.get_permit_after(&5, 0));
    let (_, lease) = told_to_wait(there.get_permit_after(&5, 0));
    let permit = granted(here.resume_permit_after(lease, 0));
    assert_eq!(
        here.limiter(&5),
        Some(DynamicLimiter { limit: 1, in_flight: 1, waiting: 0, last_outcome: None })
    );
    assert_eq!(here.metrics().semaphores_registered, 1);
    permit.release(&mut here, Outcome::Success);

    let (_, stray) = told_to_wait(there.get_permit_after(&5, 0));
    let mut empty = controller(1, 2);
    empty.give_up(stray);
    assert!(empty.limiter(&5).is_none());
}

#[test]
fn the_count_of_those_that_wait_stops_at_its_largest() {
    let mut limiter = DynamicLimiter { limit: 1, in_flight: 1, waiting: usize::MAX - 1, last_outcome: None };
    limiter.enqueue();
    assert_eq!(limiter.waiting, usize::MAX);
    limiter.enqueue();
    assert_eq!(limiter.waiting, usize::MAX);
    limiter.dequeue();
    assert_eq!(limiter.waiting, usize::MAX - 1);
    let mut none = DynamicLimiter { limit: 1, in_flight: 0, waiting: 0, last_outcome: None };
    none.dequeue();
    assert_eq!(none.waiting, 0);
    assert!(none.is_idle());
    none.enqueue();
    assert!(!none.is_idle());
}
