use aetherlink::mcp::lease::{
    as_secs, registry_time, AcquireResult, LeaseManager, ReleaseResult, LEASE_DURATION,
    NANOS_PER_SEC,
};

#[test]
fn first_acquire_is_granted() {
    let mut mgr = LeaseManager::new();
    let result = mgr.acquire("src/foo.rs");
    assert!(matches!(result, AcquireResult::Granted { .. }));
}

#[test]
fn second_acquire_on_same_file_is_denied() {
    let mut mgr = LeaseManager::new();
    let path = "src/foo.rs";
    let _ = mgr.acquire(path);
    let result = mgr.acquire(path);
    match result {
        AcquireResult::Denied { remaining } => {
            assert!(as_secs(remaining) > 0);
            assert!(remaining <= LEASE_DURATION as u128);
        }
        _ => panic!("expected Denied"),
    }
}

#[test]
fn different_files_dont_block_each_other() {
    let mut mgr = LeaseManager::new();
    let r1 = mgr.acquire("a.rs");
    let r2 = mgr.acquire("b.rs");
    assert!(matches!(r1, AcquireResult::Granted { .. }));
    assert!(matches!(r2, AcquireResult::Granted { .. }));
}

#[test]
fn release_active_lease_unlocks_file() {
    let mut mgr = LeaseManager::new();
    let path = "a.rs";
    let _ = mgr.acquire(path);
    assert_eq!(mgr.release(path), ReleaseResult::Released);
    // After release, a different caller can acquire immediately.
    assert!(matches!(mgr.acquire(path), AcquireResult::Granted { .. }));
}

#[test]
fn release_unknown_file_reports_not_held() {
    let mut mgr = LeaseManager::new();
    assert_eq!(mgr.release("never_locked.rs"), ReleaseResult::NotHeld);
}

#[test]
fn release_expired_lease_reports_already_expired() {
    let mut mgr = LeaseManager::new();
    let path = "a.rs";
    let now: u64 = 7 * NANOS_PER_SEC;
    let _ = mgr.acquire_at(path, now);
    let later = now + LEASE_DURATION + NANOS_PER_SEC;
    assert_eq!(mgr.release_at(path, later), ReleaseResult::AlreadyExpired);
}

#[test]
fn expired_lease_can_be_reacquired() {
    let mut mgr = LeaseManager::new();
    let path = "a.rs";
    let now: u64 = 7 * NANOS_PER_SEC;
    let _ = mgr.acquire_at(path, now);
    // Jump past the expiry.
    let later = now + LEASE_DURATION + NANOS_PER_SEC;
    let result = mgr.acquire_at(path, later);
    assert!(matches!(result, AcquireResult::Granted { .. }));
}

#[test]
fn lease_lasts_five_minutes_to_the_nanosecond() {
    assert_eq!(as_secs(LEASE_DURATION as u128), 300);
    let mut mgr = LeaseManager::new();
    let now: u64 = 1_000;
    assert_eq!(mgr.acquire_at("a.rs", now), AcquireResult::Granted { expires_in: LEASE_DURATION });
    assert_eq!(mgr.acquire_at("a.rs", now + LEASE_DURATION - 1), AcquireResult::Denied { remaining: 1 });
    assert_eq!(
        mgr.acquire_at("a.rs", now + LEASE_DURATION),
        AcquireResult::Granted { expires_in: LEASE_DURATION }
    );
}

#[test]
fn spellings_of_a_path_name_one_file() {
    let mut mgr = LeaseManager::new();
    mgr.acquire_at("src//./foo.rs", 0);
    assert!(matches!(mgr.acquire_at("src/foo.rs/", 1), AcquireResult::Denied { .. }));
    assert_eq!(mgr.release_at("src/foo.rs", 2), ReleaseResult::Released);
    assert_eq!(mgr.release_at("src/foo.rs", 2), ReleaseResult::NotHeld);
}

#[test]
fn denial_keeps_the_lease() {
    let mut mgr = LeaseManager::new();
    mgr.acquire_at("a.rs", 0);
    mgr.acquire_at("a.rs", 5);
    assert_eq!(mgr.release_at("a.rs", LEASE_DURATION), ReleaseResult::AlreadyExpired);
}

#[test]
fn the_time_stops_at_the_last_one() {
    assert_eq!(registry_time(0), 0);
    assert_eq!(registry_time(1_234_567_890), 1_234_567_890);
    assert_eq!(registry_time(u64::MAX as u128), u64::MAX);
    assert_eq!(registry_time(u64::MAX as u128 + 1), u64::MAX);
    let mut mgr = LeaseManager::new();
    assert_eq!(mgr.acquire_at("a.rs", u64::MAX), AcquireResult::Granted { expires_in: LEASE_DURATION });
    assert_eq!(
        mgr.acquire_at("a.rs", u64::MAX),
        AcquireResult::Denied { remaining: LEASE_DURATION as u128 }
    );
    assert_eq!(
        mgr.acquire_at("a.rs", 0),
        AcquireResult::Denied { remaining: u64::MAX as u128 + LEASE_DURATION as u128 }
    );
    assert_eq!(mgr.release_at("a.rs", u64::MAX), ReleaseResult::Released);
}

#[test]
fn refused_attempts_and_other_files_leave_a_lease_as_it_is() {
    let mut mgr = LeaseManager::new();
    mgr.acquire_at("a.rs", 10);
    mgr.acquire_at("b.rs", 20);
    assert!(matches!(mgr.acquire_at("a.rs/", LEASE_DURATION), AcquireResult::Denied { remaining: 10 }));
    mgr.release_at("b.rs", 30);
    assert_eq!(mgr.acquire_at("a.rs", LEASE_DURATION + 9), AcquireResult::Denied { remaining: 1 });
    assert_eq!(
        mgr.acquire_at("a.rs", LEASE_DURATION + 10),
        AcquireResult::Granted { expires_in: LEASE_DURATION }
    );
}
