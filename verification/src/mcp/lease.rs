//! File leases: one agent at a time edits a file.
use vstd::hash_map::StringHashMap;
use vstd::prelude::*;

use crate::paths::{canonical, canonical_text, lemma_canonical, same_path};

verus! {

/// How long an acquired lease stays valid before auto-expiring, in nanoseconds.
pub const LEASE_DURATION: u64 = 300_000_000_000;

/// The number of nanoseconds of a second.
pub const NANOS_PER_SEC: u64 = 1_000_000_000;

/// The whole seconds of a time span in nanoseconds.
pub open spec fn seconds(nanos: u128) -> u128 {
    nanos / NANOS_PER_SEC as u128
}

/// The whole seconds of a time span in nanoseconds.
pub fn as_secs(nanos: u128) -> (s: u128)
    ensures
        s == seconds(nanos),
{
    nanos / NANOS_PER_SEC as u128
}

/// The type `std::time::Instant`.
#[verifier::external_type_specification]
#[verifier::external_body]
pub struct ExInstant(std::time::Instant);

/// `std::time::Instant::now`: some instant.
pub assume_specification[ std::time::Instant::now ]() -> std::time::Instant
;

/// `std::time::Instant::elapsed`, in nanoseconds: some time span.
#[verifier::external_body]
fn nanos_since(origin: &std::time::Instant) -> u128 {
    origin.elapsed().as_nanos()
}

/// The time at which a registry stands after `nanos` nanoseconds: it stops at
/// the last one that can be told.
pub open spec fn time_after(nanos: u128) -> u64 {
    if nanos <= u64::MAX {
        nanos as u64
    } else {
        u64::MAX
    }
}

/// The time at which a registry stands after `nanos` nanoseconds.
pub fn registry_time(nanos: u128) -> (now: u64)
    ensures
        now == time_after(nanos),
{
    if nanos <= u64::MAX as u128 {
        nanos as u64
    } else {
        u64::MAX
    }
}

/// Outcome of an `acquire_lease` call.
#[derive(Debug, Clone, Copy, PartialEq, Eq, Structural)]
pub enum AcquireResult {
    /// The lease is now held by the caller until `expires_in` nanoseconds from
    /// now.
    Granted {
        /// How long the lease is valid.
        expires_in: u64,
    },
    /// Another agent already holds an active lease on this file.
    Denied {
        /// How many nanoseconds the lease is still valid.
        remaining: u128,
    },
}

/// Outcome of a `release_lease` call.
#[derive(Debug, Clone, Copy, PartialEq, Eq, Structural)]
pub enum ReleaseResult {
    /// An active lease was released early: the file is now Open again.
    Released,
    /// The stored lease had already passed its expiry time. The slot was
    /// cleaned up, but the file was effectively already free.
    AlreadyExpired,
    /// No lease existed for that file at all.
    NotHeld,
}

/// Whether a lease on the file is active.
pub open spec fn is_locked(leases: Map<Seq<char>, int>, path: Seq<char>, now: u64) -> bool {
    leases.contains_key(canonical(path)) && leases[canonical(path)] > now
}

/// Whether the expiry of each lease is the duration of a lease after some time.
pub open spec fn expiries_hold(leases: Map<Seq<char>, int>) -> bool {
    forall|key: Seq<char>| #[trigger]
        leases.contains_key(key) ==> LEASE_DURATION <= leases[key] <= u64::MAX + LEASE_DURATION
}

/// What an attempt to acquire a lease does: the leases after it, and its
/// outcome.
pub open spec fn acquired(leases: Map<Seq<char>, int>, path: Seq<char>, now: u64) -> (
    Map<Seq<char>, int>,
    AcquireResult,
) {
    if is_locked(leases, path, now) {
        (leases, AcquireResult::Denied { remaining: (leases[canonical(path)] - now) as u128 })
    } else {
        (
            leases.insert(canonical(path), now + LEASE_DURATION),
            AcquireResult::Granted { expires_in: LEASE_DURATION },
        )
    }
}

/// What a release does: the leases after it, and its outcome.
pub open spec fn released(leases: Map<Seq<char>, int>, path: Seq<char>, now: u64) -> (
    Map<Seq<char>, int>,
    ReleaseResult,
) {
    (
        leases.remove(canonical(path)),
        if !leases.contains_key(canonical(path)) {
            ReleaseResult::NotHeld
        } else if leases[canonical(path)] <= now {
            ReleaseResult::AlreadyExpired
        } else {
            ReleaseResult::Released
        },
    )
}

/// In-memory file lease registry. Single-process only: sufficient because
/// AetherLink runs as one MCP server per project root.
///
/// Times are nanoseconds since the registry was made. Two spellings of a path
/// with the same components name the same file.
pub struct LeaseManager {
    /// When each lease was granted.
    leases: StringHashMap<u64>,
    origin: std::time::Instant,
}

impl View for LeaseManager {
    type V = Map<Seq<char>, int>;

    /// When the lease on each file expires, by the canonical text of its path.
    closed spec fn view(&self) -> Map<Seq<char>, int> {
        self.leases@.map_values(|granted: u64| granted + LEASE_DURATION)
    }
}

impl LeaseManager {
    /// A registry without leases.
    pub fn new() -> (m: LeaseManager)
        ensures
            m@ == Map::<Seq<char>, int>::empty(),
    {
        let m = LeaseManager {
            leases: StringHashMap::new(),
            origin: std::time::Instant::now(),
        };
        assert(m@ =~= Map::<Seq<char>, int>::empty());
        m
    }

    /// The time, in nanoseconds since the registry was made, as
    /// [`registry_time`] tells it. The clock decides which time that is.
    fn now(&self) -> u64 {
        registry_time(nanos_since(&self.origin))
    }

    /// Try to acquire a lease on `path`. Granted if the file is currently
    /// "Open" (no lease, or the previous lease has expired). Denied otherwise.
    pub fn acquire(&mut self, path: &str) -> (r: AcquireResult)
        ensures
            exists|now: u64| #[trigger] acquired(old(self)@, path@, now) == (final(self)@, r),
            !old(self)@.contains_key(canonical(path@)) ==> r == (AcquireResult::Granted {
                expires_in: LEASE_DURATION,
            }),
    {
        let now = self.now();
        self.acquire_at(path, now)
    }

    /// Same as `acquire`, but lets callers say when "now" is.
    pub fn acquire_at(&mut self, path: &str, now: u64) -> (r: AcquireResult)
        ensures
            (final(self)@, r) == acquired(old(self)@, path@, now),
    {
        let key = canonical_text(path);
        match self.leases.get(&key) {
            Some(granted) => {
                let expiry: u128 = *granted as u128 + LEASE_DURATION as u128;
                if expiry > now as u128 {
                    return AcquireResult::Denied { remaining: expiry - now as u128 };
                }
            },
            None => {},
        }
        self.leases.insert(key, now);
        assert(self@ =~= old(self)@.insert(canonical(path@), now + LEASE_DURATION));
        AcquireResult::Granted { expires_in: LEASE_DURATION }
    }

    /// Release a lease early. Returns the outcome so callers can distinguish
    /// "released an active lease" from "no lease was held" from "lease had
    /// already expired anyway".
    pub fn release(&mut self, path: &str) -> (r: ReleaseResult)
        ensures
            exists|now: u64| #[trigger] released(old(self)@, path@, now) == (final(self)@, r),
            final(self)@ == old(self)@.remove(canonical(path@)),
            r == ReleaseResult::NotHeld <==> !old(self)@.contains_key(canonical(path@)),
    {
        let now = self.now();
        self.release_at(path, now)
    }

    /// Same as `release`, but lets callers say when "now" is.
    pub fn release_at(&mut self, path: &str, now: u64) -> (r: ReleaseResult)
        ensures
            (final(self)@, r) == released(old(self)@, path@, now),
    {
        let key = canonical_text(path);
        let r = match self.leases.get(&key) {
            None => ReleaseResult::NotHeld,
            Some(granted) => if *granted as u128 + LEASE_DURATION as u128 <= now as u128 {
                ReleaseResult::AlreadyExpired
            } else {
                ReleaseResult::Released
            },
        };
        self.leases.remove(&key);
        assert(self@ =~= old(self)@.remove(canonical(path@)));
        r
    }
}

// ---------------------------------------------------------------------------
// Laws
// ---------------------------------------------------------------------------

/// A granted lease excludes others: until it expires, every attempt to acquire
/// the file is denied, under any spelling of its path, and afterwards it is
/// granted again.
pub proof fn law_lease_excludes(
    leases: Map<Seq<char>, int>,
    path: Seq<char>,
    now: u64,
    spelling: Seq<char>,
    later: u64,
)
    requires
        acquired(leases, path, now).1 is Granted,
        same_path(path, spelling),
    ensures
        later < now + LEASE_DURATION ==> acquired(
            acquired(leases, path, now).0,
            spelling,
            later,
        ).1 == (AcquireResult::Denied { remaining: (now + LEASE_DURATION - later) as u128 }),
        later >= now + LEASE_DURATION ==> acquired(
            acquired(leases, path, now).0,
            spelling,
            later,
        ).1 is Granted,
{
    lemma_canonical(path, spelling);
}

/// A call to the registry.
pub enum LeaseCall {
    /// An attempt to acquire a lease on a path, at a time.
    Acquire(Seq<char>, u64),
    /// A release of the lease on a path, at a time.
    Release(Seq<char>, u64),
}

/// The leases after a sequence of calls.
pub open spec fn after_calls(leases: Map<Seq<char>, int>, calls: Seq<LeaseCall>) -> Map<
    Seq<char>,
    int,
>
    decreases calls.len(),
{
    if calls.len() == 0 {
        leases
    } else {
        let before = after_calls(leases, calls.drop_last());
        match calls.last() {
            LeaseCall::Acquire(path, now) => acquired(before, path, now).0,
            LeaseCall::Release(path, now) => released(before, path, now).0,
        }
    }
}

/// Whether a call leaves a lease on `path` that was granted at `granted` in
/// place: it is about another file, or it tries to acquire the lease while it
/// is held.
pub open spec fn leaves_lease(call: LeaseCall, path: Seq<char>, granted: u64) -> bool {
    match call {
        LeaseCall::Acquire(other, now) => same_path(path, other) ==> now < granted
            + LEASE_DURATION,
        LeaseCall::Release(other, _) => !same_path(path, other),
    }
}

/// There is at most one holder at a time: whatever calls come after a lease was
/// granted, but for its release, the file stays locked for exactly the duration
/// of a lease. No refused attempt makes it longer or shorter.
pub proof fn law_lease_lasts(
    leases: Map<Seq<char>, int>,
    path: Seq<char>,
    granted: u64,
    calls: Seq<LeaseCall>,
    now: u64,
)
    requires
        acquired(leases, path, granted).1 is Granted,
        forall|i: int|
            0 <= i < calls.len() ==> leaves_lease(#[trigger] calls[i], path, granted),
    ensures
        ({
            let held = after_calls(acquired(leases, path, granted).0, calls);
            &&& held.contains_key(canonical(path))
            &&& held[canonical(path)] == granted + LEASE_DURATION
            &&& acquired(held, path, now).1 == (if now < granted + LEASE_DURATION {
                AcquireResult::Denied { remaining: (granted + LEASE_DURATION - now) as u128 }
            } else {
                AcquireResult::Granted { expires_in: LEASE_DURATION }
            })
        }),
    decreases calls.len(),
{
    if calls.len() > 0 {
        let front = calls.drop_last();
        assert forall|i: int| 0 <= i < front.len() implies leaves_lease(
            #[trigger] front[i],
            path,
            granted,
        ) by {
            assert(front[i] == calls[i]);
        }
        law_lease_lasts(leases, path, granted, front, now);
        assert(leaves_lease(calls[calls.len() - 1], path, granted));
        match calls.last() {
            LeaseCall::Acquire(other, _) => lemma_canonical(path, other),
            LeaseCall::Release(other, _) => lemma_canonical(path, other),
        }
    }
}

/// Different files don't block each other: neither acquiring nor releasing one
/// changes whether another is locked.
pub proof fn law_files_are_independent(
    leases: Map<Seq<char>, int>,
    path: Seq<char>,
    now: u64,
    other: Seq<char>,
    later: u64,
)
    requires
        !same_path(path, other),
    ensures
        is_locked(acquired(leases, path, now).0, other, later) == is_locked(leases, other, later),
        is_locked(released(leases, path, now).0, other, later) == is_locked(leases, other, later),
{
    lemma_canonical(path, other);
}

/// After a release the file is Open: the next attempt to acquire it is granted,
/// whenever it comes.
pub proof fn law_release_unlocks(
    leases: Map<Seq<char>, int>,
    path: Seq<char>,
    now: u64,
    later: u64,
)
    ensures
        acquired(released(leases, path, now).0, path, later).1 is Granted,
        released(released(leases, path, now).0, path, later).1 == ReleaseResult::NotHeld,
{
}

/// Every registry holds leases that were granted at some time.
pub proof fn law_expiries_hold(registry: LeaseManager)
    ensures
        expiries_hold(registry@),
{
}

/// A denied attempt changes nothing, and the time that it reports is positive.
/// It is at most the duration of a lease where the lease was granted no later
/// than the attempt.
pub proof fn law_denial_changes_nothing(
    leases: Map<Seq<char>, int>,
    path: Seq<char>,
    now: u64,
)
    requires
        expiries_hold(leases),
        acquired(leases, path, now).1 is Denied,
    ensures
        acquired(leases, path, now).0 == leases,
        acquired(leases, path, now).1->remaining > 0,
        leases[canonical(path)] <= now + LEASE_DURATION ==> acquired(
            leases,
            path,
            now,
        ).1->remaining <= LEASE_DURATION,
{
}

} // verus!
