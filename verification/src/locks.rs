//! The admission controller: the registry of limiters, what governs it, and
//! the permits it hands out.

use clashmap::ClashMap;
use tokio::time::Instant;
use vstd::arithmetic::power2::is_pow2;
use vstd::prelude::*;

use crate::clock::clock_now;
use crate::clock::elapsed_since;
use crate::error::ApiLockError;
use crate::error::ConfigError;
use crate::limiter::DynamicLimiter;
use crate::limiter::Key;
use crate::limiter::Outcome;
use crate::limiter::RateLimiterConfig;
use crate::limiter::Token;
use crate::metrics::ApiLockMetrics;
use crate::metrics::Nanos;
use crate::registry::registry_get;
use crate::registry::registry_get_or_insert;
use crate::registry::registry_put;
use crate::registry::registry_shard_count;
use crate::registry::registry_shards;
use crate::registry::registry_sweep;
use crate::registry::registry_with_shards;
use crate::shards::budgeted;
use crate::shards::empty_shards;
use crate::shards::entries;
use crate::shards::holds;
use crate::shards::idle_keys;
use crate::shards::lemma_budgeted_stored;
use crate::shards::lemma_budgeted_swept;
use crate::shards::lemma_holds_pair;
use crate::shards::lemma_limiter_of;
use crate::shards::lemma_stored;
use crate::shards::lemma_stored_same;
use crate::shards::lemma_stored_twice;
use crate::shards::lemma_swept;
use crate::shards::lemma_swept_len;
use crate::shards::partitioned;
use crate::shards::shard_of;
use crate::shards::stored;
use crate::shards::swept;
use crate::shards::Shards;

verus! {

/// The number of shards a registry can be made with.
pub open spec fn valid_shard_count(shards: usize) -> bool {
    shards > 1 && is_pow2(shards as int)
}

/// The time between two turns of the reclamation worker, which visits
/// every shard once in an epoch.
pub open spec fn tick_of(epoch: Nanos, shards: nat) -> Nanos {
    (epoch as nat / shards) as Nanos
}

/// The shard whose turn it is when the worker is handed `shard`.
pub open spec fn turn_of(shard: usize, shards: nat) -> usize {
    (shard as nat % shards) as usize
}

/// The shard whose turn comes after that of `turn`.
pub open spec fn next_shard(turn: usize, shards: nat) -> usize {
    ((turn + 1) as nat % shards) as usize
}

/// Whether `n` is a power of two.
pub fn power_of_two(n: usize) -> (yes: bool)
    ensures
        yes == is_pow2(n as int),
{
    if n == 0 {
        proof {
            reveal(is_pow2);
        }
        return false;
    }
    let mut rest: usize = n;
    while rest % 2 == 0
        invariant
            rest > 0,
            is_pow2(rest as int) == is_pow2(n as int),
        decreases rest,
    {
        proof {
            reveal(is_pow2);
        }
        rest = rest / 2;
    }
    proof {
        reveal(is_pow2);
    }
    rest == 1
}

/// The right to do the guarded work once. It is handed back with
/// [`WakeComputePermit::release`] or [`WakeComputePermit::release_result`]
/// on every path, whatever became of the work.
#[must_use]
#[derive(Debug)]
pub struct WakeComputePermit {
    permit: Token,
}

/// What a request for a permit is answered with while it has not failed.
#[must_use]
#[derive(Debug)]
pub enum Admission {
    /// The permit.
    Granted(WakeComputePermit),
    /// Every slot is taken, and the request is counted among those that
    /// wait. The caller asks again with the lease when a permit of this
    /// key has been released, and at the latest when `remaining` has
    /// passed.
    Wait {
        /// What is left of the configured wait.
        remaining: Nanos,
        /// The request's place among those that wait.
        lease: Lease,
    },
}

/// The place of a request that has been told to wait. While it is out, the
/// limiter of its key counts one request waiting and stays in the
/// registry. It goes back with [`ApiLocks::resume_permit`], which answers
/// the request again, or with [`ApiLocks::give_up`].
#[must_use]
#[derive(Debug)]
pub struct Lease {
    key: Key,
}

impl Lease {
    /// The key that the request is for.
    pub closed spec fn view(&self) -> Key {
        self.key
    }

    /// The key that the request is for.
    pub fn key(&self) -> (key: Key)
        ensures
            key == self@,
    {
        self.key
    }
}

/// What a request for a permit comes to, by the state it meets.
pub enum Verdict {
    /// Admission control is off: a disabled permit, at once.
    Bypass,
    /// A slot is free: a permit for it.
    Grant,
    /// No slot is free and the wait is over.
    Timeout,
    /// No slot is free yet, and this much of the wait is left.
    Wait(Nanos),
}

/// What the contracts say of a controller: its registry shard by shard,
/// and the values it was made with or has recorded.
pub struct ApiLocksView {
    /// Name under which the controller is known in logs and metrics.
    pub name: Seq<char>,
    /// The registry, shard by shard.
    pub shards: Shards,
    /// Configuration of every limiter.
    pub config: RateLimiterConfig,
    /// Longest wait for a slot.
    pub timeout: Nanos,
    /// Time in which reclamation visits every shard once.
    pub epoch: Nanos,
    /// What has been recorded so far.
    pub metrics: ApiLockMetrics,
}

/// Admission control for one rate-limited operation, partitioned by key.
pub struct ApiLocks {
    name: &'static str,
    node_locks: ClashMap<Key, DynamicLimiter>,
    config: RateLimiterConfig,
    timeout: Nanos,
    epoch: Nanos,
    metrics: ApiLockMetrics,
}

impl View for ApiLocks {
    type V = ApiLocksView;

    closed spec fn view(&self) -> ApiLocksView {
        ApiLocksView {
            name: self.name@,
            shards: registry_shards(self.node_locks),
            config: self.config,
            timeout: self.timeout,
            epoch: self.epoch,
            metrics: self.metrics,
        }
    }
}

impl ApiLocksView {
    /// The state a controller is always in: a valid number of shards, an
    /// epoch that gives each of them its turn, no key in two shards, and
    /// every limiter with the configured budget and within it.
    pub open spec fn wf(self) -> bool {
        &&& self.shards.len() <= usize::MAX
        &&& valid_shard_count(self.shards.len() as usize)
        &&& self.epoch >= self.shards.len()
        &&& partitioned(self.shards)
        &&& budgeted(self.shards, self.config.initial_limit)
    }

    /// Whether admission control is switched off.
    pub open spec fn disabled(self) -> bool {
        self.config.initial_limit == 0
    }

    /// All limiters of the registry by their keys.
    pub open spec fn entries(self) -> Map<Key, DynamicLimiter> {
        entries(self.shards)
    }

    /// The limiter that `key` is judged by: the one registered for it, or
    /// a fresh one where none is.
    pub open spec fn limiter(self, key: Key) -> DynamicLimiter {
        if self.entries().contains_key(key) {
            self.entries()[key]
        } else {
            DynamicLimiter::fresh(self.config)
        }
    }
}

impl ApiLocksView {
    /// What a request for a permit on `key` comes to after `waited`. It
    /// depends on the configuration and on the limiter of that key, and on
    /// no other.
    pub open spec fn verdict(self, key: Key, waited: Nanos) -> Verdict {
        if self.disabled() {
            Verdict::Bypass
        } else if self.limiter(key).in_flight < self.limiter(key).limit {
            Verdict::Grant
        } else if waited >= self.timeout {
            Verdict::Timeout
        } else {
            Verdict::Wait((self.timeout - waited) as Nanos)
        }
    }

    /// This state with the registry and the metrics of `after`: what a
    /// controller was made with never changes.
    pub open spec fn with(self, after: ApiLocksView) -> ApiLocksView {
        ApiLocksView { shards: after.shards, metrics: after.metrics, ..self }
    }

    /// `after` is this state once `key` has its limiter: nothing changes
    /// where it has one, and a fresh limiter is registered and counted
    /// where it has none.
    pub open spec fn resolved(self, after: ApiLocksView, key: Key) -> bool {
        &&& after == self.with(after)
        &&& after.shards.len() == self.shards.len()
        &&& after.entries() == self.entries().insert(key, self.limiter(key))
        &&& if self.entries().contains_key(key) {
            after == self
        } else {
            &&& stored(self.shards, after.shards, key, DynamicLimiter::fresh(self.config))
            &&& after.metrics == self.metrics.registered()
        }
    }

    /// The limiter that a request on `key` is judged by once its own place
    /// among those that wait is set aside: a request that comes back with
    /// its lease is `pending`, one that asks for the first time is not.
    pub open spec fn asked(self, key: Key, pending: bool) -> DynamicLimiter {
        if pending {
            self.limiter(key).resumed()
        } else {
            self.limiter(key)
        }
    }

    /// `after` is this state with `key` bound to `limiter` in the shard of
    /// the key, and with nothing else touched in the registry.
    pub open spec fn bound(self, after: ApiLocksView, key: Key, limiter: DynamicLimiter) -> bool {
        &&& stored(self.shards, after.shards, key, limiter)
        &&& after.entries() == self.entries().insert(key, limiter)
    }

    /// `after` and `result` are what a request for a permit on `key`
    /// leaves of this state after `waited`. A request that is told to wait
    /// is counted by the limiter from then on; the count is given up again
    /// when the request, back with its lease, is granted or times out.
    pub open spec fn admitted(
        self,
        after: ApiLocksView,
        key: Key,
        waited: Nanos,
        pending: bool,
        result: Result<Admission, ApiLockError>,
    ) -> bool {
        &&& after == self.with(after)
        &&& after.shards.len() == self.shards.len()
        &&& match self.verdict(key, waited) {
            Verdict::Bypass => {
                &&& result matches Ok(Admission::Granted(permit))
                &&& permit@ is None
                &&& after == self
            },
            Verdict::Grant => {
                &&& result matches Ok(Admission::Granted(permit))
                &&& permit@ == Some(key)
                &&& self.bound(after, key, self.asked(key, pending).taken())
                &&& after.metrics == if self.entries().contains_key(key) {
                    self.metrics.acquired(waited)
                } else {
                    self.metrics.registered().acquired(waited)
                }
            },
            Verdict::Timeout => {
                &&& result == Err::<Admission, ApiLockError>(ApiLockError::TimeoutError)
                &&& self.bound(after, key, self.asked(key, pending))
                &&& !pending ==> after.shards == self.shards
                &&& after.metrics == self.metrics.acquired(waited)
            },
            Verdict::Wait(remaining) => {
                &&& result matches Ok(Admission::Wait { remaining: left, lease })
                &&& left == remaining
                &&& lease@ == key
                &&& self.bound(after, key, self.asked(key, pending).queued())
                &&& after.metrics == self.metrics
            },
        }
    }

    /// `after` is this state once a request on `key` that was told to wait
    /// has given up: the limiter of the key counts one request less
    /// waiting. Where the key has no limiter, nothing changes.
    pub open spec fn abandoned(self, after: ApiLocksView, key: Key) -> bool {
        if self.entries().contains_key(key) {
            &&& after == self.with(after)
            &&& after.shards.len() == self.shards.len()
            &&& after.metrics == self.metrics
            &&& self.bound(after, key, self.limiter(key).resumed())
        } else {
            after == self
        }
    }

    /// `after` is this state once a permit of `holder` has come back with
    /// `outcome`: the limiter of the key has the slot again and has heard
    /// the verdict. A disabled permit, and one whose limiter is not
    /// registered, change nothing.
    pub open spec fn released(self, after: ApiLocksView, holder: Option<Key>, outcome: Outcome) -> bool {
        match holder {
            Some(key) if self.entries().contains_key(key) => {
                &&& after == self.with(after)
                &&& after.shards.len() == self.shards.len()
                &&& after.metrics == self.metrics
                &&& self.bound(after, key, self.limiter(key).released(outcome))
            },
            _ => after == self,
        }
    }

    /// This state after a reclamation pass was recorded to have taken
    /// `lag`.
    pub open spec fn lagged(self, lag: Nanos) -> ApiLocksView {
        ApiLocksView { metrics: self.metrics.lagged(lag), ..self }
    }

    /// The keys of shard `i` whose limiter nobody holds a slot of or waits
    /// for.
    pub open spec fn idle_in(self, i: int) -> Set<Key> {
        idle_keys(self.shards[i])
    }

    /// This state after shard `i` lost its idle limiters and they were
    /// counted.
    pub open spec fn reclaimed(self, i: int) -> ApiLocksView {
        ApiLocksView {
            shards: swept(self.shards, i),
            metrics: self.metrics.unregistered(self.idle_in(i).len()),
            ..self
        }
    }

    /// `after` and `next` are what one turn of the reclamation worker
    /// leaves of this state when it is handed `shard`. With admission
    /// control off, nothing. Otherwise the shard whose turn it is has been
    /// reclaimed, the time that took has been recorded, whatever it was,
    /// and `next` is the shard whose turn comes then.
    pub open spec fn worked(self, after: ApiLocksView, shard: usize, next: Option<usize>) -> bool {
        if self.disabled() {
            next.is_none() && after == self
        } else {
            &&& next == Some(next_shard(turn_of(shard, self.shards.len()), self.shards.len()))
            &&& exists|lag: Nanos|
                after == #[trigger] self.reclaimed(turn_of(shard, self.shards.len()) as int).lagged(
                    lag,
                )
        }
    }
}

impl WakeComputePermit {
    /// The key whose limiter gave the slot; `None` for a permit that was
    /// handed out with admission control off.
    pub closed spec fn view(&self) -> Option<Key> {
        self.permit@
    }

    /// The key whose limiter gave the slot, if one did.
    pub fn key(&self) -> (key: Option<Key>)
        ensures
            key == self@,
    {
        self.permit.limiter()
    }

    /// Whether what is cached downstream has to be looked at: yes, unless
    /// the permit was handed out with admission control off.
    pub fn should_check_cache(&self) -> (check: bool)
        ensures
            check == self@.is_some(),
    {
        !self.permit.is_disabled()
    }

    /// Hands the permit back with the caller's verdict, which reaches the
    /// limiter as it is.
    pub fn release(self, locks: &mut ApiLocks, outcome: Outcome)
        requires
            old(locks).wf(),
        ensures
            final(locks).wf(),
            old(locks)@.released(final(locks)@, self@, outcome),
    {
        match self.permit.limiter() {
            Some(key) => {
                locks.give_back(key, outcome);
            },
            None => {},
        }
    }

    /// Hands the permit back with `Success` where `res` is a value and
    /// with `Overload` where it is an error, and passes `res` on.
    pub fn release_result<T, E>(self, locks: &mut ApiLocks, res: Result<T, E>) -> (same: Result<
        T,
        E,
    >)
        requires
            old(locks).wf(),
        ensures
            same == res,
            final(locks).wf(),
            old(locks)@.released(
                final(locks)@,
                self@,
                if res is Ok {
                    Outcome::Success
                } else {
                    Outcome::Overload
                },
            ),
    {
        match &res {
            Ok(_) => self.release(locks, Outcome::Success),
            Err(_) => self.release(locks, Outcome::Overload),
        }
        res
    }
}

impl ApiLocks {
    /// The state a controller is always in.
    pub open spec fn wf(&self) -> bool {
        self@.wf()
    }

    /// A controller without any limiter, or the reason why the
    /// configuration cannot be used.
    pub fn new(
        name: &'static str,
        config: RateLimiterConfig,
        shards: usize,
        timeout: Nanos,
        epoch: Nanos,
        metrics: ApiLockMetrics,
    ) -> (made: Result<Self, ConfigError>)
        ensures
            made is Ok <==> valid_shard_count(shards) && epoch >= shards,
            made matches Ok(locks) ==> locks.wf() && locks@ == (ApiLocksView {
                name: name@,
                shards: empty_shards(shards as nat),
                config,
                timeout,
                epoch,
                metrics,
            }),
            made matches Err(error) ==> error == if valid_shard_count(shards) {
                ConfigError::EpochTooShort
            } else {
                ConfigError::InvalidShardCount
            },
    {
        if shards <= 1 || !power_of_two(shards) {
            return Err(ConfigError::InvalidShardCount);
        }
        if epoch < shards as u64 {
            return Err(ConfigError::EpochTooShort);
        }
        let node_locks = registry_with_shards(shards);
        Ok(ApiLocks { name, node_locks, config, timeout, epoch, metrics })
    }

    /// Name under which the controller is known in logs and metrics.
    pub fn name(&self) -> (name: &'static str)
        ensures
            name@ == self@.name,
    {
        self.name
    }

    /// Configuration of every limiter.
    pub fn config(&self) -> (config: RateLimiterConfig)
        ensures
            config == self@.config,
    {
        self.config
    }

    /// Longest wait for a slot.
    pub fn timeout(&self) -> (timeout: Nanos)
        ensures
            timeout == self@.timeout,
    {
        self.timeout
    }

    /// Time in which reclamation visits every shard once.
    pub fn epoch(&self) -> (epoch: Nanos)
        ensures
            epoch == self@.epoch,
    {
        self.epoch
    }

    /// What has been recorded so far.
    pub fn metrics(&self) -> (metrics: ApiLockMetrics)
        ensures
            metrics == self@.metrics,
    {
        self.metrics
    }

    /// Number of shards, which never changes.
    pub fn shard_count(&self) -> (count: usize)
        ensures
            count == self@.shards.len(),
    {
        registry_shard_count(&self.node_locks)
    }

    /// The limiter registered for `key`, if there is one.
    pub fn limiter(&self, key: &Key) -> (found: Option<DynamicLimiter>)
        requires
            self.wf(),
        ensures
            found == if self@.entries().contains_key(*key) {
                Some(self@.entries()[*key])
            } else {
                None
            },
    {
        let found = registry_get(&self.node_locks, key);
        proof {
            if let Some(limiter) = found {
                lemma_holds_pair(self@.shards, *key, limiter);
            }
        }
        found
    }

    /// The limiter of `key`, made and registered first where the key has
    /// none.
    pub fn get_or_create(&mut self, key: &Key) -> (limiter: DynamicLimiter)
        requires
            old(self).wf(),
        ensures
            final(self).wf(),
            limiter == old(self)@.limiter(*key),
            old(self)@.resolved(final(self)@, *key),
    {
        if let Some(limiter) = registry_get(&self.node_locks, key) {
            proof {
                lemma_holds_pair(self@.shards, *key, limiter);
                assert(entries(self@.shards) =~= entries(self@.shards).insert(*key, limiter));
            }
            return limiter;
        }
        let fresh = DynamicLimiter::new(self.config);
        let (limiter, created) = registry_get_or_insert(&mut self.node_locks, *key, fresh);
        if created {
            self.metrics.inc_registered();
        }
        proof {
            lemma_stored(old(self)@.shards, self@.shards, *key, fresh);
            lemma_budgeted_stored(
                old(self)@.shards,
                self@.shards,
                *key,
                fresh,
                self@.config.initial_limit,
            );
        }
        limiter
    }

    /// Binds `key`, which `found` is registered for, to `limiter`.
    fn bind(&mut self, key: Key, found: DynamicLimiter, limiter: DynamicLimiter)
        requires
            old(self).wf(),
            old(self)@.entries().contains_pair(key, found),
            limiter.limit == old(self)@.config.initial_limit,
            limiter.wf(),
        ensures
            final(self).wf(),
            final(self)@ == old(self)@.with(final(self)@),
            final(self)@.shards.len() == old(self)@.shards.len(),
            final(self)@.metrics == old(self)@.metrics,
            old(self)@.bound(final(self)@, key, limiter),
    {
        if limiter != found {
            registry_put(&mut self.node_locks, key, limiter);
            proof {
                lemma_stored(old(self)@.shards, self@.shards, key, limiter);
                lemma_budgeted_stored(
                    old(self)@.shards,
                    self@.shards,
                    key,
                    limiter,
                    self@.config.initial_limit,
                );
            }
        } else {
            proof {
                lemma_stored_same(self@.shards, key, limiter);
                assert(self@.entries() =~= self@.entries().insert(key, limiter));
            }
        }
    }

    /// Answers a request for a permit on `key` after `waited`, for the
    /// first time or, where it is `pending`, once more.
    fn answer(&mut self, key: Key, waited: Nanos, pending: bool) -> (result: Result<
        Admission,
        ApiLockError,
    >)
        requires
            old(self).wf(),
        ensures
            final(self).wf(),
            old(self)@.admitted(final(self)@, key, waited, pending, result),
    {
        if self.config.initial_limit == 0 {
            return Ok(Admission::Granted(WakeComputePermit { permit: Token::disabled() }));
        }
        let found = self.get_or_create(&key);
        let ghost resolved = self@;
        let mut limiter = found;
        if pending {
            limiter.dequeue();
        }
        let result = if limiter.try_acquire() {
            self.metrics.observe_acquire(waited);
            Ok(Admission::Granted(WakeComputePermit { permit: Token::issued(key) }))
        } else if waited >= self.timeout {
            self.metrics.observe_acquire(waited);
            Err(ApiLockError::TimeoutError)
        } else {
            limiter.enqueue();
            Ok(Admission::Wait { remaining: self.timeout - waited, lease: Lease { key } })
        };
        let ghost recorded = self@;
        self.bind(key, found, limiter);
        proof {
            if !old(self)@.entries().contains_key(key) {
                lemma_stored_twice(
                    old(self)@.shards,
                    resolved.shards,
                    self@.shards,
                    key,
                    DynamicLimiter::fresh(self@.config),
                    limiter,
                );
            }
            assert(self@.entries() =~= old(self)@.entries().insert(key, limiter));
            if limiter == found {
                lemma_stored_same(recorded.shards, key, limiter);
            }
        }
        result
    }

    /// Answers a request for a permit on `key` that asks for the first
    /// time, `waited` after it was made.
    pub fn get_permit_after(&mut self, key: &Key, waited: Nanos) -> (result: Result<
        Admission,
        ApiLockError,
    >)
        requires
            old(self).wf(),
        ensures
            final(self).wf(),
            old(self)@.admitted(final(self)@, *key, waited, false, result),
    {
        self.answer(*key, waited, false)
    }

    /// Answers a request for a permit on `key` that asks for the first
    /// time and was made at `started`: [`ApiLocks::get_permit_after`] with
    /// the time that has passed since, whatever the clock says it is. With
    /// admission control off the clock is not read.
    pub fn get_permit(&mut self, key: &Key, started: &Instant) -> (result: Result<
        Admission,
        ApiLockError,
    >)
        requires
            old(self).wf(),
        ensures
            final(self).wf(),
            exists|waited: Nanos| old(self)@.admitted(final(self)@, *key, waited, false, result),
    {
        let waited = if self.config.initial_limit == 0 {
            0
        } else {
            elapsed_since(started)
        };
        self.get_permit_after(key, waited)
    }

    /// Answers once more a request that was told to wait and comes back
    /// with its lease, `waited` after it was made.
    pub fn resume_permit_after(&mut self, lease: Lease, waited: Nanos) -> (result: Result<
        Admission,
        ApiLockError,
    >)
        requires
            old(self).wf(),
        ensures
            final(self).wf(),
            old(self)@.admitted(final(self)@, lease@, waited, true, result),
    {
        self.answer(lease.key, waited, true)
    }

    /// Answers once more a request that was made at `started`, was told to
    /// wait and comes back with its lease:
    /// [`ApiLocks::resume_permit_after`] with the time that has passed
    /// since, whatever the clock says it is.
    pub fn resume_permit(&mut self, lease: Lease, started: &Instant) -> (result: Result<
        Admission,
        ApiLockError,
    >)
        requires
            old(self).wf(),
        ensures
            final(self).wf(),
            exists|waited: Nanos| old(self)@.admitted(final(self)@, lease@, waited, true, result),
    {
        let waited = if self.config.initial_limit == 0 {
            0
        } else {
            elapsed_since(started)
        };
        self.resume_permit_after(lease, waited)
    }

    /// Takes back the lease of a request that does not wait any longer.
    pub fn give_up(&mut self, lease: Lease)
        requires
            old(self).wf(),
        ensures
            final(self).wf(),
            old(self)@.abandoned(final(self)@, lease@),
    {
        if let Some(found) = registry_get(&self.node_locks, &lease.key) {
            let mut limiter = found;
            limiter.dequeue();
            proof {
                lemma_holds_pair(self@.shards, lease.key, found);
                lemma_limiter_of(self@.shards, lease.key, shard_of(self@.shards, lease.key));
            }
            self.bind(lease.key, found, limiter);
        }
    }

    /// Takes a slot back for the limiter of `key`.
    fn give_back(&mut self, key: Key, outcome: Outcome)
        requires
            old(self).wf(),
        ensures
            final(self).wf(),
            old(self)@.released(final(self)@, Some(key), outcome),
    {
        if let Some(found) = registry_get(&self.node_locks, &key) {
            let mut limiter = found;
            limiter.release(outcome);
            proof {
                lemma_holds_pair(self@.shards, key, found);
                lemma_limiter_of(self@.shards, key, shard_of(self@.shards, key));
            }
            self.bind(key, found, limiter);
        }
    }

    /// The time between two turns of the reclamation worker, or `None`
    /// where admission control is off and the worker has nothing to do.
    pub fn tick_interval(&self) -> (interval: Option<Nanos>)
        requires
            self.wf(),
        ensures
            interval == if self@.disabled() {
                None
            } else {
                Some(tick_of(self@.epoch, self@.shards.len()))
            },
            interval matches Some(tick) ==> tick > 0,
    {
        if self.config.initial_limit == 0 {
            return None;
        }
        let shards = registry_shard_count(&self.node_locks);
        assert(self.epoch as nat / shards as nat > 0) by (nonlinear_arith)
            requires
                self.epoch >= shards > 0,
        ;
        Some(self.epoch / (shards as u64))
    }

    /// Drops from shard `shard` every limiter that nobody holds a slot of
    /// or waits for, counts them as unregistered, and returns their number.
    /// A shard that does not exist has nothing to drop.
    pub fn sweep_shard(&mut self, shard: usize) -> (count: usize)
        requires
            old(self).wf(),
        ensures
            final(self).wf(),
            shard < old(self)@.shards.len() ==> final(self)@ == old(self)@.reclaimed(shard as int)
                && count == old(self)@.idle_in(shard as int).len(),
            shard < old(self)@.shards.len() ==> final(self)@.entries() == old(self)@.entries().remove_keys(
                old(self)@.idle_in(shard as int),
            ) && old(self)@.idle_in(shard as int).subset_of(old(self)@.entries().dom()) && old(
                self,
            )@.idle_in(shard as int).finite(),
            shard >= old(self)@.shards.len() ==> final(self)@ == old(self)@ && count == 0,
            final(self)@.entries().len() + count == old(self)@.entries().len(),
    {
        if shard >= registry_shard_count(&self.node_locks) {
            return 0;
        }
        let count = registry_sweep(&mut self.node_locks, shard);
        self.metrics.inc_unregistered(count);
        proof {
            lemma_swept(old(self)@.shards, shard as int);
            lemma_swept_len(old(self)@.shards, shard as int);
            lemma_budgeted_swept(old(self)@.shards, shard as int, self@.config.initial_limit);
        }
        count
    }

    /// One turn of the reclamation worker. With admission control off it
    /// does nothing and returns `None`: the worker is done. Otherwise it
    /// sweeps the shard whose turn it is, `shard` counted round the number
    /// of shards, records how long that took from before the shard's lock
    /// was asked for until the dropped limiters were counted, and returns
    /// the shard whose turn is next, one tick interval later.
    pub fn garbage_collect_worker(&mut self, shard: usize) -> (next: Option<usize>)
        requires
            old(self).wf(),
        ensures
            final(self).wf(),
            old(self)@.worked(final(self)@, shard, next),
    {
        if self.config.initial_limit == 0 {
            return None;
        }
        let shards = registry_shard_count(&self.node_locks);
        let turn = shard % shards;
        let started = clock_now();
        self.sweep_shard(turn);
        let lag = elapsed_since(&started);
        self.metrics.observe_reclamation(lag);
        assert(self@ == old(self)@.reclaimed(turn as int).lagged(lag));
        Some((turn + 1) % shards)
    }
}

} // verus!
