//! The concurrency limiter that guards one key, and the token it hands out.

use vstd::prelude::*;

verus! {

/// The identity that admission is partitioned by.
pub type Key = u64;

/// The caller's verdict on the guarded operation, reported when a permit is
/// handed back.
#[derive(Clone, Copy, Debug, PartialEq, Eq, Structural)]
pub enum Outcome {
    /// The operation went through.
    Success,
    /// The operation was refused because the backend is overloaded.
    Overload,
}

/// Static configuration of every limiter of one controller.
#[derive(Clone, Copy, Debug, PartialEq, Eq, Structural)]
pub struct RateLimiterConfig {
    /// Concurrency budget a fresh limiter starts with. Zero switches
    /// admission control off altogether.
    pub initial_limit: usize,
}

/// The limiter of one key: a budget of slots, the slots that are taken, the
/// requests that wait for one, and the verdict that came with the slot
/// released last.
#[derive(Clone, Copy, Debug, PartialEq, Eq, Structural)]
pub struct DynamicLimiter {
    /// Number of permits that may be outstanding at once.
    pub limit: usize,
    /// Number of permits that are outstanding.
    pub in_flight: usize,
    /// Number of requests that have been told to wait for a slot and have
    /// neither been answered for good nor given up.
    pub waiting: usize,
    /// Verdict reported with the most recent release, if there was one.
    pub last_outcome: Option<Outcome>,
}

impl DynamicLimiter {
    /// No more slots are taken than the budget allows.
    pub open spec fn wf(self) -> bool {
        self.in_flight <= self.limit
    }

    /// Nobody refers to this limiter but the registry: no permit of it is
    /// out and no request waits for one.
    pub open spec fn idle(self) -> bool {
        self.in_flight == 0 && self.waiting == 0
    }

    /// The limiter with one more request waiting. The count stops at the
    /// largest number it can hold.
    pub open spec fn queued(self) -> DynamicLimiter {
        DynamicLimiter {
            waiting: if self.waiting < usize::MAX {
                (self.waiting + 1) as usize
            } else {
                self.waiting
            },
            ..self
        }
    }

    /// The limiter with one request less waiting, where one was.
    pub open spec fn resumed(self) -> DynamicLimiter {
        DynamicLimiter {
            waiting: if self.waiting > 0 {
                (self.waiting - 1) as usize
            } else {
                self.waiting
            },
            ..self
        }
    }

    /// The limiter with one more slot taken.
    pub open spec fn taken(self) -> DynamicLimiter {
        DynamicLimiter { in_flight: (self.in_flight + 1) as usize, ..self }
    }

    /// The limiter after a slot came back with `outcome`. A limiter without
    /// a taken slot has nothing to give back and stays as it is.
    pub open spec fn released(self, outcome: Outcome) -> DynamicLimiter {
        if self.in_flight > 0 {
            DynamicLimiter {
                in_flight: (self.in_flight - 1) as usize,
                last_outcome: Some(outcome),
                ..self
            }
        } else {
            self
        }
    }

    /// The limiter as it is made: the configured budget, no slot taken,
    /// nobody waiting, no verdict heard.
    pub open spec fn fresh(config: RateLimiterConfig) -> DynamicLimiter {
        DynamicLimiter {
            limit: config.initial_limit,
            in_flight: 0,
            waiting: 0,
            last_outcome: None,
        }
    }

    /// A limiter with the configured budget and no slot taken.
    pub fn new(config: RateLimiterConfig) -> (limiter: Self)
        ensures
            limiter == DynamicLimiter::fresh(config),
    {
        DynamicLimiter {
            limit: config.initial_limit,
            in_flight: 0,
            waiting: 0,
            last_outcome: None,
        }
    }

    /// Counts one more request that waits for a slot.
    pub fn enqueue(&mut self)
        ensures
            *final(self) == old(self).queued(),
    {
        if self.waiting < usize::MAX {
            self.waiting = self.waiting + 1;
        }
    }

    /// Counts one request less that waits for a slot.
    pub fn dequeue(&mut self)
        ensures
            *final(self) == old(self).resumed(),
    {
        if self.waiting > 0 {
            self.waiting = self.waiting - 1;
        }
    }

    /// Takes a slot if one is free, and says whether it did.
    pub fn try_acquire(&mut self) -> (granted: bool)
        ensures
            granted == (old(self).in_flight < old(self).limit),
            granted ==> *final(self) == old(self).taken(),
            !granted ==> *final(self) == *old(self),
    {
        if self.in_flight < self.limit {
            self.in_flight = self.in_flight + 1;
            true
        } else {
            false
        }
    }

    /// Gives a slot back together with the caller's verdict.
    pub fn release(&mut self, outcome: Outcome)
        ensures
            *final(self) == old(self).released(outcome),
    {
        if self.in_flight > 0 {
            self.in_flight = self.in_flight - 1;
            self.last_outcome = Some(outcome);
        }
    }

    /// Whether nobody holds a slot or waits for one, so that the limiter
    /// may be dropped.
    pub fn is_idle(&self) -> (idle: bool)
        ensures
            idle == self.idle(),
    {
        self.in_flight == 0 && self.waiting == 0
    }
}

/// What a successful acquisition hands out: the claim on one slot of the
/// limiter of `key`, or nothing at all where admission control is off.
#[derive(Debug)]
pub struct Token {
    limiter: Option<Key>,
}

impl Token {
    /// The key whose limiter issued the token; `None` for a disabled token.
    pub closed spec fn view(&self) -> Option<Key> {
        self.limiter
    }

    /// A token for one slot of the limiter of `key`.
    pub(crate) fn issued(key: Key) -> (token: Self)
        ensures
            token@ == Some(key),
    {
        Token { limiter: Some(key) }
    }

    /// The key whose limiter issued the token, if one did.
    pub fn limiter(&self) -> (key: Option<Key>)
        ensures
            key == self@,
    {
        self.limiter
    }

    /// A token that claims no slot.
    pub fn disabled() -> (token: Self)
        ensures
            token@.is_none(),
    {
        Token { limiter: None }
    }

    /// Whether the token claims no slot.
    pub fn is_disabled(&self) -> (disabled: bool)
        ensures
            disabled == self@.is_none(),
    {
        self.limiter.is_none()
    }
}

} // verus!
