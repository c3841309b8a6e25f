//! The counters and histograms that the controller keeps about itself.

use vstd::prelude::*;

verus! {

/// A span of time in whole nanoseconds.
pub type Nanos = u64;

/// `sum`, held at the largest `u64` where it would exceed it.
pub open spec fn saturated(sum: int) -> u64 {
    if sum > u64::MAX {
        u64::MAX
    } else {
        sum as u64
    }
}

/// A distribution of time spans, summarised by how many were seen and what
/// they add up to. Both saturate instead of wrapping round.
#[derive(Clone, Copy, Debug, PartialEq, Eq, Structural)]
pub struct Histogram {
    /// Number of samples observed.
    pub count: u64,
    /// Sum of the samples observed.
    pub total: Nanos,
}

impl Histogram {
    /// The histogram after one more sample.
    pub open spec fn observed(self, sample: Nanos) -> Histogram {
        Histogram { count: saturated(self.count + 1), total: saturated(self.total + sample) }
    }

    /// The histogram that has seen no sample.
    pub open spec fn empty() -> Histogram {
        Histogram { count: 0, total: 0 }
    }

    /// A histogram that has seen no sample.
    pub fn new() -> (histogram: Self)
        ensures
            histogram == Histogram::empty(),
    {
        Histogram { count: 0, total: 0 }
    }

    /// Adds one sample.
    pub fn observe(&mut self, sample: Nanos)
        ensures
            *final(self) == old(self).observed(sample),
    {
        self.count = self.count.saturating_add(1);
        self.total = self.total.saturating_add(sample);
    }
}

/// What one controller records: limiters that entered and left its
/// registry, how long acquisitions took, and how long each reclamation
/// pass kept its shard.
#[derive(Clone, Copy, Debug, PartialEq, Eq, Structural)]
pub struct ApiLockMetrics {
    /// Limiters created and put into the registry.
    pub semaphores_registered: u64,
    /// Limiters dropped from the registry by reclamation.
    pub semaphores_unregistered: u64,
    /// Time from the start of an acquisition to its grant or its timeout.
    pub semaphore_acquire_nanos: Histogram,
    /// Time one reclamation pass spent on its shard.
    pub reclamation_lag_nanos: Histogram,
}

impl ApiLockMetrics {
    /// The metrics after one limiter entered the registry.
    pub open spec fn registered(self) -> ApiLockMetrics {
        ApiLockMetrics { semaphores_registered: saturated(self.semaphores_registered + 1), ..self }
    }

    /// The metrics after `count` limiters left the registry.
    pub open spec fn unregistered(self, count: nat) -> ApiLockMetrics {
        ApiLockMetrics {
            semaphores_unregistered: saturated(self.semaphores_unregistered + count),
            ..self
        }
    }

    /// The metrics after an acquisition came to its end after `waited`.
    pub open spec fn acquired(self, waited: Nanos) -> ApiLockMetrics {
        ApiLockMetrics {
            semaphore_acquire_nanos: self.semaphore_acquire_nanos.observed(waited),
            ..self
        }
    }

    /// The metrics after a reclamation pass that took `lag`.
    pub open spec fn lagged(self, lag: Nanos) -> ApiLockMetrics {
        ApiLockMetrics { reclamation_lag_nanos: self.reclamation_lag_nanos.observed(lag), ..self }
    }

    /// Counts one limiter that entered the registry.
    pub fn inc_registered(&mut self)
        ensures
            *final(self) == old(self).registered(),
    {
        self.semaphores_registered = self.semaphores_registered.saturating_add(1);
    }

    /// Counts `count` limiters that left the registry.
    pub fn inc_unregistered(&mut self, count: usize)
        ensures
            *final(self) == old(self).unregistered(count as nat),
    {
        self.semaphores_unregistered = self.semaphores_unregistered.saturating_add(count as u64);
    }

    /// Records how long an acquisition took.
    pub fn observe_acquire(&mut self, waited: Nanos)
        ensures
            *final(self) == old(self).acquired(waited),
    {
        self.semaphore_acquire_nanos.observe(waited);
    }

    /// Records how long a reclamation pass took.
    pub fn observe_reclamation(&mut self, lag: Nanos)
        ensures
            *final(self) == old(self).lagged(lag),
    {
        self.reclamation_lag_nanos.observe(lag);
    }

    /// Metrics with every counter at zero and no sample seen.
    pub fn new() -> (metrics: Self)
        ensures
            metrics.semaphores_registered == 0,
            metrics.semaphores_unregistered == 0,
            metrics.semaphore_acquire_nanos == Histogram::empty(),
            metrics.reclamation_lag_nanos == Histogram::empty(),
    {
        ApiLockMetrics {
            semaphores_registered: 0,
            semaphores_unregistered: 0,
            semaphore_acquire_nanos: Histogram::new(),
            reclamation_lag_nanos: Histogram::new(),
        }
    }
}

} // verus!
