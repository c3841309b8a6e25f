//! What can go wrong, and how it is classified.

use vstd::prelude::*;

verus! {

/// Why a controller could not be made from its configuration.
#[derive(Clone, Copy, Debug, PartialEq, Eq, Structural)]
pub enum ConfigError {
    /// The number of shards is not a power of two above one.
    InvalidShardCount,
    /// The epoch leaves less than a nanosecond for each shard.
    EpochTooShort,
}

/// How a failure is classified for those who report it upstream.
#[derive(Clone, Copy, Debug, PartialEq, Eq, Structural)]
pub enum ErrorKind {
    /// The caller asked for something that cannot be done.
    User,
    /// The caller has to slow down and may try again later.
    RateLimit,
    /// This service is at fault.
    Service,
    /// The control plane is at fault.
    ControlPlane,
}

/// Why no permit was handed out.
#[derive(Clone, Copy, Debug, PartialEq, Eq, Structural)]
pub enum ApiLockError {
    /// No slot came free within the configured wait.
    TimeoutError,
}

impl ApiLockError {
    /// The class this failure is reported under: a timed-out acquisition
    /// is a rate limit, which the caller may retry after.
    pub fn get_error_kind(&self) -> (kind: ErrorKind)
        ensures
            kind == ErrorKind::RateLimit,
    {
        match self {
            ApiLockError::TimeoutError => ErrorKind::RateLimit,
        }
    }

    /// The failure in words.
    pub fn message(&self) -> (text: &'static str)
        ensures
            text@ == "timeout acquiring resource permit"@,
    {
        match self {
            ApiLockError::TimeoutError => "timeout acquiring resource permit",
        }
    }
}

} // verus!
