//! Time as the tracker counts it: whole seconds since the server started.

use std::time::Duration;
use std::time::Instant;
use vstd::prelude::*;

verus! {

#[verifier::external_type_specification]
#[verifier::external_body]
pub struct ExInstant(Instant);

/// Whole seconds that have passed since the server started.
#[derive(Clone, Copy, Debug, PartialEq, Eq, Structural)]
pub struct SecondsSinceServerStart(pub u64);

/// The last second, counted from the start of the server, at which an
/// entry is still live.
#[derive(Clone, Copy, Debug, PartialEq, Eq, Structural)]
pub struct ValidUntil(pub u64);

impl ValidUntil {
    /// The second that lies `offset_seconds` after `now`, or the last
    /// second that can be counted where that one cannot.
    pub open spec fn spec_new_with_now(
        now: SecondsSinceServerStart,
        offset_seconds: u64,
    ) -> ValidUntil {
        if now.0 + offset_seconds > u64::MAX {
            ValidUntil(u64::MAX)
        } else {
            ValidUntil((now.0 + offset_seconds) as u64)
        }
    }

    /// Whether an entry with this limit is live at `now`: it is up to
    /// and including the limit.
    pub open spec fn spec_valid(&self, now: SecondsSinceServerStart) -> bool {
        now.0 <= self.0
    }

    /// Limit of an entry that is to live for `offset_seconds` from `now`.
    #[verifier::when_used_as_spec(spec_new_with_now)]
    pub fn new_with_now(now: SecondsSinceServerStart, offset_seconds: u64) -> (r: ValidUntil)
        ensures
            r == Self::spec_new_with_now(now, offset_seconds),
    {
        if now.0 > u64::MAX - offset_seconds {
            ValidUntil(u64::MAX)
        } else {
            ValidUntil(now.0 + offset_seconds)
        }
    }

    /// Limit of an entry that is to live for `offset_seconds` from the
    /// moment of the call.
    pub fn new(start_instant: &ServerStartInstant, offset_seconds: u64) -> (r: ValidUntil)
        ensures
            exists|now: SecondsSinceServerStart| r == Self::spec_new_with_now(now, offset_seconds),
    {
        let now = start_instant.seconds_elapsed();
        Self::new_with_now(now, offset_seconds)
    }

    #[verifier::when_used_as_spec(spec_valid)]
    pub fn valid(&self, now: SecondsSinceServerStart) -> (r: bool)
        ensures
            r == self.spec_valid(now),
    {
        now.0 <= self.0
    }
}

/// `Instant::now` of std: the moment of the call.
#[verifier::external_body]
fn instant_now() -> Instant {
    Instant::now()
}

/// `Instant::elapsed` of std: the time that has passed since the instant.
#[verifier::external_body]
fn instant_elapsed(instant: &Instant) -> Duration {
    instant.elapsed()
}

/// `Duration::as_secs` of std: the whole seconds of the duration.
#[verifier::external_body]
fn duration_as_secs(duration: &Duration) -> u64 {
    duration.as_secs()
}

/// The moment at which the server started, from which all workers count.
#[derive(Clone, Copy, Debug)]
pub struct ServerStartInstant {
    start: Instant,
}

impl ServerStartInstant {
    /// Starts counting at the moment of the call.
    pub fn new() -> Self {
        ServerStartInstant { start: instant_now() }
    }

    /// The whole seconds that have passed since the start.
    pub fn seconds_elapsed(&self) -> SecondsSinceServerStart {
        let elapsed = instant_elapsed(&self.start);
        SecondsSinceServerStart(duration_as_secs(&elapsed))
    }
}

} // verus!
