//! The two seams to the outside world that the core needs: a seedable
//! pseudo-random generator and a monotonic clock.
use vstd::prelude::*;

pub mod rand;

verus! {

#[verifier::external_type_specification]
#[verifier::external_body]
pub struct ExRand64(oorandom::Rand64);

/// The pseudo-random generator that gossip target selection draws from.
pub type Rng = oorandom::Rand64;

/// Relies on oorandom's `Rand64::new`: a generator seeded with `seed`.
pub assume_specification[ oorandom::Rand64::new ](seed: u128) -> oorandom::Rand64;

/// Relies on oorandom's `Rand64::rand_u64`: the next 64 random bits.
pub assume_specification[ oorandom::Rand64::rand_u64 ](generator: &mut oorandom::Rand64) -> u64;

/// Relies on oorandom's `Rand64::rand_range`: a draw from `start..end`; the
/// range must not be empty.
pub assume_specification[ oorandom::Rand64::rand_range ](
    generator: &mut oorandom::Rand64,
    range: core::ops::Range<u64>,
) -> (r: u64)
    requires
        range.start < range.end,
    ensures
        range.start <= r < range.end,
;

/// A generator seeded with `seed`; the same seed gives the same draws.
pub fn rng(seed: u128) -> Rng {
    oorandom::Rand64::new(seed)
}

#[verifier::external_type_specification]
#[verifier::external_body]
pub struct ExInstant(std::time::Instant);

/// Relies on `Instant::now`: the current reading of the monotonic clock.
pub assume_specification[ std::time::Instant::now ]() -> std::time::Instant;

/// Relies on `Instant::duration_since` and `Duration::as_nanos`: the
/// nanoseconds from `earlier` to `later`, or zero if `earlier` is later.
#[verifier::external_body]
fn nanos_between(earlier: &std::time::Instant, later: &std::time::Instant) -> u128 {
    later.duration_since(*earlier).as_nanos()
}

/// A captured instant of the monotonic clock.
#[derive(Debug)]
pub struct Touch {
    at: std::time::Instant,
}

impl Touch {
    /// The current instant.
    pub fn now() -> Touch {
        Touch { at: std::time::Instant::now() }
    }

    /// Nanoseconds elapsed since this instant.
    pub fn age_nanos(&self) -> u128 {
        let now = std::time::Instant::now();
        nanos_between(&self.at, &now)
    }

    /// Nanoseconds elapsed since this instant; the instant then becomes now.
    pub fn update(&mut self) -> u128 {
        let now = std::time::Instant::now();
        let elapsed = nanos_between(&self.at, &now);
        self.at = now;
        elapsed
    }
}

} // verus!
