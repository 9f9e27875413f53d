//! The failure detector that each active peer carries.
use vstd::prelude::*;

verus! {

/// An accrual failure detector fed by the successful exchanges with one peer.
/// The arithmetic behind its verdict is binary floating point and lives
/// outside this library; the peer table only creates detectors, feeds them
/// and reads their verdict, and claims nothing about that verdict.
pub trait Detector: Sized {
    /// A detector for a peer that has just become active, with the default
    /// threshold, weight and seed interval.
    fn fresh() -> Self;

    /// Records a successful exchange at the current instant.
    fn update(&mut self);

    /// Whether the time since the last exchange exceeds what the observed
    /// intervals lead one to expect.
    fn failed(&self) -> bool;
}

} // verus!
