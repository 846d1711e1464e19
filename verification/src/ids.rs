use vstd::prelude::*;

verus! {

/// Number of simulation ticks in one simulated second; a tick lasts a tenth
/// of a simulated second.
pub const TICKS_PER_SECOND: u64 = 10;

/// Minimum dwell at a stop sign before a "must fully stop" turn may proceed:
/// 1.5 simulated seconds, expressed in ticks.
pub const STOP_DWELL_TICKS: u64 = 15;

/// Uniform speed limit used for crossing-time estimates, in distance units
/// per simulated second.
pub const SPEED_LIMIT: u64 = 5;

/// Identifier of a vehicle, unique for its lifetime in the simulation.
#[derive(Clone, Copy, PartialEq, Eq, Structural, Debug)]
pub struct CarID(pub u64);

/// Identifier of one permitted movement through an intersection. Turn
/// identifiers index into a [`crate::geom::GeomMap`].
#[derive(Clone, Copy, PartialEq, Eq, Structural, Debug)]
pub struct TurnID(pub usize);

/// Identifier of the intersection being arbitrated. Intersection identifiers
/// index into a [`crate::control::ControlMap`].
#[derive(Clone, Copy, PartialEq, Eq, Structural, Debug)]
pub struct IntersectionID(pub usize);

/// Discrete monotonic simulation time, counted in ticks.
#[derive(Clone, Copy, PartialEq, Eq, Structural, Debug)]
pub struct Tick(pub u64);

impl Tick {
    /// At least [`STOP_DWELL_TICKS`] have elapsed from `start` to `self`.
    pub open spec fn dwell_elapsed_spec(self, start: Tick) -> bool {
        self.0 >= start.0 + STOP_DWELL_TICKS
    }

    /// Whether the stop-sign dwell has elapsed from `start` to `self`.
    pub fn dwell_elapsed(self, start: Tick) -> (r: bool)
        ensures
            r == self.dwell_elapsed_spec(start),
    {
        self.0 as u128 >= start.0 as u128 + STOP_DWELL_TICKS as u128
    }
}

} // verus!
