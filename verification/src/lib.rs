//! Intersection arbitration core of a tick-driven traffic simulator.
//!
//! One `IntersectionPolicy` instance arbitrates one intersection: it decides,
//! tick by tick, which cars may occupy the intersection for a given turn,
//! enforcing stop-sign priority rules and traffic-signal cycling while
//! keeping physically conflicting turns mutually excluded.
//!
//! Geometry (which turns conflict, how long a turn is) and static traffic
//! control configuration (per-turn priorities, signal cycles) are supplied
//! by the caller as [`geom::GeomMap`] and [`control::ControlMap`] values.

pub mod ids;
pub mod carmap;
pub mod geom;
pub mod control;
pub mod policy;
