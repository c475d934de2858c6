//! A signal-free four-way intersection: vehicles cross a shared zone by
//! reserving grid cells for time windows.
//!
//! Lengths are whole pixels. Instants and durations are whole time units,
//! [`velocities::TIME_UNITS_PER_SECOND`] of them to the second, chosen so that
//! the time a vehicle needs for a whole number of pixels at any of its speeds
//! is itself a whole number.
//!
//! [`intersection::SmartIntersection`] is the engine. A host lets vehicles
//! appear with `spawn_vehicle` and calls `update` once per simulation step;
//! between the calls it reads the vehicles to draw them and the figures to
//! show them. The engine rests on the reservation grid ([`grid`]), the paths
//! ([`paths`]), the admission protocol ([`admission`]) and the following
//! model ([`traffic`]).

pub mod admission;
pub mod geometry;
pub mod grid;
pub mod intersection;
pub mod paths;
pub mod route;
pub mod stays;
pub mod traffic;
pub mod vehicle;
pub mod velocities;
