//! The four speeds, their order, and the time a distance takes at each.

use vstd::prelude::*;

verus! {

/// Simulation steps per second of simulated time.
pub const TICKS_PER_SECOND: i64 = 60;

/// Time units in one simulation step: the least number that 3, 5 and 7, the
/// pixels a vehicle covers in one step at its three speeds, all divide.
pub const TIME_UNITS_PER_TICK: i64 = 105;

/// Time units in one second: `TICKS_PER_SECOND * TIME_UNITS_PER_TICK`.
pub const TIME_UNITS_PER_SECOND: i64 = 6300;

/// The longest distance, in pixels, for which a travel time is computed.
pub const MAX_DISTANCE: i64 = 1_000_000_000;

/// The speed a vehicle is commanded to drive at.
#[derive(Clone, Copy, Debug, PartialEq, Eq, Hash, Structural)]
pub enum Velocity {
    Slow,
    Medium,
    Fast,
    Stopped,
}

impl Velocity {
    /// Position in the order `Stopped < Slow < Medium < Fast`.
    pub open spec fn rank(self) -> nat {
        match self {
            Velocity::Stopped => 0,
            Velocity::Slow => 1,
            Velocity::Medium => 2,
            Velocity::Fast => 3,
        }
    }

    /// Pixels covered in one simulation step.
    pub open spec fn spec_pixels_per_frame(self) -> int {
        match self {
            Velocity::Stopped => 0,
            Velocity::Slow => 3,
            Velocity::Medium => 5,
            Velocity::Fast => 7,
        }
    }

    /// Time units needed for one pixel; zero for a vehicle that stands.
    pub open spec fn spec_time_units_per_pixel(self) -> int {
        match self {
            Velocity::Stopped => 0,
            Velocity::Slow => 35,
            Velocity::Medium => 21,
            Velocity::Fast => 15,
        }
    }

    /// The slower of two speeds.
    pub open spec fn spec_slowest(self, other: Velocity) -> Velocity {
        if self.rank() <= other.rank() {
            self
        } else {
            other
        }
    }

    /// The speeds an admission request tries, in order: `Fast`, `Medium`,
    /// `Slow` for a vehicle that moves, whatever its speed, and `Fast` alone
    /// for a vehicle that stands.
    pub open spec fn spec_candidates(self) -> Seq<Velocity> {
        match self {
            Velocity::Stopped => seq![Velocity::Fast],
            _ => seq![Velocity::Fast, Velocity::Medium, Velocity::Slow],
        }
    }

    pub fn pixels_per_frame(self) -> (r: i64)
        ensures
            r == self.spec_pixels_per_frame(),
    {
        match self {
            Velocity::Stopped => 0,
            Velocity::Slow => 3,
            Velocity::Medium => 5,
            Velocity::Fast => 7,
        }
    }

    pub fn time_units_per_pixel(self) -> (r: i64)
        ensures
            r == self.spec_time_units_per_pixel(),
    {
        match self {
            Velocity::Stopped => 0,
            Velocity::Slow => 35,
            Velocity::Medium => 21,
            Velocity::Fast => 15,
        }
    }

    /// The slower of `self` and `other`: `Stopped` wins over everything, then
    /// `Slow`, then `Medium`.
    pub fn slowest(self, other: Velocity) -> (r: Velocity)
        ensures
            r == self.spec_slowest(other),
            r.rank() == vstd::math::min(self.rank() as int, other.rank() as int),
    {
        match (self, other) {
            (Velocity::Stopped, _) | (_, Velocity::Stopped) => Velocity::Stopped,
            (Velocity::Slow, _) | (_, Velocity::Slow) => Velocity::Slow,
            (Velocity::Medium, _) | (_, Velocity::Medium) => Velocity::Medium,
            (Velocity::Fast, Velocity::Fast) => Velocity::Fast,
        }
    }

    pub fn candidates(self) -> (r: Vec<Velocity>)
        ensures
            r@ == self.spec_candidates(),
    {
        let mut r: Vec<Velocity> = Vec::new();
        r.push(Velocity::Fast);
        match self {
            Velocity::Stopped => {},
            _ => {
                r.push(Velocity::Medium);
                r.push(Velocity::Slow);
            },
        }
        r
    }
}

/// Time units a vehicle needs for `distance` pixels at `speed`.
pub open spec fn travel_time(distance: int, speed: Velocity) -> int {
    distance * speed.spec_time_units_per_pixel()
}

/// Time units needed for `distance` pixels at `speed`; zero when stopped.
pub fn calculate_time_with_speed(distance: i64, speed: Velocity) -> (r: i64)
    requires
        -MAX_DISTANCE <= distance <= MAX_DISTANCE,
    ensures
        r == travel_time(distance as int, speed),
        -35 * MAX_DISTANCE <= r <= 35 * MAX_DISTANCE,
{
    distance * speed.time_units_per_pixel()
}

/// One simulation step at `speed` covers exactly the pixels that the speed
/// table gives: the time for `speed.spec_pixels_per_frame()` pixels is one
/// step.
pub proof fn lemma_one_step_per_frame(speed: Velocity)
    requires
        speed != Velocity::Stopped,
    ensures
        travel_time(speed.spec_pixels_per_frame(), speed) == TIME_UNITS_PER_TICK,
{
}

/// `spec_slowest` is the minimum of the order `Stopped < Slow < Medium < Fast`:
/// it returns one of its arguments, the one of lower rank, whichever side it
/// stands on.
pub proof fn lemma_slowest_is_minimum(a: Velocity, b: Velocity)
    ensures
        a.spec_slowest(b) == a || a.spec_slowest(b) == b,
        a.spec_slowest(b).rank() <= a.rank(),
        a.spec_slowest(b).rank() <= b.rank(),
        a.spec_slowest(b) == b.spec_slowest(a),
        forall|x: Velocity, y: Velocity| x.rank() == y.rank() ==> x == y,
{
}

} // verus!
