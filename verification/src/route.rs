//! Directions and routes, the places where vehicles appear and turn, and
//! the draws by chance.

use rand::Rng;
use vstd::prelude::*;

verus! {

/// What a vehicle does inside the intersection.
#[derive(Debug, Clone, Copy, PartialEq, Eq, Hash, Structural)]
pub enum Route {
    Right,
    Left,
    Straight,
}

/// The direction a vehicle travels in.
#[derive(Debug, Clone, Copy, PartialEq, Eq, Hash, Structural)]
pub enum Direction {
    /// Coming from the south, going north.
    North,
    /// Coming from the north, going south.
    South,
    /// Coming from the west, going east.
    East,
    /// Coming from the east, going west.
    West,
}

/// The route chosen by a draw: 0 is `Right`, 1 is `Straight`, anything else `Left`.
pub open spec fn spec_route_from_draw(n: u32) -> Route {
    if n == 0 {
        Route::Right
    } else if n == 1 {
        Route::Straight
    } else {
        Route::Left
    }
}

/// The direction chosen by a draw: 0 is `East`, 1 `North`, 2 `South`, anything else `West`.
pub open spec fn spec_direction_from_draw(n: u32) -> Direction {
    if n == 0 {
        Direction::East
    } else if n == 1 {
        Direction::North
    } else if n == 2 {
        Direction::South
    } else {
        Direction::West
    }
}

/// Top-left corner at which a vehicle of this direction and route appears.
pub open spec fn spec_spawn_position(direction: Direction, route: Route) -> (i64, i64) {
    match direction {
        Direction::North => (
            match route {
                Route::Right => 600i64,
                Route::Straight => 550i64,
                Route::Left => 500i64,
            },
            980i64,
        ),
        Direction::South => (
            match route {
                Route::Right => 350i64,
                Route::Straight => 400i64,
                Route::Left => 450i64,
            },
            0i64,
        ),
        Direction::East => (
            0i64,
            match route {
                Route::Right => 600i64,
                Route::Straight => 550i64,
                Route::Left => 500i64,
            },
        ),
        Direction::West => (
            980i64,
            match route {
                Route::Right => 350i64,
                Route::Straight => 400i64,
                Route::Left => 450i64,
            },
        ),
    }
}

/// The point at which a vehicle of this direction and route turns; `(0, 0)`
/// for a vehicle that goes straight and never turns.
pub open spec fn spec_turn_position(direction: Direction, route: Route) -> (i64, i64) {
    match route {
        Route::Straight => (0i64, 0i64),
        Route::Right => match direction {
            Direction::North => (600i64, 610i64),
            Direction::South => (350i64, 390i64),
            Direction::East => (400i64, 635i64),
            Direction::West => (600i64, 385i64),
        },
        Route::Left => match direction {
            Direction::North => (500i64, 470i64),
            Direction::South => (450i64, 540i64),
            Direction::East => (550i64, 535i64),
            Direction::West => (450i64, 485i64),
        },
    }
}

/// The direction of travel after the turn; unchanged for `Straight`.
pub open spec fn spec_direction_after_turn(direction: Direction, route: Route) -> Direction {
    match (direction, route) {
        (Direction::North, Route::Right) => Direction::East,
        (Direction::North, Route::Left) => Direction::West,
        (Direction::South, Route::Right) => Direction::West,
        (Direction::South, Route::Left) => Direction::East,
        (Direction::East, Route::Right) => Direction::South,
        (Direction::East, Route::Left) => Direction::North,
        (Direction::West, Route::Right) => Direction::North,
        (Direction::West, Route::Left) => Direction::South,
        (_, Route::Straight) => direction,
    }
}

/// The direction by which a vehicle entered that travels in `direction`
/// after its turn; `direction` itself for `Straight`.
pub open spec fn spec_direction_before_turn(direction: Direction, route: Route) -> Direction {
    match (direction, route) {
        (Direction::East, Route::Right) => Direction::North,
        (Direction::West, Route::Left) => Direction::North,
        (Direction::West, Route::Right) => Direction::South,
        (Direction::East, Route::Left) => Direction::South,
        (Direction::South, Route::Right) => Direction::East,
        (Direction::North, Route::Left) => Direction::East,
        (Direction::North, Route::Right) => Direction::West,
        (Direction::South, Route::Left) => Direction::West,
        (_, Route::Straight) => direction,
    }
}

/// Turning and looking back undo one another.
pub proof fn lemma_turn_and_back(direction: Direction, route: Route)
    ensures
        spec_direction_before_turn(spec_direction_after_turn(direction, route), route) == direction,
        spec_direction_after_turn(spec_direction_before_turn(direction, route), route) == direction,
{
}

/// Calls `rand::rng()` for the thread's generator and `Rng::random_range` on
/// it with the half-open range `low..high`. `random_range` panics on an empty
/// range, which `requires` leaves out, and returns a member of the range; which
/// member is not stated, and two calls may differ.
#[verifier::external_body]
fn random_in_range(low: u32, high: u32) -> (r: u32)
    requires
        low < high,
    ensures
        low <= r < high,
{
    rand::rng().random_range(low..high)
}

pub fn route_from_draw(n: u32) -> (r: Route)
    ensures
        r == spec_route_from_draw(n),
{
    if n == 0 {
        Route::Right
    } else if n == 1 {
        Route::Straight
    } else {
        Route::Left
    }
}

pub fn direction_from_draw(n: u32) -> (r: Direction)
    ensures
        r == spec_direction_from_draw(n),
{
    if n == 0 {
        Direction::East
    } else if n == 1 {
        Direction::North
    } else if n == 2 {
        Direction::South
    } else {
        Direction::West
    }
}

/// A route picked by a draw from `0..3`.
pub fn get_random_route() -> (r: Route)
    ensures
        exists|n: u32| n < 3 && r == spec_route_from_draw(n),
{
    let n: u32 = random_in_range(0, 3);
    route_from_draw(n)
}

/// A direction picked by a draw from `0..4`.
pub fn get_random_direction() -> (r: Direction)
    ensures
        exists|n: u32| n < 4 && r == spec_direction_from_draw(n),
{
    let n: u32 = random_in_range(0, 4);
    direction_from_draw(n)
}

/// The number of vehicle images a host is expected to hold.
pub const SPRITE_COUNT: u32 = 5;

/// The number, from 1 to `SPRITE_COUNT`, of the image a new vehicle is drawn with.
pub fn get_random_sprite() -> (r: u32)
    ensures
        1 <= r <= SPRITE_COUNT,
{
    random_in_range(1, SPRITE_COUNT + 1)
}

pub fn get_spawn_position(direction: Direction, route: Route) -> (r: (i64, i64))
    ensures
        r == spec_spawn_position(direction, route),
{
    match direction {
        Direction::North => {
            let lane_x: i64 = match route {
                Route::Right => 600,
                Route::Straight => 550,
                Route::Left => 500,
            };
            (lane_x, 980)
        },
        Direction::South => {
            let lane_x: i64 = match route {
                Route::Right => 350,
                Route::Straight => 400,
                Route::Left => 450,
            };
            (lane_x, 0)
        },
        Direction::East => {
            let lane_y: i64 = match route {
                Route::Right => 600,
                Route::Straight => 550,
                Route::Left => 500,
            };
            (0, lane_y)
        },
        Direction::West => {
            let lane_y: i64 = match route {
                Route::Right => 350,
                Route::Straight => 400,
                Route::Left => 450,
            };
            (980, lane_y)
        },
    }
}

pub fn get_turn_position(direction: Direction, route: Route) -> (r: (i64, i64))
    ensures
        r == spec_turn_position(direction, route),
{
    match route {
        Route::Straight => (0, 0),
        Route::Right => match direction {
            Direction::North => (600, 610),
            Direction::South => (350, 390),
            Direction::East => (400, 635),
            Direction::West => (600, 385),
        },
        Route::Left => match direction {
            Direction::North => (500, 470),
            Direction::South => (450, 540),
            Direction::East => (550, 535),
            Direction::West => (450, 485),
        },
    }
}

pub fn direction_after_turn(direction: Direction, route: Route) -> (r: Direction)
    ensures
        r == spec_direction_after_turn(direction, route),
{
    match route {
        Route::Right => match direction {
            Direction::North => Direction::East,
            Direction::South => Direction::West,
            Direction::East => Direction::South,
            Direction::West => Direction::North,
        },
        Route::Left => match direction {
            Direction::North => Direction::West,
            Direction::South => Direction::East,
            Direction::East => Direction::North,
            Direction::West => Direction::South,
        },
        Route::Straight => direction,
    }
}

pub fn direction_before_turn(direction: Direction, route: Route) -> (r: Direction)
    ensures
        r == spec_direction_before_turn(direction, route),
{
    match route {
        Route::Right => match direction {
            Direction::East => Direction::North,
            Direction::West => Direction::South,
            Direction::South => Direction::East,
            Direction::North => Direction::West,
        },
        Route::Left => match direction {
            Direction::West => Direction::North,
            Direction::East => Direction::South,
            Direction::North => Direction::East,
            Direction::South => Direction::West,
        },
        Route::Straight => direction,
    }
}

} // verus!
