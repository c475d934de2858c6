//! One vehicle: where it is, what it covers, how it moves and turns.

use crate::geometry::{
    CANVAS_SIZE, COORD_LIMIT, IX_MAX, IX_MIN, IY_MAX, IY_MIN, POSITION_LIMIT,
};
use crate::route::{direction_after_turn, spec_direction_after_turn, Direction, Route};
use crate::velocities::Velocity;
use vstd::prelude::*;

verus! {

/// Width of a newly made vehicle, in pixels.
pub const VEHICLE_WIDTH: u32 = 40;

/// Length of a newly made vehicle.
pub const VEHICLE_HEIGHT: u32 = 70;

/// Gap a newly made vehicle keeps beyond a vehicle's length.
pub const SAFETY_DISTANCE: u32 = 50;

/// Distance from the turn point, in pixels, within which a vehicle turns.
pub const TURN_RADIUS: i64 = 25;

/// The farthest a vehicle moves in one step.
pub const MAX_STEP: i64 = 7;

/// One vehicle. `position` is the top-left corner of the upright image the
/// host draws; `sprite` says which image; `rotation` is in degrees.
#[derive(Clone, Copy, Debug)]
pub struct Vehicle {
    pub id: usize,
    pub sprite: u32,
    pub route: Route,
    pub direction: Direction,
    pub current_speed: Velocity,
    pub width: u32,
    pub height: u32,
    pub safety_distance: u32,
    pub position: (i64, i64),
    pub turn_position: (i64, i64),
    pub rotation: u32,
    pub has_turned: bool,
    pub requested_intersection: bool,
    pub intersection_permission: bool,
}

/// Rotation, in degrees, of a vehicle heading in `direction`.
pub open spec fn spec_heading(direction: Direction) -> u32 {
    match direction {
        Direction::North => 0u32,
        Direction::South => 180u32,
        Direction::East => 90u32,
        Direction::West => 270u32,
    }
}

pub fn heading(direction: Direction) -> (r: u32)
    ensures
        r == spec_heading(direction),
{
    match direction {
        Direction::North => 0,
        Direction::South => 180,
        Direction::East => 90,
        Direction::West => 270,
    }
}

impl Vehicle {
    /// Every length is small enough to compute with.
    pub open spec fn wf(&self) -> bool {
        &&& -POSITION_LIMIT <= self.position.0 <= POSITION_LIMIT
        &&& -POSITION_LIMIT <= self.position.1 <= POSITION_LIMIT
        &&& -COORD_LIMIT <= self.turn_position.0 <= COORD_LIMIT
        &&& -COORD_LIMIT <= self.turn_position.1 <= COORD_LIMIT
        &&& self.width <= COORD_LIMIT
        &&& self.height <= COORD_LIMIT
        &&& self.safety_distance <= COORD_LIMIT
    }

    /// The vehicle is well formed and will still be after one more step.
    pub open spec fn can_move(&self) -> bool {
        &&& self.wf()
        &&& -POSITION_LIMIT + MAX_STEP <= self.position.0 <= POSITION_LIMIT - MAX_STEP
        &&& -POSITION_LIMIT + MAX_STEP <= self.position.1 <= POSITION_LIMIT - MAX_STEP
    }

    /// Middle of the upright image; halves are rounded down.
    pub open spec fn center(&self) -> (int, int) {
        (self.position.0 + self.width / 2, self.position.1 + self.height / 2)
    }

    /// Whether the image is drawn lying on its side.
    pub open spec fn is_sideways(&self) -> bool {
        self.rotation % 360 == 90 || self.rotation % 360 == 270
    }

    /// Left, top, width and height of the box the drawn vehicle covers: the
    /// image's own box, or, for a vehicle on its side, the box of swapped
    /// width and height about the same middle.
    pub open spec fn visual_bounds(&self) -> (int, int, int, int) {
        if self.is_sideways() {
            (
                self.center().0 - self.height / 2,
                self.center().1 - self.width / 2,
                self.height as int,
                self.width as int,
            )
        } else {
            (self.position.0 as int, self.position.1 as int, self.width as int, self.height as int)
        }
    }

    /// Middle of the covered box.
    pub open spec fn visual_center(&self) -> (int, int) {
        let b = self.visual_bounds();
        (b.0 + b.2 / 2, b.1 + b.3 / 2)
    }

    /// How far the middle of the vehicle still is from the edge by which it
    /// enters the intersection; zero once it has reached that edge.
    pub open spec fn spec_distance_to_intersection(&self) -> int {
        let c = self.visual_center();
        match self.direction {
            Direction::North => if c.1 > 650 { c.1 - 650 } else { 0 },
            Direction::South => if c.1 < 350 { 350 - c.1 } else { 0 },
            Direction::East => if c.0 < 350 { 350 - c.0 } else { 0 },
            Direction::West => if c.0 > 650 { c.0 - 650 } else { 0 },
        }
    }

    /// Whether the covered box touches the intersection.
    pub open spec fn spec_is_in_intersection(&self) -> bool {
        let b = self.visual_bounds();
        !(b.0 + b.2 < 350 || b.0 > 650 || b.1 + b.3 < 350 || b.1 > 650)
    }

    /// Same direction and same route.
    pub open spec fn spec_is_in_same_lane(&self, other: &Vehicle) -> bool {
        self.direction == other.direction && self.route == other.route
    }

    /// Whether `other` drives in this vehicle's lane and farther along it.
    pub open spec fn spec_is_ahead_of_me(&self, other: &Vehicle) -> bool {
        &&& self.spec_is_in_same_lane(other)
        &&& match self.direction {
            Direction::North => other.visual_center().1 < self.visual_center().1,
            Direction::South => other.visual_center().1 > self.visual_center().1,
            Direction::East => other.visual_center().0 > self.visual_center().0,
            Direction::West => other.visual_center().0 < self.visual_center().0,
        }
    }

    /// Whether the whole covered box has left the intersection on the far side.
    pub open spec fn spec_is_past_intersection(&self) -> bool {
        let b = self.visual_bounds();
        match self.direction {
            Direction::North => b.1 + b.3 < 350,
            Direction::South => b.1 > 650,
            Direction::East => b.0 > 650,
            Direction::West => b.0 + b.2 < 350,
        }
    }

    /// Distance between the two middles along this vehicle's axis of travel.
    pub open spec fn spec_distance_to_vehicle(&self, other: &Vehicle) -> nat {
        match self.direction {
            Direction::North | Direction::South => vstd::math::abs(
                self.visual_center().1 - other.visual_center().1,
            ),
            Direction::East | Direction::West => vstd::math::abs(
                self.visual_center().0 - other.visual_center().0,
            ),
        }
    }

    /// A vehicle's length plus this vehicle's own safety gap.
    pub open spec fn spec_safe_following_distance(&self) -> int {
        70 + self.safety_distance
    }

    /// Whether the covered box lies entirely outside the field.
    pub open spec fn spec_is_outside_canvas(&self) -> bool {
        let b = self.visual_bounds();
        b.0 + b.2 < 0 || b.0 > 1000 || b.1 + b.3 < 0 || b.1 > 1000
    }

    /// The vehicle after its turn: new direction and heading for a turning
    /// route, the same vehicle for `Straight`.
    pub open spec fn turned(&self) -> Vehicle {
        match self.route {
            Route::Straight => *self,
            _ => Vehicle {
                direction: spec_direction_after_turn(self.direction, self.route),
                rotation: spec_heading(spec_direction_after_turn(self.direction, self.route)),
                ..*self
            },
        }
    }

    /// Whether the middle of the image is within `TURN_RADIUS` of the turn point.
    pub open spec fn at_turn_point(&self) -> bool {
        let dx = self.center().0 - self.turn_position.0;
        let dy = self.center().1 - self.turn_position.1;
        dx * dx + dy * dy <= 625
    }

    /// The vehicle moved by `pixels` along its direction.
    pub open spec fn advanced(&self, pixels: int) -> Vehicle {
        match self.direction {
            Direction::North => Vehicle {
                position: (self.position.0, (self.position.1 - pixels) as i64),
                ..*self
            },
            Direction::South => Vehicle {
                position: (self.position.0, (self.position.1 + pixels) as i64),
                ..*self
            },
            Direction::East => Vehicle {
                position: ((self.position.0 + pixels) as i64, self.position.1),
                ..*self
            },
            Direction::West => Vehicle {
                position: ((self.position.0 - pixels) as i64, self.position.1),
                ..*self
            },
        }
    }

    /// The vehicle one step later: it turns, once, if it has not turned and
    /// is at its turn point, then moves at its current speed in the direction
    /// it then has.
    pub open spec fn moved(&self) -> Vehicle {
        let v = if !self.has_turned && self.at_turn_point() {
            Vehicle { has_turned: true, ..self.turned() }
        } else {
            *self
        };
        v.advanced(v.current_speed.spec_pixels_per_frame())
    }

    /// Where a vehicle on this route leaves the field: on the edge its
    /// direction after the turn leads to, in line with its turn point.
    pub open spec fn spec_exit_position(&self) -> (i64, i64) {
        match spec_direction_after_turn(self.direction, self.route) {
            Direction::North => (self.turn_position.0, 0i64),
            Direction::South => (self.turn_position.0, 1000i64),
            Direction::East => (1000i64, self.turn_position.1),
            Direction::West => (0i64, self.turn_position.1),
        }
    }

    /// Tells whether every length of the vehicle is small enough to compute with.
    pub fn is_wf(&self) -> (r: bool)
        ensures
            r == self.wf(),
    {
        self.position.0 >= -POSITION_LIMIT && self.position.0 <= POSITION_LIMIT
            && self.position.1 >= -POSITION_LIMIT && self.position.1 <= POSITION_LIMIT
            && self.turn_position.0 >= -COORD_LIMIT && self.turn_position.0 <= COORD_LIMIT
            && self.turn_position.1 >= -COORD_LIMIT && self.turn_position.1 <= COORD_LIMIT
            && self.width <= 1_000_000 && self.height <= 1_000_000 && self.safety_distance
            <= 1_000_000
    }

    /// A vehicle at `spawn_position`, heading in `direction` at `Fast`, that
    /// has neither turned nor asked for the intersection.
    pub fn new(
        id: usize,
        sprite: u32,
        route: Route,
        direction: Direction,
        spawn_position: (i64, i64),
        turn_position: (i64, i64),
    ) -> (v: Vehicle)
        ensures
            v == (Vehicle {
                id,
                sprite,
                route,
                direction,
                current_speed: Velocity::Fast,
                width: VEHICLE_WIDTH,
                height: VEHICLE_HEIGHT,
                safety_distance: SAFETY_DISTANCE,
                position: spawn_position,
                turn_position,
                rotation: spec_heading(direction),
                has_turned: false,
                requested_intersection: false,
                intersection_permission: false,
            }),
    {
        Vehicle {
            id,
            sprite,
            route,
            direction,
            current_speed: Velocity::Fast,
            width: VEHICLE_WIDTH,
            height: VEHICLE_HEIGHT,
            safety_distance: SAFETY_DISTANCE,
            position: spawn_position,
            turn_position,
            rotation: heading(direction),
            has_turned: false,
            requested_intersection: false,
            intersection_permission: false,
        }
    }

    /// Advances the vehicle by one step.
    pub fn update(&mut self)
        requires
            old(self).wf(),
        ensures
            *final(self) == old(self).moved(),
            old(self).can_move() ==> final(self).wf(),
    {
        let pixels_per_frame: i64 = self.current_speed.pixels_per_frame();
        if !self.has_turned {
            let cx: i64 = self.position.0 + (self.width / 2) as i64;
            let cy: i64 = self.position.1 + (self.height / 2) as i64;
            let dx: i64 = cx - self.turn_position.0;
            let dy: i64 = cy - self.turn_position.1;
            assert(-8 * COORD_LIMIT <= dx <= 8 * COORD_LIMIT);
            assert(-8 * COORD_LIMIT <= dy <= 8 * COORD_LIMIT);
            assert(0 <= dx * dx <= 64 * COORD_LIMIT * COORD_LIMIT) by (nonlinear_arith)
                requires
                    -8 * COORD_LIMIT <= dx <= 8 * COORD_LIMIT,
            ;
            assert(0 <= dy * dy <= 64 * COORD_LIMIT * COORD_LIMIT) by (nonlinear_arith)
                requires
                    -8 * COORD_LIMIT <= dy <= 8 * COORD_LIMIT,
            ;
            if dx * dx + dy * dy <= TURN_RADIUS * TURN_RADIUS {
                self.execute_turn();
                self.has_turned = true;
            }
        }
        match self.direction {
            Direction::North => {
                self.position.1 = self.position.1 - pixels_per_frame;
            },
            Direction::South => {
                self.position.1 = self.position.1 + pixels_per_frame;
            },
            Direction::East => {
                self.position.0 = self.position.0 + pixels_per_frame;
            },
            Direction::West => {
                self.position.0 = self.position.0 - pixels_per_frame;
            },
        }
    }

    pub fn get_visual_bounds(&self) -> (r: (i64, i64, i64, i64))
        requires
            self.wf(),
        ensures
            (r.0 as int, r.1 as int, r.2 as int, r.3 as int) == self.visual_bounds(),
    {
        let center_x: i64 = self.position.0 + (self.width / 2) as i64;
        let center_y: i64 = self.position.1 + (self.height / 2) as i64;
        let quarter: u32 = self.rotation % 360;
        if quarter == 90 || quarter == 270 {
            let visual_width: i64 = self.height as i64;
            let visual_height: i64 = self.width as i64;
            (
                center_x - (self.height / 2) as i64,
                center_y - (self.width / 2) as i64,
                visual_width,
                visual_height,
            )
        } else {
            (self.position.0, self.position.1, self.width as i64, self.height as i64)
        }
    }

    /// Switches direction and heading as the route asks; does nothing for `Straight`.
    pub fn execute_turn(&mut self)
        ensures
            *final(self) == old(self).turned(),
    {
        match self.route {
            Route::Straight => {},
            _ => {
                let d = direction_after_turn(self.direction, self.route);
                self.direction = d;
                self.rotation = heading(d);
            },
        }
    }

    pub fn get_visual_center(&self) -> (r: (i64, i64))
        requires
            self.wf(),
        ensures
            (r.0 as int, r.1 as int) == self.visual_center(),
    {
        let (vx, vy, vw, vh) = self.get_visual_bounds();
        (vx + vw / 2, vy + vh / 2)
    }

    pub fn distance_to_intersection(&self) -> (r: i64)
        requires
            self.wf(),
        ensures
            r == self.spec_distance_to_intersection(),
            r >= 0,
    {
        let (cx, cy) = self.get_visual_center();
        match self.direction {
            Direction::North => if cy > IY_MAX {
                cy - IY_MAX
            } else {
                0
            },
            Direction::South => if cy < IY_MIN {
                IY_MIN - cy
            } else {
                0
            },
            Direction::East => if cx < IX_MIN {
                IX_MIN - cx
            } else {
                0
            },
            Direction::West => if cx > IX_MAX {
                cx - IX_MAX
            } else {
                0
            },
        }
    }

    pub fn is_in_intersection(&self) -> (r: bool)
        requires
            self.wf(),
        ensures
            r == self.spec_is_in_intersection(),
    {
        let (vx, vy, vw, vh) = self.get_visual_bounds();
        let right: i64 = vx + vw;
        let bottom: i64 = vy + vh;
        !(right < IX_MIN || vx > IX_MAX || bottom < IY_MIN || vy > IY_MAX)
    }

    pub fn is_in_same_lane(&self, other: &Vehicle) -> (r: bool)
        ensures
            r == self.spec_is_in_same_lane(other),
    {
        if self.direction != other.direction {
            return false;
        }
        if self.route != other.route {
            return false;
        }
        true
    }

    pub fn is_ahead_of_me(&self, other: &Vehicle) -> (r: bool)
        requires
            self.wf(),
            other.wf(),
        ensures
            r == self.spec_is_ahead_of_me(other),
    {
        if !self.is_in_same_lane(other) {
            return false;
        }
        let my_center = self.get_visual_center();
        let other_center = other.get_visual_center();
        match self.direction {
            Direction::North => other_center.1 < my_center.1,
            Direction::South => other_center.1 > my_center.1,
            Direction::East => other_center.0 > my_center.0,
            Direction::West => other_center.0 < my_center.0,
        }
    }

    pub fn is_past_intersection(&self) -> (r: bool)
        requires
            self.wf(),
        ensures
            r == self.spec_is_past_intersection(),
    {
        let (vx, vy, vw, vh) = self.get_visual_bounds();
        match self.direction {
            Direction::North => vy + vh < IY_MIN,
            Direction::South => vy > IY_MAX,
            Direction::East => vx > IX_MAX,
            Direction::West => vx + vw < IX_MIN,
        }
    }

    pub fn distance_to_vehicle(&self, other: &Vehicle) -> (r: i64)
        requires
            self.wf(),
            other.wf(),
        ensures
            r == self.spec_distance_to_vehicle(other),
    {
        let my_center = self.get_visual_center();
        let other_center = other.get_visual_center();
        let d: i64 = match self.direction {
            Direction::North | Direction::South => my_center.1 - other_center.1,
            Direction::East | Direction::West => my_center.0 - other_center.0,
        };
        if d < 0 {
            -d
        } else {
            d
        }
    }

    pub fn calculate_exit_position(&self) -> (r: (i64, i64))
        ensures
            r == self.spec_exit_position(),
    {
        match direction_after_turn(self.direction, self.route) {
            Direction::North => (self.turn_position.0, 0),
            Direction::South => (self.turn_position.0, CANVAS_SIZE),
            Direction::East => (CANVAS_SIZE, self.turn_position.1),
            Direction::West => (0, self.turn_position.1),
        }
    }

    /// The gap this vehicle wants to the one ahead; the vehicle ahead does
    /// not enter into it.
    pub fn get_safe_following_distance(&self, _lead_vehicle: &Vehicle) -> (r: i64)
        ensures
            r == self.spec_safe_following_distance(),
    {
        70 + self.safety_distance as i64
    }

    pub fn is_outside_canvas(&self) -> (r: bool)
        requires
            self.wf(),
        ensures
            r == self.spec_is_outside_canvas(),
    {
        let (vx, vy, vw, vh) = self.get_visual_bounds();
        vx + vw < 0 || vx > CANVAS_SIZE || vy + vh < 0 || vy > CANVAS_SIZE
    }
}

} // verus!
