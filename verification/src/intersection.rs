//! The intersection itself: vehicles appear, every step lets them negotiate
//! and move, and the statistics of the run are kept.

use crate::admission::{
    negotiate, negotiate_vehicle, request_admission, request_outcome, Decision, VehicleUpdate,
    MAX_TIME,
};
use crate::grid::{owned_by, GridView, ReservationGrid};
use crate::paths::{lemma_path_distances, spec_vehicle_path, PathCache};
use crate::route::{
    get_random_direction, get_random_route, get_random_sprite, get_spawn_position,
    get_turn_position, spec_spawn_position, spec_turn_position, Direction, Route, SPRITE_COUNT,
};
use crate::traffic::{all_wf, spec_traffic_speeds, traffic_speeds};
use crate::vehicle::{spec_heading, Vehicle, SAFETY_DISTANCE, VEHICLE_HEIGHT, VEHICLE_WIDTH};
use crate::velocities::{Velocity, MAX_DISTANCE};
use crate::geometry::{COORD_LIMIT, GRID_COLS, GRID_ROWS};
use crate::stays::{EntryTimes, Stay};
use vstd::prelude::*;

verus! {

/// A new vehicle must appear at least this far, along its lane, from every
/// vehicle of its direction and route.
pub const MIN_SPAWN_DISTANCE: i64 = 100;

/// Two vehicles inside the intersection closer than this are a close call.
pub const MIN_SAFE_DISTANCE: i64 = 5;

/// Value of a recorded minimum before anything was recorded.
pub const NO_VELOCITY_YET: u32 = 0xffff_ffff;

/// Value of the shortest recorded stay before any stay was recorded.
pub const NO_TIME_YET: i64 = 0x7fff_ffff_ffff_ffff;

/// The intersection: its vehicles, in the order in which they appeared, the
/// reservation grid, the paths, and the running statistics.
pub struct SmartIntersection {
    pub active_vehicles: Vec<Vehicle>,
    pub grid: ReservationGrid,
    pub path_cache: PathCache,
    pub total_vehicles_passed: u32,
    pub max_velocity_recorded: u32,
    pub min_velocity_recorded: u32,
    pub max_time_in_intersection: i64,
    pub min_time_in_intersection: i64,
    pub close_calls: u32,
    pub is_running: bool,
    pub close_call_pairs_this_frame: Vec<(usize, usize)>,
    pub vehicle_intersection_times: EntryTimes,
    pub next_id: usize,
}

/// The figures shown when a run ends. The two minima are 0 where nothing
/// was recorded.
#[derive(Clone, Copy, Debug, PartialEq, Eq, Structural)]
pub struct FinalStats {
    pub total_vehicles_passed: u32,
    pub max_velocity_recorded: u32,
    pub min_velocity_recorded: u32,
    pub max_time_in_intersection: i64,
    pub min_time_in_intersection: i64,
    pub close_calls: u32,
    pub active_vehicles: usize,
}

/// What an intersection holds.
pub struct EngineView {
    pub vehicles: Seq<Vehicle>,
    pub grid: GridView,
    pub total_vehicles_passed: int,
    pub max_velocity_recorded: int,
    pub min_velocity_recorded: int,
    pub max_time_in_intersection: int,
    pub min_time_in_intersection: int,
    pub close_calls: int,
    pub is_running: bool,
    pub close_call_pairs: Seq<(usize, usize)>,
    /// For each vehicle that is inside the intersection, by its id, the
    /// first and the last instant at which it was seen there.
    pub zone_stays: Map<usize, Stay>,
    /// The id that the next vehicle gets.
    pub next_id: int,
}

/// Whether a vehicle is on the field and has lengths small enough to compute with.
pub open spec fn on_field(vehicle: Vehicle) -> bool {
    vehicle.wf() && !vehicle.spec_is_outside_canvas()
}

/// Distance along the lane between a vehicle's corner and a spawn position.
pub open spec fn spawn_gap(vehicle: Vehicle, direction: Direction, spawn_pos: (i64, i64)) -> nat {
    match direction {
        Direction::North | Direction::South => vstd::math::abs(vehicle.position.1 - spawn_pos.1),
        Direction::East | Direction::West => vstd::math::abs(vehicle.position.0 - spawn_pos.0),
    }
}

/// Whether no vehicle of this direction and route is within
/// `MIN_SPAWN_DISTANCE` of the spawn position.
pub open spec fn spec_is_safe_to_spawn(
    vehicles: Seq<Vehicle>,
    direction: Direction,
    route: Route,
    spawn_pos: (i64, i64),
) -> bool {
    forall|i: int|
        0 <= i < vehicles.len() && (#[trigger] vehicles[i]).direction == direction && vehicles[i].route
            == route ==> spawn_gap(vehicles[i], direction, spawn_pos) >= 100
}

/// The vehicle that appears for a direction and a route.
pub open spec fn new_vehicle(id: usize, sprite: u32, direction: Direction, route: Route) -> Vehicle {
    Vehicle {
        id,
        sprite,
        route,
        direction,
        current_speed: Velocity::Fast,
        width: VEHICLE_WIDTH,
        height: VEHICLE_HEIGHT,
        safety_distance: SAFETY_DISTANCE,
        position: spec_spawn_position(direction, route),
        turn_position: spec_turn_position(direction, route),
        rotation: spec_heading(direction),
        has_turned: false,
        requested_intersection: false,
        intersection_permission: false,
    }
}

/// The intersection after a vehicle was asked to appear: it joins the
/// vehicles, last, under the next id, if its spawn position is clear; else
/// nothing changes.
pub open spec fn spawned(s: EngineView, direction: Direction, route: Route, sprite: u32)
    -> EngineView {
    if spec_is_safe_to_spawn(s.vehicles, direction, route, spec_spawn_position(direction, route)) {
        EngineView {
            vehicles: s.vehicles.push(new_vehicle(s.next_id as usize, sprite, direction, route)),
            next_id: s.next_id + 1,
            ..s
        }
    } else {
        s
    }
}

/// The pair of two ids with the smaller one first.
pub open spec fn ordered_pair(a: usize, b: usize) -> (usize, usize) {
    if a < b {
        (a, b)
    } else {
        (b, a)
    }
}

/// The pairs flagged after the vehicle at `i` has been held against the
/// first `m` vehicles: a vehicle inside the intersection flags, with each
/// other vehicle inside it that is closer than `MIN_SAFE_DISTANCE` along its
/// axis, the pair of their ids, unless that pair is flagged already.
pub open spec fn close_call_scan(
    vehicles: Seq<Vehicle>,
    i: int,
    pairs: Seq<(usize, usize)>,
    m: nat,
) -> Seq<(usize, usize)>
    decreases m,
{
    if m == 0 {
        pairs
    } else {
        let before = close_call_scan(vehicles, i, pairs, (m - 1) as nat);
        let j = m - 1;
        let pair = ordered_pair(vehicles[i].id, vehicles[j].id);
        if vehicles[i].spec_is_in_intersection() && j != i && !before.contains(pair)
            && vehicles[i].spec_distance_to_vehicle(&vehicles[j]) < 5
            && vehicles[j].spec_is_in_intersection() {
            before.push(pair)
        } else {
            before
        }
    }
}

/// The statistics with one finished stay of the given length taken into
/// the longest and the shortest stay.
pub open spec fn stay_recorded(s: EngineView, length: int) -> EngineView {
    EngineView {
        max_time_in_intersection: vstd::math::max(s.max_time_in_intersection, length),
        min_time_in_intersection: vstd::math::min(s.min_time_in_intersection, length),
        ..s
    }
}

/// The statistics after a vehicle with this id and speed has left the
/// field: one more vehicle has passed, its speed enters the fastest and the
/// slowest speed seen, and a stay of its in the intersection that is still
/// on record is finished: its length, from the first to the last step at
/// which the vehicle touched the intersection, is recorded and the stay
/// forgotten.
pub open spec fn exit_recorded(s: EngineView, id: usize, speed: Velocity) -> EngineView {
    let timed = if s.zone_stays.contains_key(id) {
        stay_recorded(s, s.zone_stays[id].spec_length())
    } else {
        s
    };
    EngineView {
        total_vehicles_passed: s.total_vehicles_passed + 1,
        max_velocity_recorded: vstd::math::max(
            s.max_velocity_recorded,
            speed.spec_pixels_per_frame(),
        ),
        min_velocity_recorded: vstd::math::min(
            s.min_velocity_recorded,
            speed.spec_pixels_per_frame(),
        ),
        zone_stays: s.zone_stays.remove(id),
        ..timed
    }
}

/// The intersection after a vehicle with this id and speed has left the
/// field: whatever it still holds in the grid is released, and its exit is
/// recorded.
pub open spec fn exited(s: EngineView, id: usize, speed: Velocity) -> EngineView {
    exit_recorded(EngineView { grid: s.grid.released_everywhere(id), ..s }, id, speed)
}

/// What the look at the vehicles' stays has found so far: the state, and the
/// ids of the vehicles whose stay has ended.
pub struct Tracking {
    pub state: EngineView,
    pub leaving: Seq<usize>,
}

/// The look at the first `n` vehicles at the instant `time`. A vehicle
/// that touches the intersection begins a stay at `time` if it has none on
/// record, and else has `time` noted as the last instant of its stay; the
/// first instant is never overwritten. A vehicle that does not touch it and
/// has a stay on record ends it: the length of the stay, from its first to
/// its last instant, goes into the longest and the shortest stay, and the
/// vehicle's id is listed.
pub open spec fn stays_seen(s: EngineView, time: i64, n: nat) -> Tracking
    decreases n,
{
    if n == 0 {
        Tracking { state: s, leaving: Seq::empty() }
    } else {
        let before = stays_seen(s, time, (n - 1) as nat);
        let vehicle = s.vehicles[n - 1];
        let stays = before.state.zone_stays;
        if vehicle.spec_is_in_intersection() {
            let stay = if stays.contains_key(vehicle.id) {
                Stay { first: stays[vehicle.id].first, last: time }
            } else {
                Stay { first: time, last: time }
            };
            Tracking {
                state: EngineView { zone_stays: stays.insert(vehicle.id, stay), ..before.state },
                ..before
            }
        } else if stays.contains_key(vehicle.id) {
            Tracking {
                state: stay_recorded(before.state, stays[vehicle.id].spec_length()),
                leaving: before.leaving.push(vehicle.id),
            }
        } else {
            before
        }
    }
}

/// The entries without those of the first `n` listed ids.
pub open spec fn forgotten(times: Map<usize, Stay>, ids: Seq<usize>, n: nat) -> Map<usize, Stay>
    decreases n,
{
    if n == 0 {
        times
    } else {
        forgotten(times, ids, (n - 1) as nat).remove(ids[n - 1])
    }
}

/// The intersection after the stays were looked at: stays begun or
/// prolonged, stays that ended recorded, and those forgotten.
pub open spec fn spec_track(s: EngineView, time: i64) -> EngineView {
    let t = stays_seen(s, time, s.vehicles.len());
    EngineView {
        zone_stays: forgotten(t.state.zone_stays, t.leaving, t.leaving.len()),
        ..t.state
    }
}

/// The grid after the first `n` vehicles have negotiated, one after the
/// other in the vehicles' order, each with the speed the traffic allows it.
pub open spec fn grid_after_negotiations(
    vehicles: Seq<Vehicle>,
    speeds: Seq<Velocity>,
    grid: GridView,
    time: i64,
    n: nat,
) -> GridView
    decreases n,
{
    if n == 0 {
        grid
    } else {
        negotiate(
            vehicles[n - 1],
            grid_after_negotiations(vehicles, speeds, grid, time, (n - 1) as nat),
            speeds[n - 1],
            time,
        ).grid
    }
}

/// What the step decides for the vehicle at `i`: the outcome of its
/// negotiation on the grid that the vehicles before it have left.
pub open spec fn spec_decision(
    vehicles: Seq<Vehicle>,
    speeds: Seq<Velocity>,
    grid: GridView,
    time: i64,
    i: int,
) -> Decision {
    negotiate(
        vehicles[i],
        grid_after_negotiations(vehicles, speeds, grid, time, i as nat),
        speeds[i],
        time,
    ).decision
}

/// The vehicle with the commanded speed and the flags of a decision.
pub open spec fn with_decision(vehicle: Vehicle, decision: Decision) -> Vehicle {
    Vehicle {
        current_speed: decision.speed,
        requested_intersection: decision.requested,
        intersection_permission: decision.permission,
        ..vehicle
    }
}

/// The intersection after one decision has been carried out for the
/// vehicle at `i`, whose cells are given back under `id`: the vehicle has
/// the speed and flags of the decision and has moved, the cells are released,
/// and each close call of the vehicle that is not flagged yet is flagged and
/// counted.
pub open spec fn carried_out(s: EngineView, i: int, decision: Decision, id: usize) -> EngineView {
    let now = s.vehicles.update(i, with_decision(s.vehicles[i], decision).moved());
    let pairs = close_call_scan(now, i, s.close_call_pairs, now.len());
    EngineView {
        vehicles: now,
        grid: s.grid.released(decision.release, id),
        close_call_pairs: pairs,
        close_calls: s.close_calls + (pairs.len() - s.close_call_pairs.len()),
        ..s
    }
}

/// The intersection after the first `n` decisions have been carried out,
/// in order, each for the vehicle at its place. Carrying one out gives the
/// vehicle its speed and flags, moves it one step, gives back its cells, and
/// then holds it against all vehicles, moved or not yet, for close calls.
pub open spec fn applied(s: EngineView, decisions: Seq<Decision>, n: nat) -> EngineView
    decreases n,
{
    if n == 0 {
        s
    } else {
        carried_out(applied(s, decisions, (n - 1) as nat), n - 1, decisions[n - 1], s.vehicles[n - 1].id)
    }
}

/// The intersection when all vehicles have negotiated, one after the other,
/// and none has moved yet; the pairs flagged in the step before are forgotten.
pub open spec fn negotiated(s: EngineView, time: i64) -> EngineView {
    EngineView {
        grid: grid_after_negotiations(
            s.vehicles,
            spec_traffic_speeds(s.vehicles),
            s.grid,
            time,
            s.vehicles.len(),
        ),
        close_call_pairs: Seq::empty(),
        ..s
    }
}

/// What the step decides for each vehicle.
pub open spec fn spec_decisions(s: EngineView, time: i64) -> Seq<Decision> {
    Seq::new(
        s.vehicles.len(),
        |i: int| spec_decision(s.vehicles, spec_traffic_speeds(s.vehicles), s.grid, time, i),
    )
}

/// The intersection after all vehicles have negotiated and moved: first
/// every vehicle's traffic speed is worked out, then every vehicle
/// negotiates, then every decision is carried out. Each pair flagged in the
/// step counts as one close call.
pub open spec fn spec_drive(s: EngineView, time: i64) -> EngineView {
    applied(negotiated(s, time), spec_decisions(s, time), s.vehicles.len())
}

/// The intersection after the first `n` of its vehicles were checked
/// against the field: `vehicles` holds those that stay, in their order, and
/// each one that has left is recorded.
pub open spec fn retired(s: EngineView, n: nat) -> EngineView
    decreases n,
{
    if n == 0 {
        EngineView { vehicles: Seq::empty(), ..s }
    } else {
        let before = retired(s, (n - 1) as nat);
        let vehicle = s.vehicles[n - 1];
        if vehicle.spec_is_outside_canvas() {
            exited(before, vehicle.id, vehicle.current_speed)
        } else {
            EngineView { vehicles: before.vehicles.push(vehicle), ..before }
        }
    }
}

/// The intersection one step later, at the instant `time`: the vehicles
/// negotiate and move, those that have left the field are retired, and the
/// stays in the intersection are looked at.
pub open spec fn spec_update(s: EngineView, time: i64) -> EngineView {
    let driven = spec_drive(s, time);
    spec_track(retired(driven, driven.vehicles.len()), time)
}

/// Whether the counters have room for one more step with these vehicles.
pub open spec fn has_headroom(s: EngineView) -> bool {
    &&& s.total_vehicles_passed + s.vehicles.len() <= u32::MAX
    &&& s.close_calls + s.vehicles.len() * s.vehicles.len() <= u32::MAX
}

/// The vehicles that are on the field.
pub open spec fn stays_on_field() -> spec_fn(Vehicle) -> bool {
    |v: Vehicle| !v.spec_is_outside_canvas()
}

/// Retiring keeps exactly the vehicles that are on the field, in their
/// order, counts each of the others as passed, and leaves the close calls
/// and the next id as they were.
pub proof fn lemma_retired(s: EngineView, n: nat)
    requires
        n <= s.vehicles.len(),
    ensures
        retired(s, n).vehicles == s.vehicles.take(n as int).filter(stays_on_field()),
        retired(s, n).total_vehicles_passed == s.total_vehicles_passed + n - retired(
            s,
            n,
        ).vehicles.len(),
        retired(s, n).next_id == s.next_id,
        retired(s, n).close_calls == s.close_calls,
        retired(s, n).close_call_pairs == s.close_call_pairs,
    decreases n,
{
    if n == 0 {
        reveal(Seq::filter);
        assert(s.vehicles.take(0) =~= Seq::<Vehicle>::empty());
    } else {
        lemma_retired(s, (n - 1) as nat);
        let v = s.vehicles[n - 1];
        assert(s.vehicles.take(n as int) =~= s.vehicles.take(n - 1).push(v));
        s.vehicles.take(n - 1).lemma_filter_push(v, stays_on_field());
    }
}

/// Carrying out the first `n` decisions leaves each of the first `n`
/// vehicles with the speed and flags of its decision, moved one step, and
/// the others as they were. Each flagged pair has been counted once.
pub proof fn lemma_applied_vehicles(s: EngineView, decisions: Seq<Decision>, n: nat)
    requires
        n <= s.vehicles.len(),
    ensures
        applied(s, decisions, n).vehicles.len() == s.vehicles.len(),
        forall|i: int|
            0 <= i < n ==> #[trigger] applied(s, decisions, n).vehicles[i] == with_decision(
                s.vehicles[i],
                decisions[i],
            ).moved(),
        forall|i: int|
            n <= i < s.vehicles.len() ==> #[trigger] applied(s, decisions, n).vehicles[i]
                == s.vehicles[i],
        applied(s, decisions, n).close_calls - s.close_calls == applied(
            s,
            decisions,
            n,
        ).close_call_pairs.len() - s.close_call_pairs.len(),
        applied(s, decisions, n) == (EngineView {
            vehicles: applied(s, decisions, n).vehicles,
            grid: applied(s, decisions, n).grid,
            close_calls: applied(s, decisions, n).close_calls,
            close_call_pairs: applied(s, decisions, n).close_call_pairs,
            ..s
        }),
    decreases n,
{
    if n > 0 {
        lemma_applied_vehicles(s, decisions, (n - 1) as nat);
    }
}

proof fn lemma_scan_flags_once(vehicles: Seq<Vehicle>, i: int, pairs: Seq<(usize, usize)>, m: nat)
    requires
        pairs.no_duplicates(),
    ensures
        close_call_scan(vehicles, i, pairs, m).no_duplicates(),
    decreases m,
{
    if m > 0 {
        lemma_scan_flags_once(vehicles, i, pairs, (m - 1) as nat);
    }
}

proof fn lemma_applied_flags_once(s: EngineView, decisions: Seq<Decision>, n: nat)
    requires
        s.close_call_pairs.no_duplicates(),
    ensures
        applied(s, decisions, n).close_call_pairs.no_duplicates(),
    decreases n,
{
    if n > 0 {
        lemma_applied_flags_once(s, decisions, (n - 1) as nat);
        let before = applied(s, decisions, (n - 1) as nat);
        let now = before.vehicles.update(
            n - 1,
            with_decision(before.vehicles[n - 1], decisions[n - 1]).moved(),
        );
        lemma_scan_flags_once(now, n - 1, before.close_call_pairs, now.len());
    }
}

/// In one step no pair of vehicles is flagged twice, and the close calls
/// grow by the number of pairs flagged in it. What a step of driving does
/// not touch: the counts of vehicles passed, the recorded speeds and stays,
/// the entries, and the next id.
pub proof fn lemma_drive_counts_each_pair_once(s: EngineView, time: i64)
    ensures
        spec_drive(s, time).close_call_pairs.no_duplicates(),
        spec_drive(s, time).close_calls == s.close_calls + spec_drive(
            s,
            time,
        ).close_call_pairs.len(),
        spec_drive(s, time) == (EngineView {
            vehicles: spec_drive(s, time).vehicles,
            grid: spec_drive(s, time).grid,
            close_calls: spec_drive(s, time).close_calls,
            close_call_pairs: spec_drive(s, time).close_call_pairs,
            ..s
        }),
{
    lemma_applied_flags_once(negotiated(s, time), spec_decisions(s, time), s.vehicles.len());
    lemma_applied_vehicles(negotiated(s, time), spec_decisions(s, time), s.vehicles.len());
}

/// A vehicle that is farther from the intersection than the reset distance
/// when a step begins has both request flags cleared when the vehicles have
/// moved, whatever the flags were before, and no request was made for it:
/// its negotiation leaves the grid as it found it.
pub proof fn lemma_drive_clears_far_vehicles(s: EngineView, time: i64, i: int)
    requires
        0 <= i < s.vehicles.len(),
        s.vehicles[i].spec_distance_to_intersection() > 150,
    ensures
        spec_drive(s, time).vehicles.len() == s.vehicles.len(),
        !spec_drive(s, time).vehicles[i].requested_intersection,
        !spec_drive(s, time).vehicles[i].intersection_permission,
        spec_drive(s, time).vehicles[i].id == s.vehicles[i].id,
        grid_after_negotiations(
            s.vehicles,
            spec_traffic_speeds(s.vehicles),
            s.grid,
            time,
            (i + 1) as nat,
        ) == grid_after_negotiations(
            s.vehicles,
            spec_traffic_speeds(s.vehicles),
            s.grid,
            time,
            i as nat,
        ),
{
    let speeds = spec_traffic_speeds(s.vehicles);
    lemma_applied_vehicles(negotiated(s, time), spec_decisions(s, time), s.vehicles.len());
    crate::admission::lemma_far_reset(
        s.vehicles[i],
        grid_after_negotiations(s.vehicles, speeds, s.grid, time, i as nat),
        speeds[i],
        time,
    );
}

/// The speed a vehicle is commanded in a step is the slower of the speed
/// the traffic allows it and the speed the intersection allows it, in the
/// order `Stopped < Slow < Medium < Fast`, whichever of the two is which,
/// unless the vehicle is past the intersection, where it is `Fast`. Both
/// speeds are worked out from the vehicles as they stand when the step
/// begins.
pub proof fn lemma_drive_commands_slowest(s: EngineView, time: i64, i: int)
    requires
        0 <= i < s.vehicles.len(),
    ensures
        ({
            let speeds = spec_traffic_speeds(s.vehicles);
            let grid = grid_after_negotiations(s.vehicles, speeds, s.grid, time, i as nat);
            let allowed = crate::admission::spec_intersection_speed(s.vehicles[i], grid, time);
            let commanded = spec_drive(s, time).vehicles[i].current_speed;
            if s.vehicles[i].spec_is_past_intersection() {
                commanded == Velocity::Fast
            } else {
                &&& commanded == speeds[i].spec_slowest(allowed)
                &&& commanded == allowed.spec_slowest(speeds[i])
                &&& commanded.rank() == vstd::math::min(
                    speeds[i].rank() as int,
                    allowed.rank() as int,
                )
            }
        }),
{
    let speeds = spec_traffic_speeds(s.vehicles);
    lemma_applied_vehicles(negotiated(s, time), spec_decisions(s, time), s.vehicles.len());
    crate::admission::lemma_commanded_speed(
        s.vehicles[i],
        grid_after_negotiations(s.vehicles, speeds, s.grid, time, i as nat),
        speeds[i],
        time,
    );
}

/// What a step does with a vehicle that asks for the intersection, on the
/// grid that the vehicles before it have left. It is marked as having
/// asked and holds the permission exactly if its request was granted. A
/// granted speed is one at which that grid admits the whole path, and the
/// vehicle is commanded no faster than it. A vehicle that is denied is
/// commanded `Stopped`, stays where it is, and has booked nothing.
pub proof fn lemma_drive_asking_vehicle(s: EngineView, time: i64, i: int)
    requires
        0 <= i < s.vehicles.len(),
        crate::admission::asks(
            s.vehicles[i],
            s.vehicles[i].requested_intersection,
            s.vehicles[i].intersection_permission,
        ),
    ensures
        ({
            let speeds = spec_traffic_speeds(s.vehicles);
            let vehicle = s.vehicles[i];
            let grid = grid_after_negotiations(s.vehicles, speeds, s.grid, time, i as nat);
            let path = spec_vehicle_path(vehicle.direction, vehicle.route);
            let distance = vehicle.spec_distance_to_intersection() as i64;
            let outcome = request_outcome(
                grid,
                vehicle.id,
                path,
                crate::admission::asking_speed(vehicle, vehicle.intersection_permission),
                time,
                distance,
            );
            let after = spec_drive(s, time).vehicles[i];
            &&& after.requested_intersection
            &&& after.intersection_permission == (outcome.granted is Some)
            &&& grid_after_negotiations(s.vehicles, speeds, s.grid, time, (i + 1) as nat)
                == outcome.grid
            &&& outcome.granted is None ==> {
                &&& after.current_speed == Velocity::Stopped
                &&& after.position == vehicle.position
                &&& outcome.grid == grid
            }
            &&& outcome.granted matches Some(speed) ==> {
                &&& crate::admission::admits_path(grid, path, speed, time, distance)
                &&& outcome.grid == crate::admission::committed(
                    grid,
                    vehicle.id,
                    path,
                    speed,
                    time,
                    distance,
                )
                &&& after.current_speed == speeds[i].spec_slowest(speed)
                &&& after.current_speed.rank() <= speed.rank()
            }
        }),
{
    let speeds = spec_traffic_speeds(s.vehicles);
    let vehicle = s.vehicles[i];
    let grid = grid_after_negotiations(s.vehicles, speeds, s.grid, time, i as nat);
    lemma_applied_vehicles(negotiated(s, time), spec_decisions(s, time), s.vehicles.len());
    crate::admission::lemma_asking_vehicle(vehicle, grid, speeds[i], time);
    crate::admission::lemma_all_or_nothing(
        grid,
        vehicle.id,
        spec_vehicle_path(vehicle.direction, vehicle.route),
        crate::admission::asking_speed(vehicle, vehicle.intersection_permission),
        time,
        vehicle.spec_distance_to_intersection() as i64,
    );
}

/// What a step does with a vehicle that asks while it stands, or while it
/// waits without permission at the entrance: only `Fast` is tried. If the
/// grid that the vehicles before it have left does not admit its path at
/// `Fast`, the vehicle stays denied, marked as having asked, commanded
/// `Stopped` and unmoved, and books nothing, whatever `Medium` or `Slow`
/// would have been granted. This holds of every step in which the vehicle
/// so asks, so it asks again in the next.
pub proof fn lemma_drive_standing_vehicle(s: EngineView, time: i64, i: int)
    requires
        0 <= i < s.vehicles.len(),
        crate::admission::asks(
            s.vehicles[i],
            s.vehicles[i].requested_intersection,
            s.vehicles[i].intersection_permission,
        ),
        s.vehicles[i].current_speed == Velocity::Stopped || (
        s.vehicles[i].spec_distance_to_intersection() <= 10
            && !s.vehicles[i].intersection_permission),
    ensures
        ({
            let speeds = spec_traffic_speeds(s.vehicles);
            let vehicle = s.vehicles[i];
            let grid = grid_after_negotiations(s.vehicles, speeds, s.grid, time, i as nat);
            let free = crate::admission::admits_path(
                grid,
                spec_vehicle_path(vehicle.direction, vehicle.route),
                Velocity::Fast,
                time,
                vehicle.spec_distance_to_intersection() as i64,
            );
            let after = spec_drive(s, time).vehicles[i];
            &&& after.requested_intersection
            &&& after.intersection_permission == free
            &&& !free ==> {
                &&& after.current_speed == Velocity::Stopped
                &&& after.position == vehicle.position
                &&& grid_after_negotiations(s.vehicles, speeds, s.grid, time, (i + 1) as nat)
                    == grid
            }
        }),
{
    let speeds = spec_traffic_speeds(s.vehicles);
    let grid = grid_after_negotiations(s.vehicles, speeds, s.grid, time, i as nat);
    lemma_applied_vehicles(negotiated(s, time), spec_decisions(s, time), s.vehicles.len());
    crate::admission::lemma_standing_vehicle_tries_fast_only(s.vehicles[i], grid, speeds[i], time);
}

proof fn lemma_negotiations_keep_conflict_free(
    vehicles: Seq<Vehicle>,
    speeds: Seq<Velocity>,
    grid: GridView,
    time: i64,
    n: nat,
)
    requires
        grid.wf(),
        grid.conflict_free(),
    ensures
        grid_after_negotiations(vehicles, speeds, grid, time, n).wf(),
        grid_after_negotiations(vehicles, speeds, grid, time, n).conflict_free(),
    decreases n,
{
    if n > 0 {
        lemma_negotiations_keep_conflict_free(vehicles, speeds, grid, time, (n - 1) as nat);
        crate::admission::lemma_negotiate_keeps_conflict_free(
            vehicles[n - 1],
            grid_after_negotiations(vehicles, speeds, grid, time, (n - 1) as nat),
            speeds[n - 1],
            time,
        );
    }
}

proof fn lemma_applied_keeps_conflict_free(s: EngineView, decisions: Seq<Decision>, n: nat)
    requires
        s.grid.wf(),
        s.grid.conflict_free(),
    ensures
        applied(s, decisions, n).grid.wf(),
        applied(s, decisions, n).grid.conflict_free(),
    decreases n,
{
    if n > 0 {
        lemma_applied_keeps_conflict_free(s, decisions, (n - 1) as nat);
        applied(s, decisions, (n - 1) as nat).grid.lemma_release_keeps_conflict_free(
            decisions[n - 1].release,
            s.vehicles[n - 1].id,
        );
    }
}

proof fn lemma_retired_keeps_conflict_free(s: EngineView, n: nat)
    requires
        s.grid.wf(),
        s.grid.conflict_free(),
    ensures
        retired(s, n).grid.wf(),
        retired(s, n).grid.conflict_free(),
    decreases n,
{
    if n > 0 {
        lemma_retired_keeps_conflict_free(s, (n - 1) as nat);
        retired(s, (n - 1) as nat).grid.lemma_release_keeps_conflict_free(
            Seq::empty(),
            s.vehicles[n - 1].id,
        );
    }
}

/// A step keeps the grid free of conflicts: if no cell holds overlapping
/// reservations of two different vehicles before it, none does after it.
/// The same holds of a vehicle's appearing, which leaves the grid alone.
pub proof fn lemma_update_keeps_conflict_free(s: EngineView, time: i64)
    requires
        s.grid.wf(),
        s.grid.conflict_free(),
    ensures
        spec_update(s, time).grid.wf(),
        spec_update(s, time).grid.conflict_free(),
        forall|direction: Direction, route: Route, sprite: u32|
            (#[trigger] spawned(s, direction, route, sprite)).grid == s.grid,
{
    let speeds = spec_traffic_speeds(s.vehicles);
    let n = s.vehicles.len();
    lemma_negotiations_keep_conflict_free(s.vehicles, speeds, s.grid, time, n);
    lemma_applied_keeps_conflict_free(negotiated(s, time), spec_decisions(s, time), n);
    let driven = spec_drive(s, time);
    lemma_retired_keeps_conflict_free(driven, driven.vehicles.len());
    let sorted_out = retired(driven, driven.vehicles.len());
    lemma_track_keeps_vehicles(sorted_out, time, sorted_out.vehicles.len());
}

/// Whether no vehicle among the first `n` has the id `id`.
pub open spec fn id_unused(vehicles: Seq<Vehicle>, id: usize, n: nat) -> bool {
    forall|i: int| 0 <= i < n ==> (#[trigger] vehicles[i]).id != id
}

proof fn lemma_negotiations_keep_others(
    vehicles: Seq<Vehicle>,
    speeds: Seq<Velocity>,
    grid: GridView,
    time: i64,
    n: nat,
    other: usize,
)
    requires
        n <= vehicles.len(),
        id_unused(vehicles, other, n),
    ensures
        grid_after_negotiations(vehicles, speeds, grid, time, n).holdings(other) == grid.holdings(
            other,
        ),
    decreases n,
{
    if n > 0 {
        lemma_negotiations_keep_others(vehicles, speeds, grid, time, (n - 1) as nat, other);
        crate::admission::lemma_negotiate_keeps_others(
            vehicles[n - 1],
            grid_after_negotiations(vehicles, speeds, grid, time, (n - 1) as nat),
            speeds[n - 1],
            time,
            other,
        );
    }
}

proof fn lemma_applied_keeps_others(s: EngineView, decisions: Seq<Decision>, n: nat, other: usize)
    requires
        n <= s.vehicles.len(),
        id_unused(s.vehicles, other, n),
    ensures
        applied(s, decisions, n).grid.holdings(other) == s.grid.holdings(other),
    decreases n,
{
    if n > 0 {
        lemma_applied_keeps_others(s, decisions, (n - 1) as nat, other);
        applied(s, decisions, (n - 1) as nat).grid.lemma_release_keeps_holdings(
            decisions[n - 1].release,
            s.vehicles[n - 1].id,
            other,
        );
    }
}

proof fn lemma_retired_keeps_others(s: EngineView, n: nat, other: usize)
    requires
        n <= s.vehicles.len(),
        id_unused(s.vehicles, other, n),
    ensures
        retired(s, n).grid.holdings(other) == s.grid.holdings(other),
    decreases n,
{
    if n > 0 {
        lemma_retired_keeps_others(s, (n - 1) as nat, other);
        retired(s, (n - 1) as nat).grid.lemma_release_keeps_holdings(
            Seq::empty(),
            s.vehicles[n - 1].id,
            other,
        );
    }
}

/// A step changes nothing of what a vehicle holds in the grid that is not
/// among the vehicles of the intersection: reservations are made, given back
/// and, when a vehicle leaves the field, dropped only under the ids of the
/// vehicles themselves.
pub proof fn lemma_update_keeps_others(s: EngineView, time: i64, other: usize)
    requires
        id_unused(s.vehicles, other, s.vehicles.len()),
    ensures
        spec_update(s, time).grid.holdings(other) == s.grid.holdings(other),
{
    let speeds = spec_traffic_speeds(s.vehicles);
    let n = s.vehicles.len();
    let decisions = spec_decisions(s, time);
    lemma_negotiations_keep_others(s.vehicles, speeds, s.grid, time, n, other);
    lemma_applied_keeps_others(negotiated(s, time), decisions, n, other);
    lemma_applied_vehicles(negotiated(s, time), decisions, n);
    let driven = spec_drive(s, time);
    assert(id_unused(driven.vehicles, other, n)) by {
        assert forall|i: int| 0 <= i < n implies (#[trigger] driven.vehicles[i]).id != other by {
            assert(driven.vehicles[i] == with_decision(s.vehicles[i], decisions[i]).moved());
            assert(s.vehicles[i].id != other);
        }
    }
    lemma_retired_keeps_others(driven, n, other);
    let sorted_out = retired(driven, n);
    lemma_track_keeps_vehicles(sorted_out, time, sorted_out.vehicles.len());
}

/// Whether a step leaves the vehicles with the id `id` their hold on the
/// cell with index `idx`: none of them gives that cell back in its decision,
/// and none of them leaves the field.
pub open spec fn keeps_hold(s: EngineView, time: i64, id: usize, idx: int) -> bool {
    forall|j: int|
        0 <= j < s.vehicles.len() && (#[trigger] s.vehicles[j]).id == id ==> {
            &&& !s.grid.lists(spec_decisions(s, time)[j].release, idx)
            &&& !spec_drive(s, time).vehicles[j].spec_is_outside_canvas()
        }
}

/// Whether a grid has the shape of another and holds in the cell `idx`, for
/// the vehicle `id`, all that the other held, in the same order and before
/// anything else.
pub open spec fn still_holds(before: GridView, after: GridView, id: usize, idx: int) -> bool {
    &&& after.cols == before.cols
    &&& after.rows == before.rows
    &&& after.cells.len() == before.cells.len()
    &&& before.cells[idx].filter(owned_by(id)).is_prefix_of(after.cells[idx].filter(owned_by(id)))
}

proof fn lemma_still_holds_chain(a: GridView, b: GridView, c: GridView, id: usize, idx: int)
    requires
        still_holds(a, b, id, idx),
        still_holds(b, c, id, idx),
    ensures
        still_holds(a, c, id, idx),
{
    let x = a.cells[idx].filter(owned_by(id));
    let y = b.cells[idx].filter(owned_by(id));
    let z = c.cells[idx].filter(owned_by(id));
    assert(x =~= y.subrange(0, x.len() as int));
    assert(y =~= z.subrange(0, y.len() as int));
    assert(x =~= z.subrange(0, x.len() as int));
}

proof fn lemma_negotiations_keep_slots(
    vehicles: Seq<Vehicle>,
    speeds: Seq<Velocity>,
    grid: GridView,
    time: i64,
    n: nat,
    id: usize,
    idx: int,
)
    requires
        0 <= idx < grid.cells.len(),
    ensures
        still_holds(grid, grid_after_negotiations(vehicles, speeds, grid, time, n), id, idx),
    decreases n,
{
    if n == 0 {
        let x = grid.cells[idx].filter(owned_by(id));
        assert(x =~= x.subrange(0, x.len() as int));
    } else {
        lemma_negotiations_keep_slots(vehicles, speeds, grid, time, (n - 1) as nat, id, idx);
        let before = grid_after_negotiations(vehicles, speeds, grid, time, (n - 1) as nat);
        crate::admission::lemma_negotiate_keeps_slots(
            vehicles[n - 1],
            before,
            speeds[n - 1],
            time,
            id,
            idx,
        );
        let after = grid_after_negotiations(vehicles, speeds, grid, time, n);
        assert(still_holds(before, after, id, idx)) by {
            let x = before.cells[idx].filter(owned_by(id));
            let y = after.cells[idx].filter(owned_by(id));
            assert(x.is_prefix_of(y));
        }
        lemma_still_holds_chain(grid, before, after, id, idx);
    }
}

proof fn lemma_applied_keeps_slots(
    s: EngineView,
    decisions: Seq<Decision>,
    n: nat,
    id: usize,
    idx: int,
)
    requires
        n <= s.vehicles.len(),
        0 <= idx < s.grid.cells.len(),
        forall|j: int|
            0 <= j < n && (#[trigger] s.vehicles[j]).id == id ==> !s.grid.lists(
                decisions[j].release,
                idx,
            ),
    ensures
        still_holds(s.grid, applied(s, decisions, n).grid, id, idx),
    decreases n,
{
    let x = s.grid.cells[idx].filter(owned_by(id));
    if n == 0 {
        assert(x =~= x.subrange(0, x.len() as int));
    } else {
        lemma_applied_keeps_slots(s, decisions, (n - 1) as nat, id, idx);
        let before = applied(s, decisions, (n - 1) as nat).grid;
        let after = applied(s, decisions, n).grid;
        let releaser = s.vehicles[n - 1].id;
        let cells = decisions[n - 1].release;
        assert(after == before.released(cells, releaser));
        if releaser == id {
            assert(!s.grid.lists(cells, idx));
            assert(!before.lists(cells, idx)) by {
                if before.lists(cells, idx) {
                    let k = choose|k: int|
                        0 <= k < cells.len() && before.in_bounds(#[trigger] cells[k])
                            && before.index_of(cells[k]) == idx;
                    assert(s.grid.in_bounds(cells[k]) && s.grid.index_of(cells[k]) == idx);
                }
            }
            assert(after.cells[idx] == before.cells[idx]);
        } else {
            before.lemma_release_keeps_others(cells, releaser, id, idx);
        }
        let y = before.cells[idx].filter(owned_by(id));
        assert(y =~= y.subrange(0, y.len() as int));
        assert(still_holds(before, after, id, idx));
        lemma_still_holds_chain(s.grid, before, after, id, idx);
    }
}

proof fn lemma_retired_keeps_slots(s: EngineView, n: nat, id: usize, idx: int)
    requires
        n <= s.vehicles.len(),
        0 <= idx < s.grid.cells.len(),
        forall|j: int|
            0 <= j < n && (#[trigger] s.vehicles[j]).id == id
                ==> !s.vehicles[j].spec_is_outside_canvas(),
    ensures
        still_holds(s.grid, retired(s, n).grid, id, idx),
    decreases n,
{
    let x = s.grid.cells[idx].filter(owned_by(id));
    if n == 0 {
        assert(x =~= x.subrange(0, x.len() as int));
    } else {
        lemma_retired_keeps_slots(s, (n - 1) as nat, id, idx);
        let before = retired(s, (n - 1) as nat).grid;
        let after = retired(s, n).grid;
        let vehicle = s.vehicles[n - 1];
        if vehicle.spec_is_outside_canvas() {
            assert(vehicle.id != id);
            before.lemma_released_everywhere(vehicle.id, id, idx);
        }
        let y = before.cells[idx].filter(owned_by(id));
        assert(y =~= y.subrange(0, y.len() as int));
        assert(still_holds(before, after, id, idx));
        lemma_still_holds_chain(s.grid, before, after, id, idx);
    }
}

/// A step takes a reservation out of a cell only for the vehicle that holds
/// it, and only where that vehicle gives the cell back or leaves the field.
/// Where no vehicle with the id `id` gives the cell `idx` back in the step,
/// and none leaves the field, every reservation that `id` held in the cell
/// before the step is still there after it, in the same order, followed by
/// what the step has booked for `id`. No release made for another vehicle
/// touches them.
pub proof fn lemma_update_keeps_slots(s: EngineView, time: i64, id: usize, idx: int)
    requires
        0 <= idx < s.grid.cells.len(),
        keeps_hold(s, time, id, idx),
    ensures
        still_holds(s.grid, spec_update(s, time).grid, id, idx),
{
    let speeds = spec_traffic_speeds(s.vehicles);
    let n = s.vehicles.len();
    let decisions = spec_decisions(s, time);
    let base = negotiated(s, time);
    lemma_negotiations_keep_slots(s.vehicles, speeds, s.grid, time, n, id, idx);
    assert forall|j: int| 0 <= j < n && (#[trigger] base.vehicles[j]).id == id implies !base.grid.lists(
        decisions[j].release,
        idx,
    ) by {
        assert(s.vehicles[j].id == id);
        let cells = decisions[j].release;
        assert(!s.grid.lists(cells, idx));
        if base.grid.lists(cells, idx) {
            let k = choose|k: int|
                0 <= k < cells.len() && base.grid.in_bounds(#[trigger] cells[k])
                    && base.grid.index_of(cells[k]) == idx;
            assert(s.grid.in_bounds(cells[k]) && s.grid.index_of(cells[k]) == idx);
        }
    }
    lemma_applied_keeps_slots(base, decisions, n, id, idx);
    lemma_applied_vehicles(base, decisions, n);
    let driven = spec_drive(s, time);
    lemma_still_holds_chain(s.grid, base.grid, driven.grid, id, idx);
    assert forall|j: int| 0 <= j < n && (#[trigger] driven.vehicles[j]).id == id implies !driven.vehicles[j].spec_is_outside_canvas() by {
        assert(driven.vehicles[j] == with_decision(s.vehicles[j], decisions[j]).moved());
        assert(s.vehicles[j].id == id);
    }
    lemma_retired_keeps_slots(driven, n, id, idx);
    let sorted_out = retired(driven, n);
    lemma_still_holds_chain(s.grid, driven.grid, sorted_out.grid, id, idx);
    lemma_track_keeps_vehicles(sorted_out, time, sorted_out.vehicles.len());
}

/// Looking at the stays changes neither the vehicles nor the next id.
pub proof fn lemma_track_keeps_vehicles(s: EngineView, time: i64, n: nat)
    ensures
        stays_seen(s, time, n).state.vehicles == s.vehicles,
        stays_seen(s, time, n).state.next_id == s.next_id,
        stays_seen(s, time, n).state.grid == s.grid,
    decreases n,
{
    if n > 0 {
        lemma_track_keeps_vehicles(s, time, (n - 1) as nat);
    }
}

/// Tells whether `pair` is among `pairs`.
pub fn pairs_contain(pairs: &Vec<(usize, usize)>, pair: (usize, usize)) -> (r: bool)
    ensures
        r == pairs@.contains(pair),
{
    let mut k: usize = 0;
    while k < pairs.len()
        invariant
            k <= pairs.len(),
            forall|m: int| 0 <= m < k ==> pairs@[m] != pair,
        decreases pairs.len() - k,
    {
        if pairs[k].0 == pair.0 && pairs[k].1 == pair.1 {
            return true;
        }
        k += 1;
    }
    false
}

impl View for SmartIntersection {
    type V = EngineView;

    open spec fn view(&self) -> EngineView {
        EngineView {
            vehicles: self.active_vehicles@,
            grid: self.grid@,
            total_vehicles_passed: self.total_vehicles_passed as int,
            max_velocity_recorded: self.max_velocity_recorded as int,
            min_velocity_recorded: self.min_velocity_recorded as int,
            max_time_in_intersection: self.max_time_in_intersection as int,
            min_time_in_intersection: self.min_time_in_intersection as int,
            close_calls: self.close_calls as int,
            is_running: self.is_running,
            close_call_pairs: self.close_call_pairs_this_frame@,
            zone_stays: self.vehicle_intersection_times@,
            next_id: self.next_id as int,
        }
    }
}

impl SmartIntersection {
    /// Every vehicle is on the field and has an id below the next one.
    pub open spec fn wf(&self) -> bool {
        &&& forall|i: int| 0 <= i < self@.vehicles.len() ==> on_field(#[trigger] self@.vehicles[i])
        &&& forall|i: int|
            0 <= i < self@.vehicles.len() ==> (#[trigger] self@.vehicles[i]).id < self@.next_id
    }

    /// An intersection without vehicles or reservations, with its paths computed.
    pub fn new() -> (intersection: SmartIntersection)
        ensures
            intersection@ == (EngineView {
                vehicles: Seq::empty(),
                grid: GridView::empty(GRID_COLS as nat, GRID_ROWS as nat),
                total_vehicles_passed: 0,
                max_velocity_recorded: 0,
                min_velocity_recorded: NO_VELOCITY_YET as int,
                max_time_in_intersection: 0,
                min_time_in_intersection: NO_TIME_YET as int,
                close_calls: 0,
                is_running: true,
                close_call_pairs: Seq::empty(),
                zone_stays: Map::empty(),
                next_id: 1,
            }),
            intersection.wf(),
            intersection@.grid.conflict_free(),
    {
        proof {
            GridView::lemma_empty_conflict_free(GRID_COLS as nat, GRID_ROWS as nat);
        }
        let intersection = SmartIntersection {
            active_vehicles: Vec::new(),
            grid: ReservationGrid::new(GRID_COLS, GRID_ROWS),
            path_cache: PathCache::initialize_path_cache(),
            total_vehicles_passed: 0,
            max_velocity_recorded: 0,
            min_velocity_recorded: NO_VELOCITY_YET,
            max_time_in_intersection: 0,
            min_time_in_intersection: NO_TIME_YET,
            close_calls: 0,
            is_running: true,
            close_call_pairs_this_frame: Vec::new(),
            vehicle_intersection_times: EntryTimes::new(),
            next_id: 1,
        };
        intersection
    }

    /// The figures of the run so far.
    pub fn get_final_stats(&self) -> (stats: FinalStats)
        ensures
            stats == (FinalStats {
                total_vehicles_passed: self.total_vehicles_passed,
                max_velocity_recorded: self.max_velocity_recorded,
                min_velocity_recorded: if self.min_velocity_recorded == NO_VELOCITY_YET {
                    0
                } else {
                    self.min_velocity_recorded
                },
                max_time_in_intersection: self.max_time_in_intersection,
                min_time_in_intersection: if self.min_time_in_intersection == NO_TIME_YET {
                    0
                } else {
                    self.min_time_in_intersection
                },
                close_calls: self.close_calls,
                active_vehicles: self.active_vehicles.len(),
            }),
    {
        FinalStats {
            total_vehicles_passed: self.total_vehicles_passed,
            max_velocity_recorded: self.max_velocity_recorded,
            min_velocity_recorded: if self.min_velocity_recorded == NO_VELOCITY_YET {
                0
            } else {
                self.min_velocity_recorded
            },
            max_time_in_intersection: self.max_time_in_intersection,
            min_time_in_intersection: if self.min_time_in_intersection == NO_TIME_YET {
                0
            } else {
                self.min_time_in_intersection
            },
            close_calls: self.close_calls,
            active_vehicles: self.active_vehicles.len(),
        }
    }

    /// Tells whether every vehicle is on the field, with lengths small
    /// enough to compute with and an id below the next one.
    pub fn is_well_formed(&self) -> (r: bool)
        ensures
            r == self.wf(),
    {
        let n: usize = self.active_vehicles.len();
        let mut i: usize = 0;
        while i < n
            invariant
                i <= n,
                n == self.active_vehicles@.len(),
                forall|k: int|
                    0 <= k < i ==> on_field(#[trigger] self@.vehicles[k]) && self@.vehicles[k].id
                        < self@.next_id,
            decreases n - i,
        {
            let v = &self.active_vehicles[i];
            if !v.is_wf() || v.is_outside_canvas() || v.id >= self.next_id {
                return false;
            }
            i += 1;
        }
        true
    }

    /// Tells whether a vehicle may be asked to appear: the intersection is
    /// well formed and has an id left to give.
    pub fn can_spawn(&self) -> (r: bool)
        ensures
            r == (self.wf() && self@.next_id < usize::MAX),
    {
        self.next_id < usize::MAX && self.is_well_formed()
    }

    /// Tells whether `update` may be called at `current_time`: the
    /// intersection is well formed, the counters have room for a step, and the
    /// instant is in range.
    pub fn can_update(&self, current_time: i64) -> (r: bool)
        ensures
            r == (self.wf() && has_headroom(self@) && -MAX_TIME <= current_time <= MAX_TIME),
    {
        if current_time < -MAX_TIME || current_time > MAX_TIME {
            return false;
        }
        let n: usize = self.active_vehicles.len();
        if n > 0xffff {
            proof {
                assert(n * n > u32::MAX) by (nonlinear_arith)
                    requires
                        n > 0xffff,
                ;
            }
            return false;
        }
        assert(n * n <= 0xffff * 0xffff) by (nonlinear_arith)
            requires
                0 <= n <= 0xffff,
        ;
        if self.total_vehicles_passed as u64 + n as u64 > u32::MAX as u64 {
            return false;
        }
        if self.close_calls as u64 + (n as u64) * (n as u64) > u32::MAX as u64 {
            return false;
        }
        self.is_well_formed()
    }

    /// Tells whether a vehicle of this direction and route may appear at
    /// `spawn_pos`.
    pub fn is_safe_to_spawn(&self, direction: Direction, route: Route, spawn_pos: (i64, i64)) -> (r:
        bool)
        requires
            self.wf(),
            -COORD_LIMIT <= spawn_pos.0 <= COORD_LIMIT,
            -COORD_LIMIT <= spawn_pos.1 <= COORD_LIMIT,
        ensures
            r == spec_is_safe_to_spawn(self@.vehicles, direction, route, spawn_pos),
    {
        let mut i: usize = 0;
        while i < self.active_vehicles.len()
            invariant
                self.wf(),
                i <= self.active_vehicles.len(),
                -COORD_LIMIT <= spawn_pos.0 <= COORD_LIMIT,
                -COORD_LIMIT <= spawn_pos.1 <= COORD_LIMIT,
                forall|k: int|
                    0 <= k < i && (#[trigger] self@.vehicles[k]).direction == direction
                        && self@.vehicles[k].route == route ==> spawn_gap(
                        self@.vehicles[k],
                        direction,
                        spawn_pos,
                    ) >= 100,
            decreases self.active_vehicles.len() - i,
        {
            let vehicle = &self.active_vehicles[i];
            assert(on_field(self@.vehicles[i as int]));
            if vehicle.direction == direction && vehicle.route == route {
                let gap: i64 = match direction {
                    Direction::North | Direction::South => vehicle.position.1 - spawn_pos.1,
                    Direction::East | Direction::West => vehicle.position.0 - spawn_pos.0,
                };
                let distance: i64 = if gap < 0 {
                    -gap
                } else {
                    gap
                };
                if distance < MIN_SPAWN_DISTANCE {
                    return false;
                }
            }
            i += 1;
        }
        true
    }

    /// Lets a vehicle of this direction and route, drawn with the image
    /// `sprite`, appear if its spawn position is clear. Returns its id, or
    /// `None` if the position is not clear and nothing has changed.
    pub fn spawn_vehicle_on_route(&mut self, direction: Direction, route: Route, sprite: u32) -> (id:
        Option<usize>)
        requires
            old(self).wf(),
            old(self)@.next_id < usize::MAX,
        ensures
            final(self)@ == spawned(old(self)@, direction, route, sprite),
            final(self).wf(),
            id == (if spec_is_safe_to_spawn(
                old(self)@.vehicles,
                direction,
                route,
                spec_spawn_position(direction, route),
            ) {
                Some(old(self)@.next_id as usize)
            } else {
                None
            }),
    {
        let spawn_pos = get_spawn_position(direction, route);
        let turn_pos = get_turn_position(direction, route);
        if self.is_safe_to_spawn(direction, route, spawn_pos) {
            let id = self.next_id;
            let vehicle = Vehicle::new(id, sprite, route, direction, spawn_pos, turn_pos);
            self.active_vehicles.push(vehicle);
            self.next_id = id + 1;
            proof {
                assert forall|i: int| 0 <= i < self@.vehicles.len() implies on_field(
                    #[trigger] self@.vehicles[i],
                ) && self@.vehicles[i].id < self@.next_id by {
                    if i < old(self)@.vehicles.len() {
                        assert(self@.vehicles[i] == old(self)@.vehicles[i]);
                    }
                }
            }
            Some(id)
        } else {
            None
        }
    }

    /// Lets a vehicle appear, from `direction` or from a direction drawn by
    /// chance, on a route and with an image drawn by chance. Returns its id, or
    /// `None` if its spawn position is not clear and nothing has changed.
    pub fn spawn_vehicle(&mut self, direction: Option<Direction>) -> (id: Option<usize>)
        requires
            old(self).wf(),
            old(self)@.next_id < usize::MAX,
        ensures
            final(self).wf(),
            exists|dir: Direction, route: Route, sprite: u32|
                {
                    &&& direction matches Some(d) ==> dir == d
                    &&& 1 <= sprite <= SPRITE_COUNT
                    &&& final(self)@ == #[trigger] spawned(old(self)@, dir, route, sprite)
                    &&& id == (if spec_is_safe_to_spawn(
                        old(self)@.vehicles,
                        dir,
                        route,
                        spec_spawn_position(dir, route),
                    ) {
                        Some(old(self)@.next_id as usize)
                    } else {
                        None
                    })
                },
    {
        let dir = match direction {
            Some(d) => d,
            None => get_random_direction(),
        };
        let route = get_random_route();
        let sprite = get_random_sprite();
        let id = self.spawn_vehicle_on_route(dir, route, sprite);
        proof {
            assert(self@ == spawned(old(self)@, dir, route, sprite));
        }
        id
    }

    /// Asks the grid to admit the path of this direction and route for the
    /// vehicle `vehicle_id`, which drives at `current_speed` and is
    /// `distance_to_intersection` pixels away at `current_time`.
    pub fn try_two_path_intersection_request(
        &mut self,
        vehicle_id: usize,
        route: Route,
        direction: Direction,
        current_speed: Velocity,
        current_time: i64,
        distance_to_intersection: i64,
    ) -> (r: (bool, Velocity))
        requires
            -MAX_TIME <= current_time <= MAX_TIME,
            -MAX_DISTANCE <= distance_to_intersection <= MAX_DISTANCE,
        ensures
            final(self)@ == (EngineView {
                grid: request_outcome(
                    old(self)@.grid,
                    vehicle_id,
                    spec_vehicle_path(direction, route),
                    current_speed,
                    current_time,
                    distance_to_intersection,
                ).grid,
                ..old(self)@
            }),
            r == match request_outcome(
                old(self)@.grid,
                vehicle_id,
                spec_vehicle_path(direction, route),
                current_speed,
                current_time,
                distance_to_intersection,
            ).granted {
                Some(speed) => (true, speed),
                None => (false, Velocity::Stopped),
            },
            old(self)@.grid.conflict_free() ==> final(self)@.grid.conflict_free(),
    {
        let path = self.path_cache.get(direction, route);
        proof {
            lemma_path_distances(direction, route);
        }
        request_admission(
            &mut self.grid,
            path,
            vehicle_id,
            current_speed,
            current_time,
            distance_to_intersection,
        )
    }

    /// Holds the vehicle at `vehicle_index` against all others and counts
    /// each close call that is not flagged yet.
    pub fn detect_close_calls(&mut self, vehicle_index: usize)
        requires
            vehicle_index < old(self)@.vehicles.len(),
            all_wf(old(self)@.vehicles),
            old(self)@.close_calls + old(self)@.vehicles.len() <= u32::MAX,
        ensures
            final(self)@ == (EngineView {
                close_call_pairs: close_call_scan(
                    old(self)@.vehicles,
                    vehicle_index as int,
                    old(self)@.close_call_pairs,
                    old(self)@.vehicles.len(),
                ),
                close_calls: old(self)@.close_calls + (final(self)@.close_call_pairs.len() - old(
                    self,
                )@.close_call_pairs.len()),
                ..old(self)@
            }),
            old(self)@.close_call_pairs.len() <= final(self)@.close_call_pairs.len() <= old(
                self,
            )@.close_call_pairs.len() + old(self)@.vehicles.len(),
    {
        let current_vehicle = self.active_vehicles[vehicle_index];
        let inside = current_vehicle.is_in_intersection();
        let ghost vehicles = self@.vehicles;
        let ghost pairs0 = self@.close_call_pairs;
        let mut j: usize = 0;
        while j < self.active_vehicles.len()
            invariant
                j <= self.active_vehicles.len(),
                vehicle_index < vehicles.len(),
                all_wf(vehicles),
                vehicles == old(self)@.vehicles,
                pairs0 == old(self)@.close_call_pairs,
                current_vehicle == vehicles[vehicle_index as int],
                inside == current_vehicle.spec_is_in_intersection(),
                old(self)@.close_calls + vehicles.len() <= u32::MAX,
                self@.close_call_pairs == close_call_scan(
                    vehicles,
                    vehicle_index as int,
                    pairs0,
                    j as nat,
                ),
                pairs0.len() <= self@.close_call_pairs.len() <= pairs0.len() + j,
                self@ == (EngineView {
                    close_call_pairs: self@.close_call_pairs,
                    close_calls: old(self)@.close_calls + (self@.close_call_pairs.len()
                        - pairs0.len()),
                    ..old(self)@
                }),
            decreases self.active_vehicles.len() - j,
        {
            if inside && j != vehicle_index {
                let other_vehicle = self.active_vehicles[j];
                let pair = if current_vehicle.id < other_vehicle.id {
                    (current_vehicle.id, other_vehicle.id)
                } else {
                    (other_vehicle.id, current_vehicle.id)
                };
                if !pairs_contain(&self.close_call_pairs_this_frame, pair) {
                    let distance: i64 = current_vehicle.distance_to_vehicle(&other_vehicle);
                    if distance < MIN_SAFE_DISTANCE && other_vehicle.is_in_intersection() {
                        self.close_calls = self.close_calls + 1;
                        self.close_call_pairs_this_frame.push(pair);
                    }
                }
            }
            j += 1;
        }
    }

    /// Takes the length of a finished stay into the longest and the
    /// shortest stay.
    pub fn record_stay(&mut self, time_in_intersection: i64)
        ensures
            final(self)@ == stay_recorded(old(self)@, time_in_intersection as int),
    {
        if time_in_intersection > self.max_time_in_intersection {
            self.max_time_in_intersection = time_in_intersection;
        }
        if time_in_intersection < self.min_time_in_intersection {
            self.min_time_in_intersection = time_in_intersection;
        }
    }

    /// Records that a vehicle with this id and speed has left the field,
    /// and finishes its stay in the intersection if one is still on record.
    pub fn update_stats_for_exiting_vehicle_by_data(
        &mut self,
        vehicle_id: usize,
        current_speed: Velocity,
        _current_time: i64,
    )
        requires
            old(self)@.total_vehicles_passed < u32::MAX,
        ensures
            final(self)@ == exit_recorded(old(self)@, vehicle_id, current_speed),
    {
        self.total_vehicles_passed = self.total_vehicles_passed + 1;
        let vehicle_max_speed: u32 = match current_speed {
            Velocity::Slow => 3,
            Velocity::Medium => 5,
            Velocity::Fast => 7,
            Velocity::Stopped => 0,
        };
        if vehicle_max_speed > self.max_velocity_recorded {
            self.max_velocity_recorded = vehicle_max_speed;
        }
        if vehicle_max_speed < self.min_velocity_recorded {
            self.min_velocity_recorded = vehicle_max_speed;
        }
        match self.vehicle_intersection_times.get(vehicle_id) {
            Some(stay) => {
                self.record_stay(stay.length());
            },
            None => {},
        }
        self.vehicle_intersection_times.remove(vehicle_id);
    }

    /// Takes every vehicle through one step: works out the speeds that the
    /// traffic allows, lets every vehicle negotiate in turn, then carries
    /// the decisions out in the same order.
    pub fn update_vehicles_with_two_path_system(&mut self, current_time: i64)
        requires
            old(self).wf(),
            has_headroom(old(self)@),
            -MAX_TIME <= current_time <= MAX_TIME,
        ensures
            final(self)@ == spec_drive(old(self)@, current_time),
            final(self)@.vehicles.len() == old(self)@.vehicles.len(),
            forall|i: int|
                0 <= i < final(self)@.vehicles.len() ==> {
                    &&& (#[trigger] final(self)@.vehicles[i]).wf()
                    &&& final(self)@.vehicles[i].id == old(self)@.vehicles[i].id
                },
            old(self)@.grid.conflict_free() ==> final(self)@.grid.conflict_free(),
    {
        let ghost start = self@;
        let ghost n = start.vehicles.len();
        proof {
            assert(all_wf(start.vehicles)) by {
                assert forall|i: int| 0 <= i < start.vehicles.len() implies (
                #[trigger] start.vehicles[i]).wf() by {
                    assert(on_field(start.vehicles[i]));
                }
            }
        }
        let target_speeds = traffic_speeds(&self.active_vehicles);
        let mut vehicle_updates: Vec<VehicleUpdate> = Vec::new();
        let mut i: usize = 0;
        while i < self.active_vehicles.len()
            invariant
                i <= n,
                n == start.vehicles.len(),
                all_wf(start.vehicles),
                -MAX_TIME <= current_time <= MAX_TIME,
                target_speeds@ == spec_traffic_speeds(start.vehicles),
                self@ == (EngineView {
                    grid: grid_after_negotiations(
                        start.vehicles,
                        target_speeds@,
                        start.grid,
                        current_time,
                        i as nat,
                    ),
                    ..start
                }),
                vehicle_updates@.len() == i,
                forall|k: int|
                    0 <= k < i ==> {
                        &&& (#[trigger] vehicle_updates@[k])@ == spec_decision(
                            start.vehicles,
                            target_speeds@,
                            start.grid,
                            current_time,
                            k,
                        )
                        &&& vehicle_updates@[k].index == k
                        &&& vehicle_updates@[k].vehicle_id == start.vehicles[k].id
                    },
                start.grid.conflict_free() ==> self@.grid.conflict_free(),
            decreases n - i,
        {
            let update = negotiate_vehicle(
                &mut self.grid,
                &self.path_cache,
                &self.active_vehicles[i],
                i,
                target_speeds[i],
                current_time,
            );
            vehicle_updates.push(update);
            i += 1;
        }
        self.close_call_pairs_this_frame = Vec::new();
        let ghost decisions = spec_decisions(start, current_time);
        let ghost base = negotiated(start, current_time);
        let mut k: usize = 0;
        while k < vehicle_updates.len()
            invariant
                k <= n,
                n == start.vehicles.len(),
                vehicle_updates@.len() == n,
                has_headroom(start),
                base == negotiated(start, current_time),
                decisions == spec_decisions(start, current_time),
                forall|j: int|
                    0 <= j < n ==> {
                        &&& (#[trigger] vehicle_updates@[j])@ == decisions[j]
                        &&& vehicle_updates@[j].index == j
                        &&& vehicle_updates@[j].vehicle_id == start.vehicles[j].id
                    },
                forall|j: int| 0 <= j < n ==> on_field(#[trigger] start.vehicles[j]),
                self@ == applied(base, decisions, k as nat),
                self@.vehicles.len() == n,
                forall|j: int| k <= j < n ==> #[trigger] self@.vehicles[j] == start.vehicles[j],
                forall|j: int|
                    0 <= j < n ==> {
                        &&& (#[trigger] self@.vehicles[j]).wf()
                        &&& self@.vehicles[j].id == start.vehicles[j].id
                    },
                self@.close_call_pairs.len() <= k * n,
                self@.close_calls == start.close_calls + self@.close_call_pairs.len(),
                start.grid.conflict_free() ==> self@.grid.conflict_free(),
            decreases n - k,
        {
            proof {
                assert(on_field(start.vehicles[k as int]));
                assert(self@.vehicles[k as int] == start.vehicles[k as int]);
                assert((k + 1) * n <= n * n) by (nonlinear_arith)
                    requires
                        0 <= k < n,
                ;
                assert(k * n + n == (k + 1) * n) by (nonlinear_arith);
            }
            self.apply_vehicle_update(&vehicle_updates[k]);
            k += 1;
        }
    }

    /// Carries one decision out: gives the vehicle its speed and flags,
    /// moves it one step, gives back its cells, and holds it against all
    /// vehicles for close calls.
    pub fn apply_vehicle_update(&mut self, update: &VehicleUpdate)
        requires
            update.index < old(self)@.vehicles.len(),
            all_wf(old(self)@.vehicles),
            old(self)@.vehicles[update.index as int].can_move(),
            old(self)@.close_calls + old(self)@.vehicles.len() <= u32::MAX,
        ensures
            final(self)@ == carried_out(old(self)@, update.index as int, update@, update.vehicle_id),
            all_wf(final(self)@.vehicles),
            old(self)@.close_call_pairs.len() <= final(self)@.close_call_pairs.len() <= old(
                self,
            )@.close_call_pairs.len() + old(self)@.vehicles.len(),
            old(self)@.grid.conflict_free() ==> final(self)@.grid.conflict_free(),
    {
        let i = update.index;
        let mut vehicle = self.active_vehicles[i];
        vehicle.current_speed = update.final_speed;
        vehicle.requested_intersection = update.requested_intersection;
        vehicle.intersection_permission = update.intersection_permission;
        vehicle.update();
        self.active_vehicles[i] = vehicle;
        self.grid.release_specific_cells(&update.cells_to_release, update.vehicle_id);
        proof {
            assert forall|j: int| 0 <= j < self@.vehicles.len() implies (
            #[trigger] self@.vehicles[j]).wf() by {
                if j != i {
                    assert(self@.vehicles[j] == old(self)@.vehicles[j]);
                }
            }
        }
        self.detect_close_calls(i);
    }

    /// Advances the intersection by one step, to the instant `current_time`.
    pub fn update(&mut self, current_time: i64)
        requires
            old(self).wf(),
            has_headroom(old(self)@),
            -MAX_TIME <= current_time <= MAX_TIME,
        ensures
            final(self)@ == spec_update(old(self)@, current_time),
            final(self).wf(),
            old(self)@.grid.conflict_free() ==> final(self)@.grid.conflict_free(),
    {
        let ghost start = self@;
        self.update_vehicles_with_two_path_system(current_time);
        let ghost driven = self@;
        let ghost n = driven.vehicles.len();
        proof {
            lemma_applied_vehicles(
                negotiated(start, current_time),
                spec_decisions(start, current_time),
                n,
            );
        }
        let mut kept: Vec<Vehicle> = Vec::new();
        let mut i: usize = 0;
        while i < self.active_vehicles.len()
            invariant
                i <= n,
                n == driven.vehicles.len(),
                n == start.vehicles.len(),
                driven.total_vehicles_passed + n <= u32::MAX,
                driven.next_id == start.next_id,
                forall|j: int|
                    0 <= j < n ==> {
                        &&& (#[trigger] driven.vehicles[j]).wf()
                        &&& driven.vehicles[j].id < start.next_id
                    },
                self@ == (EngineView { vehicles: driven.vehicles, ..retired(driven, i as nat) }),
                kept@ == retired(driven, i as nat).vehicles,
                driven.grid.conflict_free() ==> self@.grid.conflict_free(),
                self@.next_id == driven.next_id,
                self@.total_vehicles_passed <= driven.total_vehicles_passed + i,
                forall|j: int|
                    0 <= j < kept@.len() ==> on_field(#[trigger] kept@[j]) && kept@[j].id
                        < start.next_id,
            decreases n - i,
        {
            let vehicle = self.active_vehicles[i];
            if vehicle.is_outside_canvas() {
                self.grid.release_all_cells(vehicle.id);
                self.update_stats_for_exiting_vehicle_by_data(
                    vehicle.id,
                    vehicle.current_speed,
                    current_time,
                );
            } else {
                kept.push(vehicle);
            }
            i += 1;
        }
        self.active_vehicles = kept;
        proof {
            assert(self@ == retired(driven, n));
            assert(all_wf(self@.vehicles)) by {
                assert forall|j: int| 0 <= j < self@.vehicles.len() implies (
                #[trigger] self@.vehicles[j]).wf() by {
                    assert(on_field(self@.vehicles[j]));
                }
            }
        }
        let ghost sorted_out = self@;
        self.track_intersection_times(current_time);
        proof {
            lemma_track_keeps_vehicles(sorted_out, current_time, sorted_out.vehicles.len());
        }
    }

    /// Looks at every vehicle's stay in the intersection at `current_time`.
    pub fn track_intersection_times(&mut self, current_time: i64)
        requires
            all_wf(old(self)@.vehicles),
            -MAX_TIME <= current_time <= MAX_TIME,
        ensures
            final(self)@ == spec_track(old(self)@, current_time),
    {
        let mut to_remove: Vec<usize> = Vec::new();
        let mut i: usize = 0;
        while i < self.active_vehicles.len()
            invariant
                i <= self.active_vehicles.len(),
                self@.vehicles == old(self)@.vehicles,
                all_wf(self@.vehicles),
                -MAX_TIME <= current_time <= MAX_TIME,
                self@ == stays_seen(old(self)@, current_time, i as nat).state,
                to_remove@ == stays_seen(old(self)@, current_time, i as nat).leaving,
            decreases self.active_vehicles.len() - i,
        {
            let vehicle = self.active_vehicles[i];
            let vehicle_id = vehicle.id;
            let entry: Option<Stay> = self.vehicle_intersection_times.get(vehicle_id);
            if vehicle.is_in_intersection() {
                let first: i64 = match entry {
                    Some(stay) => stay.first,
                    None => current_time,
                };
                self.vehicle_intersection_times.insert(
                    vehicle_id,
                    Stay { first, last: current_time },
                );
            } else {
                match entry {
                    Some(stay) => {
                        self.record_stay(stay.length());
                        to_remove.push(vehicle_id);
                    },
                    None => {},
                }
            }
            i += 1;
        }
        let ghost looked = self@;
        let mut k: usize = 0;
        while k < to_remove.len()
            invariant
                k <= to_remove.len(),
                self@ == (EngineView {
                    zone_stays: forgotten(looked.zone_stays, to_remove@, k as nat),
                    ..looked
                }),
            decreases to_remove.len() - k,
        {
            let id = to_remove[k];
            self.vehicle_intersection_times.remove(id);
            k += 1;
        }
    }
}

} // verus!
