//! The admission protocol: how a vehicle asks for the intersection, which
//! time windows it asks for, and what one step decides for one vehicle.

use crate::geometry::{cell_coordinate, IX_MAX, IX_MIN, IY_MAX, IY_MIN};
use crate::grid::{conflicts_with, overlaps, owned_by, GridView, ReservationGrid};
use crate::paths::{lemma_path_distances, spec_vehicle_path, PathCache, PathView, VehiclePath};
use crate::route::{direction_before_turn, spec_direction_before_turn, Direction, Route};
use crate::vehicle::Vehicle;
use crate::velocities::{calculate_time_with_speed, travel_time, Velocity, MAX_DISTANCE};
use vstd::prelude::*;

verus! {

/// Bound on every instant handed to the engine, either side of zero.
pub const MAX_TIME: i64 = 1_000_000_000_000_000;

/// Beyond this distance from the intersection a vehicle's request is forgotten.
pub const RESET_DISTANCE: i64 = 150;

/// Within this distance a vehicle negotiates its passage.
pub const REQUEST_DISTANCE: i64 = 60;

/// Within this distance a vehicle without permission waits at the entrance
/// and asks again as a standing vehicle does.
pub const ENTRANCE_DISTANCE: i64 = 10;

/// Within this distance a vehicle gives back the cells behind it.
pub const RELEASE_DISTANCE: i64 = 50;

/// The window in which a vehicle that is `distance` pixels from the
/// intersection at `time` covers the first stretch of `path` at `speed`:
/// from its arrival to the end of the stretch.
pub open spec fn segment1_window(path: PathView, speed: Velocity, time: i64, distance: i64) -> (
    i64,
    i64,
) {
    let entry = time + travel_time(distance as int, speed);
    let exit = entry + travel_time(path.segment1.distance, speed);
    (entry as i64, exit as i64)
}

/// The window for the second stretch: it opens when the first one closes.
pub open spec fn segment2_window(path: PathView, speed: Velocity, time: i64, distance: i64) -> (
    i64,
    i64,
) {
    let entry = time + travel_time(distance as int, speed) + travel_time(
        path.segment1.distance,
        speed,
    );
    let exit = entry + match path.segment2 {
        Some(s) => travel_time(s.distance, speed),
        None => 0,
    };
    (entry as i64, exit as i64)
}

/// Whether the grid is free for the whole path at `speed`: for the first
/// stretch over its window and, where there is one, for the second over its own.
pub open spec fn admits_path(
    grid: GridView,
    path: PathView,
    speed: Velocity,
    time: i64,
    distance: i64,
) -> bool {
    let w1 = segment1_window(path, speed, time, distance);
    let w2 = segment2_window(path, speed, time, distance);
    &&& grid.admits(path.segment1.cells, w1.0, w1.1)
    &&& path.segment2 matches Some(s) ==> grid.admits(s.cells, w2.0, w2.1)
}

/// The grid after `id` has reserved the whole path at `speed`.
pub open spec fn committed(
    grid: GridView,
    id: usize,
    path: PathView,
    speed: Velocity,
    time: i64,
    distance: i64,
) -> GridView {
    let w1 = segment1_window(path, speed, time, distance);
    let w2 = segment2_window(path, speed, time, distance);
    let first = grid.reserved(id, path.segment1.cells, w1.0, w1.1);
    match path.segment2 {
        Some(s) => first.reserved(id, s.cells, w2.0, w2.1),
        None => first,
    }
}

/// The first of `speeds`, from position `from` on, at which the grid admits
/// the whole path.
pub open spec fn first_admitted(
    grid: GridView,
    path: PathView,
    speeds: Seq<Velocity>,
    time: i64,
    distance: i64,
    from: int,
) -> Option<Velocity>
    decreases speeds.len() - from,
{
    if from < 0 || from >= speeds.len() {
        None
    } else if admits_path(grid, path, speeds[from], time, distance) {
        Some(speeds[from])
    } else {
        first_admitted(grid, path, speeds, time, distance, from + 1)
    }
}

/// How a request ends: the speed it was granted at, if any, and the grid
/// it leaves.
pub struct AdmissionOutcome {
    pub granted: Option<Velocity>,
    pub grid: GridView,
}

/// The outcome of a request by a vehicle driving at `current_speed`: the
/// path is reserved at the first candidate speed at which the grid admits it
/// whole, and the grid is left as it was when it admits none.
pub open spec fn request_outcome(
    grid: GridView,
    id: usize,
    path: PathView,
    current_speed: Velocity,
    time: i64,
    distance: i64,
) -> AdmissionOutcome {
    match first_admitted(grid, path, current_speed.spec_candidates(), time, distance, 0) {
        Some(speed) => AdmissionOutcome {
            granted: Some(speed),
            grid: committed(grid, id, path, speed, time, distance),
        },
        None => AdmissionOutcome { granted: None, grid },
    }
}

/// Whether all lengths of a path are small enough to compute with.
pub open spec fn path_in_range(path: PathView) -> bool {
    &&& -MAX_DISTANCE <= path.segment1.distance <= MAX_DISTANCE
    &&& path.segment2 matches Some(s) ==> -MAX_DISTANCE <= s.distance <= MAX_DISTANCE
}

/// A granted speed is a candidate at which the grid admitted the whole
/// path, and no earlier candidate was admitted.
pub proof fn lemma_first_admitted(
    grid: GridView,
    path: PathView,
    speeds: Seq<Velocity>,
    time: i64,
    distance: i64,
    from: int,
)
    requires
        0 <= from <= speeds.len(),
    ensures
        match first_admitted(grid, path, speeds, time, distance, from) {
            Some(speed) => exists|k: int|
                from <= k < speeds.len() && #[trigger] speeds[k] == speed && admits_path(
                    grid,
                    path,
                    speed,
                    time,
                    distance,
                ) && forall|j: int|
                    from <= j < k ==> !admits_path(grid, path, #[trigger] speeds[j], time, distance),
            None => forall|j: int|
                from <= j < speeds.len() ==> !admits_path(
                    grid,
                    path,
                    #[trigger] speeds[j],
                    time,
                    distance,
                ),
        },
    decreases speeds.len() - from,
{
    if from < speeds.len() {
        if admits_path(grid, path, speeds[from], time, distance) {
            assert(speeds[from] == speeds[from]);
        } else {
            lemma_first_admitted(grid, path, speeds, time, distance, from + 1);
            match first_admitted(grid, path, speeds, time, distance, from + 1) {
                Some(speed) => {
                    let k = choose|k: int|
                        from + 1 <= k < speeds.len() && #[trigger] speeds[k] == speed
                            && admits_path(grid, path, speed, time, distance) && forall|j: int|
                            from + 1 <= j < k ==> !admits_path(
                                grid,
                                path,
                                #[trigger] speeds[j],
                                time,
                                distance,
                            );
                    assert forall|j: int| from <= j < k implies !admits_path(
                        grid,
                        path,
                        #[trigger] speeds[j],
                        time,
                        distance,
                    ) by {}
                },
                None => {},
            }
        }
    }
}

/// A request books all of the path or none of it: where the grid admits the
/// first stretch at a speed but not the second, that speed books nothing, and
/// a request that is granted nothing leaves the grid as it was.
pub proof fn lemma_all_or_nothing(
    grid: GridView,
    id: usize,
    path: PathView,
    current_speed: Velocity,
    time: i64,
    distance: i64,
)
    ensures
        ({
            let outcome = request_outcome(grid, id, path, current_speed, time, distance);
            &&& outcome.granted is None ==> outcome.grid == grid
            &&& outcome.granted matches Some(speed) ==> {
                &&& admits_path(grid, path, speed, time, distance)
                &&& outcome.grid == committed(grid, id, path, speed, time, distance)
            }
            &&& forall|speed: Velocity| !admits_path(grid, path, speed, time, distance)
                ==> outcome.granted != Some(speed)
        }),
{
    lemma_first_admitted(grid, path, current_speed.spec_candidates(), time, distance, 0);
}

/// Reserving a path that the grid admits keeps the grid free of conflicts.
pub proof fn lemma_commit_keeps_conflict_free(
    grid: GridView,
    id: usize,
    path: PathView,
    speed: Velocity,
    time: i64,
    distance: i64,
)
    requires
        grid.wf(),
        grid.conflict_free(),
        admits_path(grid, path, speed, time, distance),
    ensures
        committed(grid, id, path, speed, time, distance).conflict_free(),
{
    let w1 = segment1_window(path, speed, time, distance);
    let w2 = segment2_window(path, speed, time, distance);
    grid.lemma_admits_clear(id, path.segment1.cells, w1.0, w1.1);
    grid.lemma_reserve_keeps_conflict_free(id, path.segment1.cells, w1.0, w1.1);
    match path.segment2 {
        Some(s) => {
            let first = grid.reserved(id, path.segment1.cells, w1.0, w1.1);
            grid.lemma_admits_clear(id, s.cells, w2.0, w2.1);
            grid.lemma_reserved_keeps_clear(id, path.segment1.cells, w1.0, w1.1, s.cells, w2.0, w2.1);
            first.lemma_reserve_keeps_conflict_free(id, s.cells, w2.0, w2.1);
        },
        None => {},
    }
}

/// A request keeps the grid free of conflicts, whatever it is granted.
pub proof fn lemma_request_keeps_conflict_free(
    grid: GridView,
    id: usize,
    path: PathView,
    current_speed: Velocity,
    time: i64,
    distance: i64,
)
    requires
        grid.wf(),
        grid.conflict_free(),
    ensures
        request_outcome(grid, id, path, current_speed, time, distance).grid.wf(),
        request_outcome(grid, id, path, current_speed, time, distance).grid.conflict_free(),
{
    lemma_all_or_nothing(grid, id, path, current_speed, time, distance);
    match request_outcome(grid, id, path, current_speed, time, distance).granted {
        Some(speed) => {
            lemma_commit_keeps_conflict_free(grid, id, path, speed, time, distance);
        },
        None => {},
    }
}

/// Asks the grid to admit `path` for a vehicle that drives at
/// `current_speed` and is `distance` pixels from the intersection at
/// `current_time`. The candidate speeds are tried in turn; the first at which
/// every stretch is free is booked and returned with `true`. When none is,
/// nothing is booked and the answer is `(false, Stopped)`.
pub fn request_admission(
    grid: &mut ReservationGrid,
    path: &VehiclePath,
    vehicle_id: usize,
    current_speed: Velocity,
    current_time: i64,
    distance: i64,
) -> (r: (bool, Velocity))
    requires
        -MAX_TIME <= current_time <= MAX_TIME,
        -MAX_DISTANCE <= distance <= MAX_DISTANCE,
        path_in_range(path@),
    ensures
        final(grid)@ == request_outcome(
            old(grid)@,
            vehicle_id,
            path@,
            current_speed,
            current_time,
            distance,
        ).grid,
        r == match request_outcome(
            old(grid)@,
            vehicle_id,
            path@,
            current_speed,
            current_time,
            distance,
        ).granted {
            Some(speed) => (true, speed),
            None => (false, Velocity::Stopped),
        },
        old(grid)@.conflict_free() ==> final(grid)@.conflict_free(),
{
    proof {
        use_type_invariant(&*grid);
        if grid@.conflict_free() {
            lemma_request_keeps_conflict_free(
                grid@,
                vehicle_id,
                path@,
                current_speed,
                current_time,
                distance,
            );
        }
    }
    let speeds_to_try = current_speed.candidates();
    let mut k: usize = 0;
    while k < speeds_to_try.len()
        invariant
            k <= speeds_to_try.len(),
            speeds_to_try@ == current_speed.spec_candidates(),
            -MAX_TIME <= current_time <= MAX_TIME,
            -MAX_DISTANCE <= distance <= MAX_DISTANCE,
            path_in_range(path@),
            grid@ == old(grid)@,
            old(grid)@.conflict_free() ==> request_outcome(
                old(grid)@,
                vehicle_id,
                path@,
                current_speed,
                current_time,
                distance,
            ).grid.conflict_free(),
            first_admitted(old(grid)@, path@, speeds_to_try@, current_time, distance, 0)
                == first_admitted(old(grid)@, path@, speeds_to_try@, current_time, distance, k as int),
        decreases speeds_to_try.len() - k,
    {
        let attempt_speed = speeds_to_try[k];
        let time_to_intersection: i64 = calculate_time_with_speed(distance, attempt_speed);
        let segment1_time: i64 = calculate_time_with_speed(path.segment1.distance, attempt_speed);
        let segment1_entry: i64 = current_time + time_to_intersection;
        let segment1_exit: i64 = segment1_entry + segment1_time;
        let mut admitted: bool = grid.can_reserve_cells(
            &path.segment1.cells,
            segment1_entry,
            segment1_exit,
        );
        let mut segment2_exit: i64 = segment1_exit;
        if admitted {
            match &path.segment2 {
                Some(segment2) => {
                    let segment2_time: i64 = calculate_time_with_speed(
                        segment2.distance,
                        attempt_speed,
                    );
                    segment2_exit = segment1_exit + segment2_time;
                    admitted = grid.can_reserve_cells(&segment2.cells, segment1_exit, segment2_exit);
                },
                None => {},
            }
        }
        assert(admitted == admits_path(grid@, path@, attempt_speed, current_time, distance));
        if admitted {
            grid.reserve_cells_for_vehicle(
                vehicle_id,
                &path.segment1.cells,
                segment1_entry,
                segment1_exit,
            );
            match &path.segment2 {
                Some(segment2) => {
                    grid.reserve_cells_for_vehicle(
                        vehicle_id,
                        &segment2.cells,
                        segment1_exit,
                        segment2_exit,
                    );
                },
                None => {},
            }
            return (true, attempt_speed);
        }
        k += 1;
    }
    (false, Velocity::Stopped)
}

/// Cells in the row `line`.
pub open spec fn on_row(line: int) -> spec_fn((usize, usize)) -> bool {
    |c: (usize, usize)| c.1 == line
}

/// Cells in the column `line`.
pub open spec fn on_column(line: int) -> spec_fn((usize, usize)) -> bool {
    |c: (usize, usize)| c.0 == line
}

/// The coordinate, along the axis of travel, of the edge of the covered box
/// `bounds` (left, top, width, height) that faces backwards.
pub open spec fn trailing_edge(direction: Direction, bounds: (int, int, int, int)) -> int {
    match direction {
        Direction::North => bounds.1 + bounds.3,
        Direction::South => bounds.1,
        Direction::East => bounds.0,
        Direction::West => bounds.0 + bounds.2,
    }
}

/// Those of `cells` that lie in the row, or for a vehicle going east or
/// west the column, of the trailing edge of a vehicle that travels in
/// `direction`, while that edge is inside the intersection.
pub open spec fn cells_behind_edge(
    cells: Seq<(usize, usize)>,
    direction: Direction,
    bounds: (int, int, int, int),
) -> Seq<(usize, usize)> {
    let behind = trailing_edge(direction, bounds);
    if 350 <= behind <= 650 {
        match direction {
            Direction::North | Direction::South => cells.filter(on_row((behind - 350) / 10)),
            Direction::East | Direction::West => cells.filter(on_column((behind - 350) / 10)),
        }
    } else {
        Seq::empty()
    }
}

/// The cells a vehicle gives back before its turn: those of the first
/// stretch of the path of its direction and route that lie behind its
/// trailing edge.
pub open spec fn spec_cells_to_release(
    direction: Direction,
    route: Route,
    bounds: (int, int, int, int),
) -> Seq<(usize, usize)> {
    cells_behind_edge(spec_vehicle_path(direction, route).segment1.cells, direction, bounds)
}

/// The cells a vehicle gives back after its turn, when it travels in
/// `direction`: those of the second stretch of the path by which it
/// entered that lie behind its trailing edge.
pub open spec fn spec_cells_to_release_after_turn(
    direction: Direction,
    route: Route,
    bounds: (int, int, int, int),
) -> Seq<(usize, usize)> {
    match spec_vehicle_path(spec_direction_before_turn(direction, route), route).segment2 {
        Some(stretch) => cells_behind_edge(stretch.cells, direction, bounds),
        None => Seq::empty(),
    }
}

/// The cells of its path that lie behind a vehicle: on the first stretch
/// until it has turned, on the second stretch of the same path from then on.
/// A vehicle that goes straight has one stretch only.
pub open spec fn spec_cells_behind(vehicle: Vehicle) -> Seq<(usize, usize)> {
    if vehicle.has_turned && vehicle.route != Route::Straight {
        spec_cells_to_release_after_turn(vehicle.direction, vehicle.route, vehicle.visual_bounds())
    } else {
        spec_cells_to_release(vehicle.direction, vehicle.route, vehicle.visual_bounds())
    }
}

/// The cells of `cells` in row `line`, or in column `line` where `by_row` is
/// false, in their order.
pub fn cells_on_line(cells: &Vec<(usize, usize)>, line: usize, by_row: bool) -> (found: Vec<
    (usize, usize),
>)
    ensures
        found@ == (if by_row {
            cells@.filter(on_row(line as int))
        } else {
            cells@.filter(on_column(line as int))
        }),
{
    let mut found: Vec<(usize, usize)> = Vec::new();
    let ghost pred = if by_row {
        on_row(line as int)
    } else {
        on_column(line as int)
    };
    let mut i: usize = 0;
    proof {
        reveal(Seq::filter);
        assert(cells@.take(0) =~= Seq::<(usize, usize)>::empty());
    }
    while i < cells.len()
        invariant
            i <= cells.len(),
            pred == (if by_row {
                on_row(line as int)
            } else {
                on_column(line as int)
            }),
            found@ == cells@.take(i as int).filter(pred),
        decreases cells.len() - i,
    {
        proof {
            assert(cells@.take(i + 1) =~= cells@.take(i as int).push(cells@[i as int]));
            cells@.take(i as int).lemma_filter_push(cells@[i as int], pred);
        }
        let (col, row) = cells[i];
        let hit: bool = if by_row {
            row == line
        } else {
            col == line
        };
        if hit {
            found.push((col, row));
        }
        i += 1;
    }
    proof {
        assert(cells@.take(cells@.len() as int) =~= cells@);
    }
    found
}

/// Those of `cells` that lie behind the trailing edge of a vehicle with the
/// covered box `(vx, vy, vw, vh)` that travels in `direction`.
pub fn cells_behind(
    cells: &Vec<(usize, usize)>,
    direction: Direction,
    vx: i64,
    vy: i64,
    vw: i64,
    vh: i64,
) -> (found: Vec<(usize, usize)>)
    requires
        i32::MIN <= vx <= i32::MAX,
        i32::MIN <= vy <= i32::MAX,
        i32::MIN <= vw <= i32::MAX,
        i32::MIN <= vh <= i32::MAX,
    ensures
        found@ == cells_behind_edge(
            cells@,
            direction,
            (vx as int, vy as int, vw as int, vh as int),
        ),
{
    let (behind, by_row): (i64, bool) = match direction {
        Direction::North => (vy + vh, true),
        Direction::South => (vy, true),
        Direction::East => (vx, false),
        Direction::West => (vx + vw, false),
    };
    let low: i64 = if by_row {
        IY_MIN
    } else {
        IX_MIN
    };
    let high: i64 = if by_row {
        IY_MAX
    } else {
        IX_MAX
    };
    if behind >= low && behind <= high {
        cells_on_line(cells, cell_coordinate(behind), by_row)
    } else {
        Vec::new()
    }
}

/// The cells that a vehicle with the covered box `(vx, vy, vw, vh)` gives
/// back behind it on the first stretch of the path of its direction and route.
pub fn calculate_cells_to_release_two_path(
    paths: &PathCache,
    direction: Direction,
    route: Route,
    vx: i64,
    vy: i64,
    vw: i64,
    vh: i64,
) -> (cells: Vec<(usize, usize)>)
    requires
        i32::MIN <= vx <= i32::MAX,
        i32::MIN <= vy <= i32::MAX,
        i32::MIN <= vw <= i32::MAX,
        i32::MIN <= vh <= i32::MAX,
    ensures
        cells@ == spec_cells_to_release(
            direction,
            route,
            (vx as int, vy as int, vw as int, vh as int),
        ),
{
    let path = paths.get(direction, route);
    cells_behind(&path.segment1.cells, direction, vx, vy, vw, vh)
}

/// The cells that a vehicle gives back behind it after its turn, when it
/// travels in `direction`: cells of the second stretch of the path by which
/// it entered.
pub fn calculate_cells_to_release_after_turn(
    paths: &PathCache,
    direction: Direction,
    route: Route,
    vx: i64,
    vy: i64,
    vw: i64,
    vh: i64,
) -> (cells: Vec<(usize, usize)>)
    requires
        i32::MIN <= vx <= i32::MAX,
        i32::MIN <= vy <= i32::MAX,
        i32::MIN <= vw <= i32::MAX,
        i32::MIN <= vh <= i32::MAX,
    ensures
        cells@ == spec_cells_to_release_after_turn(
            direction,
            route,
            (vx as int, vy as int, vw as int, vh as int),
        ),
{
    let path = paths.get(direction_before_turn(direction, route), route);
    match &path.segment2 {
        Some(stretch) => cells_behind(&stretch.cells, direction, vx, vy, vw, vh),
        None => Vec::new(),
    }
}

/// What one step decides for one vehicle: the speed it is commanded, its
/// two request flags, and the cells it gives back.
pub struct Decision {
    pub speed: Velocity,
    pub requested: bool,
    pub permission: bool,
    pub release: Seq<(usize, usize)>,
}

/// A decision together with the grid that the negotiation leaves.
pub struct Negotiation {
    pub decision: Decision,
    pub grid: GridView,
}

/// Whether a vehicle with these flags asks for the intersection now: it is
/// within `REQUEST_DISTANCE`, has not reached the intersection, and lacks a
/// request or the permission.
pub open spec fn asks(vehicle: Vehicle, requested: bool, permission: bool) -> bool {
    &&& !vehicle.spec_is_past_intersection()
    &&& vehicle.spec_distance_to_intersection() <= 60
    &&& !vehicle.spec_is_in_intersection()
    &&& (!requested || !permission)
}

/// The speed a vehicle asks with: a vehicle that waits without permission
/// at the entrance asks as a standing vehicle, which tries `Fast` only; any
/// other asks with the speed it drives at.
pub open spec fn asking_speed(vehicle: Vehicle, permission: bool) -> Velocity {
    if vehicle.spec_distance_to_intersection() <= 10 && !permission {
        Velocity::Stopped
    } else {
        vehicle.current_speed
    }
}

/// One vehicle's step of the protocol, given the speed `traffic` that the
/// vehicles ahead allow it.
///
/// Far from the intersection both flags are cleared. A vehicle that asks
/// makes a request; it is then marked as having asked, holds the permission
/// exactly if the request was granted, and is allowed the granted speed, or
/// `Stopped`. A vehicle that does not ask is allowed `Fast`. The commanded
/// speed is `Fast` past the intersection and otherwise the slower of the
/// allowed speed and `traffic`.
pub open spec fn negotiate(vehicle: Vehicle, grid: GridView, traffic: Velocity, time: i64)
    -> Negotiation {
    let distance = vehicle.spec_distance_to_intersection();
    let far = distance > 150;
    let requested = !far && vehicle.requested_intersection;
    let permission = !far && vehicle.intersection_permission;
    let release = if vehicle.spec_is_in_intersection() || distance < 50 {
        spec_cells_behind(vehicle)
    } else {
        Seq::empty()
    };
    if asks(vehicle, requested, permission) {
        let outcome = request_outcome(
            grid,
            vehicle.id,
            spec_vehicle_path(vehicle.direction, vehicle.route),
            asking_speed(vehicle, permission),
            time,
            distance as i64,
        );
        Negotiation {
            decision: Decision {
                speed: traffic.spec_slowest(
                    match outcome.granted {
                        Some(speed) => speed,
                        None => Velocity::Stopped,
                    },
                ),
                requested: true,
                permission: outcome.granted is Some,
                release,
            },
            grid: outcome.grid,
        }
    } else {
        Negotiation {
            decision: Decision {
                speed: if vehicle.spec_is_past_intersection() {
                    Velocity::Fast
                } else {
                    traffic
                },
                requested,
                permission,
                release,
            },
            grid,
        }
    }
}

/// A vehicle's negotiation keeps the grid free of conflicts.
pub proof fn lemma_negotiate_keeps_conflict_free(
    vehicle: Vehicle,
    grid: GridView,
    traffic: Velocity,
    time: i64,
)
    requires
        grid.wf(),
        grid.conflict_free(),
    ensures
        negotiate(vehicle, grid, traffic, time).grid.wf(),
        negotiate(vehicle, grid, traffic, time).grid.conflict_free(),
{
    let distance = vehicle.spec_distance_to_intersection();
    let far = distance > 150;
    let permission = !far && vehicle.intersection_permission;
    lemma_request_keeps_conflict_free(
        grid,
        vehicle.id,
        spec_vehicle_path(vehicle.direction, vehicle.route),
        asking_speed(vehicle, permission),
        time,
        distance as i64,
    );
}

/// A negotiation takes nothing out of the grid: what any vehicle held in a
/// cell is still there after it, in its order, before whatever was booked.
pub proof fn lemma_negotiate_keeps_slots(
    vehicle: Vehicle,
    grid: GridView,
    traffic: Velocity,
    time: i64,
    holder: usize,
    idx: int,
)
    requires
        0 <= idx < grid.cells.len(),
    ensures
        negotiate(vehicle, grid, traffic, time).grid.cols == grid.cols,
        negotiate(vehicle, grid, traffic, time).grid.rows == grid.rows,
        negotiate(vehicle, grid, traffic, time).grid.cells.len() == grid.cells.len(),
        grid.cells[idx].filter(owned_by(holder)).is_prefix_of(
            negotiate(vehicle, grid, traffic, time).grid.cells[idx].filter(owned_by(holder)),
        ),
{
    let x = grid.cells[idx].filter(owned_by(holder));
    assert(x =~= x.subrange(0, x.len() as int));
    let distance = vehicle.spec_distance_to_intersection();
    let far = distance > 150;
    let requested = !far && vehicle.requested_intersection;
    let permission = !far && vehicle.intersection_permission;
    if asks(vehicle, requested, permission) {
        let path = spec_vehicle_path(vehicle.direction, vehicle.route);
        let speed = asking_speed(vehicle, permission);
        let outcome = request_outcome(grid, vehicle.id, path, speed, time, distance as i64);
        match outcome.granted {
            Some(granted) => {
                let w1 = segment1_window(path, granted, time, distance as i64);
                let w2 = segment2_window(path, granted, time, distance as i64);
                let first = grid.reserved(vehicle.id, path.segment1.cells, w1.0, w1.1);
                grid.lemma_reserve_keeps_slots(
                    vehicle.id,
                    path.segment1.cells,
                    w1.0,
                    w1.1,
                    holder,
                    idx,
                );
                let y = first.cells[idx].filter(owned_by(holder));
                match path.segment2 {
                    Some(s) => {
                        first.lemma_reserve_keeps_slots(vehicle.id, s.cells, w2.0, w2.1, holder, idx);
                        let z = first.reserved(vehicle.id, s.cells, w2.0, w2.1).cells[idx].filter(
                            owned_by(holder),
                        );
                        assert(x =~= y.subrange(0, x.len() as int));
                        assert(y =~= z.subrange(0, y.len() as int));
                        assert(x =~= z.subrange(0, x.len() as int));
                    },
                    None => {},
                }
            },
            None => {},
        }
    }
}

/// A vehicle's negotiation changes nothing of what another vehicle holds
/// in the grid.
pub proof fn lemma_negotiate_keeps_others(
    vehicle: Vehicle,
    grid: GridView,
    traffic: Velocity,
    time: i64,
    other: usize,
)
    requires
        other != vehicle.id,
    ensures
        negotiate(vehicle, grid, traffic, time).grid.holdings(other) == grid.holdings(other),
{
    let distance = vehicle.spec_distance_to_intersection();
    let far = distance > 150;
    let requested = !far && vehicle.requested_intersection;
    let permission = !far && vehicle.intersection_permission;
    if asks(vehicle, requested, permission) {
        let path = spec_vehicle_path(vehicle.direction, vehicle.route);
        let speed = asking_speed(vehicle, permission);
        let outcome = request_outcome(grid, vehicle.id, path, speed, time, distance as i64);
        match outcome.granted {
            Some(granted) => {
                let w1 = segment1_window(path, granted, time, distance as i64);
                let w2 = segment2_window(path, granted, time, distance as i64);
                grid.lemma_reserve_keeps_others(vehicle.id, path.segment1.cells, w1.0, w1.1, other);
                match path.segment2 {
                    Some(s) => {
                        grid.reserved(
                            vehicle.id,
                            path.segment1.cells,
                            w1.0,
                            w1.1,
                        ).lemma_reserve_keeps_others(vehicle.id, s.cells, w2.0, w2.1, other);
                    },
                    None => {},
                }
            },
            None => {},
        }
    }
}

/// A vehicle farther from the intersection than `RESET_DISTANCE` comes out
/// of its step with both request flags cleared, whatever they were, books
/// nothing, and is commanded what the traffic allows.
pub proof fn lemma_far_reset(vehicle: Vehicle, grid: GridView, traffic: Velocity, time: i64)
    requires
        vehicle.spec_distance_to_intersection() > 150,
    ensures
        !negotiate(vehicle, grid, traffic, time).decision.requested,
        !negotiate(vehicle, grid, traffic, time).decision.permission,
        negotiate(vehicle, grid, traffic, time).grid == grid,
{
}

/// A vehicle that touches the intersection, has passed it, or holds the
/// permission it asked for makes no request: its step leaves the grid as it
/// was, keeps its flags unless it is far, and the intersection allows it `Fast`.
pub proof fn lemma_settled_vehicle_books_nothing(
    vehicle: Vehicle,
    grid: GridView,
    traffic: Velocity,
    time: i64,
)
    requires
        vehicle.spec_is_in_intersection() || vehicle.spec_is_past_intersection() || (
        vehicle.requested_intersection && vehicle.intersection_permission
            && vehicle.spec_distance_to_intersection() <= 150),
    ensures
        negotiate(vehicle, grid, traffic, time).grid == grid,
        spec_intersection_speed(vehicle, grid, time) == Velocity::Fast,
        vehicle.spec_distance_to_intersection() <= 150 ==> {
            &&& negotiate(vehicle, grid, traffic, time).decision.requested
                == vehicle.requested_intersection
            &&& negotiate(vehicle, grid, traffic, time).decision.permission
                == vehicle.intersection_permission
        },
{
}

/// A vehicle that asks is marked as having asked, holds the permission
/// exactly if its request was granted, and is commanded `Stopped` if it was not.
pub proof fn lemma_asking_vehicle(vehicle: Vehicle, grid: GridView, traffic: Velocity, time: i64)
    requires
        !vehicle.spec_is_past_intersection(),
        !vehicle.spec_is_in_intersection(),
        vehicle.spec_distance_to_intersection() <= 60,
        !vehicle.requested_intersection || !vehicle.intersection_permission,
    ensures
        ({
            let n = negotiate(vehicle, grid, traffic, time);
            let outcome = request_outcome(
                grid,
                vehicle.id,
                spec_vehicle_path(vehicle.direction, vehicle.route),
                asking_speed(vehicle, vehicle.intersection_permission),
                time,
                vehicle.spec_distance_to_intersection() as i64,
            );
            &&& n.decision.requested
            &&& n.decision.permission == (outcome.granted is Some)
            &&& n.grid == outcome.grid
            &&& outcome.granted is None ==> n.decision.speed == Velocity::Stopped && n.grid == grid
            &&& outcome.granted matches Some(speed) ==> n.decision.speed == traffic.spec_slowest(
                speed,
            )
        }),
{
}

/// A speed is never granted while another reservation stands in its way:
/// if some cell of the path, on the first stretch or on the second, holds a
/// reservation that overlaps the window which the vehicle would need there
/// at `speed`, the grid does not admit the path at `speed`, and the request
/// is not granted at it.
pub proof fn lemma_blocked_speed_is_not_granted(
    grid: GridView,
    id: usize,
    path: PathView,
    current_speed: Velocity,
    time: i64,
    distance: i64,
    speed: Velocity,
    on_second_stretch: bool,
    k: int,
    m: int,
)
    requires
        on_second_stretch ==> path.segment2 is Some,
        ({
            let cells = if on_second_stretch {
                path.segment2->0.cells
            } else {
                path.segment1.cells
            };
            let window = if on_second_stretch {
                segment2_window(path, speed, time, distance)
            } else {
                segment1_window(path, speed, time, distance)
            };
            &&& 0 <= k < cells.len()
            &&& grid.in_bounds(cells[k])
            &&& 0 <= m < grid.slots_at(cells[k]).len()
            &&& overlaps(
                window.0,
                window.1,
                grid.slots_at(cells[k])[m].start,
                grid.slots_at(cells[k])[m].end,
            )
        }),
    ensures
        !admits_path(grid, path, speed, time, distance),
        request_outcome(grid, id, path, current_speed, time, distance).granted != Some(speed),
{
    let cells = if on_second_stretch {
        path.segment2->0.cells
    } else {
        path.segment1.cells
    };
    let window = if on_second_stretch {
        segment2_window(path, speed, time, distance)
    } else {
        segment1_window(path, speed, time, distance)
    };
    assert(conflicts_with(grid.slots_at(cells[k]), window.0, window.1));
    assert(!grid.admits(cells, window.0, window.1));
    lemma_all_or_nothing(grid, id, path, current_speed, time, distance);
}

/// A vehicle that stands, or that waits without permission within
/// `ENTRANCE_DISTANCE` of the intersection, tries `Fast` and nothing else.
/// If the grid admits its path at `Fast`, the path is booked and the vehicle
/// holds the permission. If not, it is denied, whatever `Medium` or `Slow`
/// would have been granted: it is marked as having asked, is commanded
/// `Stopped`, and the grid is as it was.
pub proof fn lemma_standing_vehicle_tries_fast_only(
    vehicle: Vehicle,
    grid: GridView,
    traffic: Velocity,
    time: i64,
)
    requires
        asks(vehicle, vehicle.requested_intersection, vehicle.intersection_permission),
        vehicle.current_speed == Velocity::Stopped || (vehicle.spec_distance_to_intersection()
            <= 10 && !vehicle.intersection_permission),
    ensures
        ({
            let n = negotiate(vehicle, grid, traffic, time);
            let path = spec_vehicle_path(vehicle.direction, vehicle.route);
            let distance = vehicle.spec_distance_to_intersection() as i64;
            let free = admits_path(grid, path, Velocity::Fast, time, distance);
            &&& n.decision.requested
            &&& n.decision.permission == free
            &&& free ==> n.grid == committed(grid, vehicle.id, path, Velocity::Fast, time, distance)
                && n.decision.speed == traffic
            &&& !free ==> n.grid == grid && n.decision.speed == Velocity::Stopped
        }),
{
    reveal_with_fuel(first_admitted, 2);
}

/// The commanded speed is the slower of what the traffic and what the
/// intersection allow, in the order `Stopped < Slow < Medium < Fast`, for a
/// vehicle that has not passed the intersection; past it the speed is `Fast`.
pub proof fn lemma_commanded_speed(vehicle: Vehicle, grid: GridView, traffic: Velocity, time: i64)
    ensures
        ({
            let n = negotiate(vehicle, grid, traffic, time);
            let allowed = spec_intersection_speed(vehicle, grid, time);
            if vehicle.spec_is_past_intersection() {
                n.decision.speed == Velocity::Fast
            } else {
                &&& n.decision.speed == traffic.spec_slowest(allowed)
                &&& n.decision.speed.rank() == vstd::math::min(
                    traffic.rank() as int,
                    allowed.rank() as int,
                )
            }
        }),
{
}

/// The speed that the intersection allows a vehicle in its step: `Fast`
/// unless it asks, else the speed its request is granted, or `Stopped`.
pub open spec fn spec_intersection_speed(vehicle: Vehicle, grid: GridView, time: i64) -> Velocity {
    let distance = vehicle.spec_distance_to_intersection();
    let far = distance > 150;
    let requested = !far && vehicle.requested_intersection;
    let permission = !far && vehicle.intersection_permission;
    if asks(vehicle, requested, permission) {
        match request_outcome(
            grid,
            vehicle.id,
            spec_vehicle_path(vehicle.direction, vehicle.route),
            asking_speed(vehicle, permission),
            time,
            distance as i64,
        ).granted {
            Some(speed) => speed,
            None => Velocity::Stopped,
        }
    } else {
        Velocity::Fast
    }
}

/// What one step decides for the vehicle at `index`.
#[derive(Debug)]
pub struct VehicleUpdate {
    pub index: usize,
    pub final_speed: Velocity,
    pub requested_intersection: bool,
    pub intersection_permission: bool,
    pub cells_to_release: Vec<(usize, usize)>,
    pub vehicle_id: usize,
}

impl View for VehicleUpdate {
    type V = Decision;

    open spec fn view(&self) -> Decision {
        Decision {
            speed: self.final_speed,
            requested: self.requested_intersection,
            permission: self.intersection_permission,
            release: self.cells_to_release@,
        }
    }
}

/// Takes the vehicle at `index` through its step of the protocol: clears
/// its flags when it is far, makes its request when it asks, and works out
/// the speed it is commanded and the cells it gives back.
pub fn negotiate_vehicle(
    grid: &mut ReservationGrid,
    paths: &PathCache,
    vehicle: &Vehicle,
    index: usize,
    traffic_speed: Velocity,
    current_time: i64,
) -> (update: VehicleUpdate)
    requires
        vehicle.wf(),
        -MAX_TIME <= current_time <= MAX_TIME,
    ensures
        update@ == negotiate(*vehicle, old(grid)@, traffic_speed, current_time).decision,
        final(grid)@ == negotiate(*vehicle, old(grid)@, traffic_speed, current_time).grid,
        update.index == index,
        update.vehicle_id == vehicle.id,
        old(grid)@.conflict_free() ==> final(grid)@.conflict_free(),
{
    let vehicle_id = vehicle.id;
    let distance_to_intersection: i64 = vehicle.distance_to_intersection();
    let is_past_intersection = vehicle.is_past_intersection();
    let is_in_intersection = vehicle.is_in_intersection();
    let mut requested_intersection = vehicle.requested_intersection;
    let mut intersection_permission = vehicle.intersection_permission;
    let (vx, vy, vw, vh) = vehicle.get_visual_bounds();

    if distance_to_intersection > RESET_DISTANCE {
        requested_intersection = false;
        intersection_permission = false;
    }
    let intersection_speed = if is_past_intersection {
        Velocity::Fast
    } else if distance_to_intersection > REQUEST_DISTANCE {
        Velocity::Fast
    } else if is_in_intersection {
        Velocity::Fast
    } else if !requested_intersection || !intersection_permission {
        let asking = if distance_to_intersection <= ENTRANCE_DISTANCE && !intersection_permission {
            Velocity::Stopped
        } else {
            vehicle.current_speed
        };
        let path = paths.get(vehicle.direction, vehicle.route);
        proof {
            lemma_path_distances(vehicle.direction, vehicle.route);
        }
        let (permission, recommended_speed) = request_admission(
            grid,
            path,
            vehicle_id,
            asking,
            current_time,
            distance_to_intersection,
        );
        requested_intersection = true;
        intersection_permission = permission;
        recommended_speed
    } else {
        Velocity::Fast
    };
    let final_speed = if is_past_intersection {
        Velocity::Fast
    } else {
        traffic_speed.slowest(intersection_speed)
    };
    let cells_to_release = if is_in_intersection || distance_to_intersection < RELEASE_DISTANCE {
        if vehicle.has_turned && vehicle.route != Route::Straight {
            calculate_cells_to_release_after_turn(
                paths,
                vehicle.direction,
                vehicle.route,
                vx,
                vy,
                vw,
                vh,
            )
        } else {
            calculate_cells_to_release_two_path(
                paths,
                vehicle.direction,
                vehicle.route,
                vx,
                vy,
                vw,
                vh,
            )
        }
    } else {
        Vec::new()
    };
    VehicleUpdate {
        index,
        final_speed,
        requested_intersection,
        intersection_permission,
        cells_to_release,
        vehicle_id,
    }
}

} // verus!
