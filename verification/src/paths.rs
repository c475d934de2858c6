//! The paths through the intersection: for every direction and route the
//! cells that a vehicle covers, before and after its turn.

use crate::geometry::{
    cell_coordinate, spec_cell_coordinate, COORD_LIMIT, GRID_COLS, GRID_ROWS, INTERSECTION_SPAN,
    IX_MAX, IX_MIN, IY_MAX, IY_MIN,
};
use crate::route::{
    direction_after_turn, get_turn_position, spec_direction_after_turn, spec_turn_position,
    Direction, Route,
};
use vstd::arithmetic::div_mod::{
    lemma_div_pos_is_pos, lemma_fundamental_div_mod_converse, lemma_mod_pos_bound,
    lemma_multiply_divide_lt,
};
use vstd::prelude::*;

verus! {

/// One stretch of a route through the intersection: the cells it covers, in
/// the order in which they are listed for reservation, and its length in pixels.
#[derive(Debug)]
pub struct PathSegment {
    pub cells: Vec<(usize, usize)>,
    pub distance: i64,
}

/// The way through the intersection for one direction and route: up to the
/// turn point, then, for a turning route, from the turn point to the exit.
#[derive(Debug)]
pub struct VehiclePath {
    pub segment1: PathSegment,
    pub segment2: Option<PathSegment>,
    pub turn_position: Option<(i64, i64)>,
}

pub struct SegmentView {
    pub cells: Seq<(usize, usize)>,
    pub distance: int,
}

pub struct PathView {
    pub segment1: SegmentView,
    pub segment2: Option<SegmentView>,
    pub turn_position: Option<(i64, i64)>,
}

impl View for PathSegment {
    type V = SegmentView;

    open spec fn view(&self) -> SegmentView {
        SegmentView { cells: self.cells@, distance: self.distance as int }
    }
}

impl View for VehiclePath {
    type V = PathView;

    open spec fn view(&self) -> PathView {
        PathView {
            segment1: self.segment1@,
            segment2: match self.segment2 {
                Some(s) => Some(s@),
                None => None,
            },
            turn_position: self.turn_position,
        }
    }
}

/// The cells of columns `c0` up to `c1` and rows `r0` up to `r1`, upper ends
/// excluded, listed row after row.
pub open spec fn band_by_rows(c0: int, c1: int, r0: int, r1: int) -> Seq<(usize, usize)> {
    if c0 < c1 && r0 < r1 {
        Seq::new(
            ((c1 - c0) * (r1 - r0)) as nat,
            |k: int| ((c0 + k % (c1 - c0)) as usize, (r0 + k / (c1 - c0)) as usize),
        )
    } else {
        Seq::empty()
    }
}

/// The same cells listed column after column.
pub open spec fn band_by_cols(c0: int, c1: int, r0: int, r1: int) -> Seq<(usize, usize)> {
    if c0 < c1 && r0 < r1 {
        Seq::new(
            ((c1 - c0) * (r1 - r0)) as nat,
            |k: int| ((c0 + k / (r1 - r0)) as usize, (r0 + k % (r1 - r0)) as usize),
        )
    } else {
        Seq::empty()
    }
}

/// The smaller of an index and the last index of a grid side of 30 cells, plus one.
pub open spec fn clipped_end(last: int) -> int {
    if last < 29 {
        last + 1
    } else {
        30
    }
}

/// Cells of a straight route: the middle lane of the direction, across the
/// whole intersection.
pub open spec fn spec_straight_path_cells(direction: Direction) -> Seq<(usize, usize)> {
    match direction {
        Direction::North => band_by_rows(20, 25, 0, 30),
        Direction::South => band_by_rows(5, 10, 0, 30),
        Direction::East => band_by_cols(0, 30, 20, 25),
        Direction::West => band_by_cols(0, 30, 5, 10),
    }
}

/// First of the five lane cells, across the direction of travel, of the lane
/// in which a turning vehicle enters: the left-turn lane for `Left`, the
/// outer lane otherwise.
pub open spec fn spec_entry_lane(direction: Direction, route: Route) -> int {
    match direction {
        Direction::North | Direction::East => if route == Route::Left { 15 } else { 25 },
        Direction::South | Direction::West => if route == Route::Left { 10 } else { 0 },
    }
}

/// First of the five lane cells of the lane in which a vehicle leaves after
/// its turn.
pub open spec fn spec_exit_lane(heading: Direction) -> int {
    match heading {
        Direction::North | Direction::West => 15,
        Direction::South | Direction::East => 10,
    }
}

/// The stretch from the edge by which the vehicle enters to its turn point:
/// the entry lane between the cell of the edge and the cell of the turn
/// point, clipped to the grid, and the distance between edge and turn point.
pub open spec fn spec_path_to_turn(direction: Direction, route: Route, turn_pos: (i64, i64))
    -> SegmentView {
    let lane = spec_entry_lane(direction, route);
    match direction {
        Direction::North => SegmentView {
            cells: band_by_rows(
                lane,
                lane + 5,
                spec_cell_coordinate(turn_pos.1 as int),
                clipped_end(spec_cell_coordinate(650)),
            ),
            distance: 650 - turn_pos.1,
        },
        Direction::South => SegmentView {
            cells: band_by_rows(
                lane,
                lane + 5,
                spec_cell_coordinate(350),
                clipped_end(spec_cell_coordinate(turn_pos.1 as int)),
            ),
            distance: turn_pos.1 - 350,
        },
        Direction::East => SegmentView {
            cells: band_by_cols(
                spec_cell_coordinate(350),
                clipped_end(spec_cell_coordinate(turn_pos.0 as int)),
                lane,
                lane + 5,
            ),
            distance: turn_pos.0 - 350,
        },
        Direction::West => SegmentView {
            cells: band_by_cols(
                spec_cell_coordinate(turn_pos.0 as int),
                clipped_end(spec_cell_coordinate(650)),
                lane,
                lane + 5,
            ),
            distance: 650 - turn_pos.0,
        },
    }
}

/// The stretch from the turn point to the edge by which the vehicle leaves,
/// in the lane of its direction after the turn.
pub open spec fn spec_path_from_turn(direction: Direction, route: Route, turn_pos: (i64, i64))
    -> SegmentView {
    let heading = spec_direction_after_turn(direction, route);
    let lane = spec_exit_lane(heading);
    match heading {
        Direction::North => SegmentView {
            cells: band_by_rows(
                lane,
                lane + 5,
                spec_cell_coordinate(350),
                clipped_end(spec_cell_coordinate(turn_pos.1 as int)),
            ),
            distance: turn_pos.1 - 350,
        },
        Direction::South => SegmentView {
            cells: band_by_rows(
                lane,
                lane + 5,
                spec_cell_coordinate(turn_pos.1 as int),
                clipped_end(spec_cell_coordinate(650)),
            ),
            distance: 650 - turn_pos.1,
        },
        Direction::East => SegmentView {
            cells: band_by_cols(
                spec_cell_coordinate(turn_pos.0 as int),
                clipped_end(spec_cell_coordinate(650)),
                lane,
                lane + 5,
            ),
            distance: 650 - turn_pos.0,
        },
        Direction::West => SegmentView {
            cells: band_by_cols(
                spec_cell_coordinate(350),
                clipped_end(spec_cell_coordinate(turn_pos.0 as int)),
                lane,
                lane + 5,
            ),
            distance: turn_pos.0 - 350,
        },
    }
}

/// The way through the intersection for a direction and a route.
pub open spec fn spec_vehicle_path(direction: Direction, route: Route) -> PathView {
    match route {
        Route::Straight => PathView {
            segment1: SegmentView { cells: spec_straight_path_cells(direction), distance: 300 },
            segment2: None,
            turn_position: None,
        },
        _ => PathView {
            segment1: spec_path_to_turn(direction, route, spec_turn_position(direction, route)),
            segment2: Some(
                spec_path_from_turn(direction, route, spec_turn_position(direction, route)),
            ),
            turn_position: Some(spec_turn_position(direction, route)),
        },
    }
}

/// Place of a direction and route in the table of paths.
pub open spec fn spec_path_slot(direction: Direction, route: Route) -> int {
    3 * (match direction {
        Direction::North => 0int,
        Direction::South => 1int,
        Direction::East => 2int,
        Direction::West => 3int,
    }) + (match route {
        Route::Straight => 0int,
        Route::Left => 1int,
        Route::Right => 2int,
    })
}

/// A band holds one cell for each pair of a column and a row of its ranges,
/// and no cell outside them.
pub proof fn lemma_band_cells(c0: int, c1: int, r0: int, r1: int, k: int)
    requires
        0 <= c0 < c1 <= usize::MAX,
        0 <= r0 < r1 <= usize::MAX,
        0 <= k < (c1 - c0) * (r1 - r0),
    ensures
        band_by_rows(c0, c1, r0, r1).len() == (c1 - c0) * (r1 - r0),
        band_by_cols(c0, c1, r0, r1).len() == (c1 - c0) * (r1 - r0),
        c0 <= band_by_rows(c0, c1, r0, r1)[k].0 < c1,
        r0 <= band_by_rows(c0, c1, r0, r1)[k].1 < r1,
        c0 <= band_by_cols(c0, c1, r0, r1)[k].0 < c1,
        r0 <= band_by_cols(c0, c1, r0, r1)[k].1 < r1,
{
    let w = c1 - c0;
    let h = r1 - r0;
    assert(0 < w * h) by (nonlinear_arith)
        requires
            0 < w,
            0 < h,
    ;
    assert(w * h == h * w) by (nonlinear_arith);
    lemma_mod_pos_bound(k, w);
    lemma_div_pos_is_pos(k, w);
    lemma_multiply_divide_lt(k, w, h);
    lemma_mod_pos_bound(k, h);
    lemma_div_pos_is_pos(k, h);
    lemma_multiply_divide_lt(k, h, w);
}

/// Whether every listed cell lies inside the grid over the intersection.
pub open spec fn cells_in_grid(cells: Seq<(usize, usize)>) -> bool {
    forall|k: int| 0 <= k < cells.len() ==> (#[trigger] cells[k]).0 < 30 && cells[k].1 < 30
}

proof fn lemma_band_in_grid(c0: int, c1: int, r0: int, r1: int)
    requires
        0 <= c0,
        c1 <= 30,
        0 <= r0,
        r1 <= 30,
    ensures
        cells_in_grid(band_by_rows(c0, c1, r0, r1)),
        cells_in_grid(band_by_cols(c0, c1, r0, r1)),
{
    if c0 < c1 && r0 < r1 {
        assert forall|k: int| 0 <= k < (c1 - c0) * (r1 - r0) implies (#[trigger] band_by_rows(
            c0,
            c1,
            r0,
            r1,
        )[k]).0 < 30 && band_by_rows(c0, c1, r0, r1)[k].1 < 30 by {
            lemma_band_cells(c0, c1, r0, r1, k);
        }
        assert forall|k: int| 0 <= k < (c1 - c0) * (r1 - r0) implies (#[trigger] band_by_cols(
            c0,
            c1,
            r0,
            r1,
        )[k]).0 < 30 && band_by_cols(c0, c1, r0, r1)[k].1 < 30 by {
            lemma_band_cells(c0, c1, r0, r1, k);
        }
    }
}

/// The stretches to and from any turn point lie inside the grid: what
/// would reach beyond it is clipped.
pub proof fn lemma_stretches_in_grid(direction: Direction, route: Route, turn_pos: (i64, i64))
    ensures
        cells_in_grid(spec_path_to_turn(direction, route, turn_pos).cells),
        cells_in_grid(spec_path_from_turn(direction, route, turn_pos).cells),
{
    let lane = spec_entry_lane(direction, route);
    let out = spec_exit_lane(spec_direction_after_turn(direction, route));
    let x = spec_cell_coordinate(turn_pos.0 as int);
    let y = spec_cell_coordinate(turn_pos.1 as int);
    lemma_band_in_grid(lane, lane + 5, y, 30);
    lemma_band_in_grid(lane, lane + 5, 0, clipped_end(y));
    lemma_band_in_grid(0, clipped_end(x), lane, lane + 5);
    lemma_band_in_grid(x, 30, lane, lane + 5);
    lemma_band_in_grid(out, out + 5, y, 30);
    lemma_band_in_grid(out, out + 5, 0, clipped_end(y));
    lemma_band_in_grid(0, clipped_end(x), out, out + 5);
    lemma_band_in_grid(x, 30, out, out + 5);
}

/// Every cell of every path lies inside the grid over the intersection.
pub proof fn lemma_path_cells_in_grid(direction: Direction, route: Route)
    ensures
        cells_in_grid(spec_vehicle_path(direction, route).segment1.cells),
        spec_vehicle_path(direction, route).segment2 matches Some(s) ==> cells_in_grid(s.cells),
{
    lemma_band_in_grid(20, 25, 0, 30);
    lemma_band_in_grid(5, 10, 0, 30);
    lemma_band_in_grid(0, 30, 20, 25);
    lemma_band_in_grid(0, 30, 5, 10);
    lemma_stretches_in_grid(direction, route, spec_turn_position(direction, route));
}

/// Every stretch of every path is between 0 and 300 pixels long.
pub proof fn lemma_path_distances(direction: Direction, route: Route)
    ensures
        0 <= spec_vehicle_path(direction, route).segment1.distance <= 300,
        spec_vehicle_path(direction, route).segment2 matches Some(s) ==> 0 <= s.distance <= 300,
        route == Route::Straight <==> spec_vehicle_path(direction, route).segment2 is None,
{
}

/// A turning path is as long as the way to the turn point and on from it
/// along the two axes: both stretches together cover what the turn point is
/// from the entry edge and from the exit edge.
pub proof fn lemma_turning_path_length(direction: Direction, route: Route)
    requires
        route != Route::Straight,
    ensures
        spec_vehicle_path(direction, route).segment2 is Some,
        spec_vehicle_path(direction, route).segment1.distance == (match direction {
            Direction::North => 650 - spec_turn_position(direction, route).1,
            Direction::South => spec_turn_position(direction, route).1 - 350,
            Direction::East => spec_turn_position(direction, route).0 - 350,
            Direction::West => 650 - spec_turn_position(direction, route).0,
        }),
        spec_vehicle_path(direction, route).segment2->0.distance == (match spec_direction_after_turn(
            direction,
            route,
        ) {
            Direction::North => spec_turn_position(direction, route).1 - 350,
            Direction::South => 650 - spec_turn_position(direction, route).1,
            Direction::East => 650 - spec_turn_position(direction, route).0,
            Direction::West => spec_turn_position(direction, route).0 - 350,
        }),
{
}

/// The cells of columns `c0` up to `c1` and rows `r0` up to `r1`, row after row.
pub fn cells_by_rows(c0: usize, c1: usize, r0: usize, r1: usize) -> (cells: Vec<(usize, usize)>)
    ensures
        cells@ == band_by_rows(c0 as int, c1 as int, r0 as int, r1 as int),
{
    let mut cells: Vec<(usize, usize)> = Vec::new();
    if c0 >= c1 || r0 >= r1 {
        return cells;
    }
    let ghost w = (c1 - c0) as int;
    let mut row: usize = r0;
    while row < r1
        invariant
            c0 < c1,
            r0 <= row <= r1,
            w == c1 - c0,
            cells@.len() == (row - r0) * w,
            forall|k: int|
                0 <= k < cells@.len() ==> #[trigger] cells@[k] == ((c0 + k % w) as usize, (r0 + k
                    / w) as usize),
        decreases r1 - row,
    {
        let mut col: usize = c0;
        while col < c1
            invariant
                c0 <= col <= c1,
                r0 <= row < r1,
                w == c1 - c0,
                cells@.len() == (row - r0) * w + (col - c0),
                forall|k: int|
                    0 <= k < cells@.len() ==> #[trigger] cells@[k] == ((c0 + k % w) as usize, (r0
                        + k / w) as usize),
            decreases c1 - col,
        {
            proof {
                lemma_fundamental_div_mod_converse(
                    (row - r0) * w + (col - c0),
                    w,
                    (row - r0) as int,
                    (col - c0) as int,
                );
            }
            cells.push((col, row));
            col += 1;
        }
        proof {
            assert((row - r0) * w + w == (row + 1 - r0) * w) by (nonlinear_arith);
        }
        row += 1;
    }
    proof {
        assert((r1 - r0) * w == w * (r1 - r0)) by (nonlinear_arith);
        assert(cells@ =~= band_by_rows(c0 as int, c1 as int, r0 as int, r1 as int));
    }
    cells
}

/// The same cells, column after column.
pub fn cells_by_cols(c0: usize, c1: usize, r0: usize, r1: usize) -> (cells: Vec<(usize, usize)>)
    ensures
        cells@ == band_by_cols(c0 as int, c1 as int, r0 as int, r1 as int),
{
    let mut cells: Vec<(usize, usize)> = Vec::new();
    if c0 >= c1 || r0 >= r1 {
        return cells;
    }
    let ghost h = (r1 - r0) as int;
    let mut col: usize = c0;
    while col < c1
        invariant
            r0 < r1,
            c0 <= col <= c1,
            h == r1 - r0,
            cells@.len() == (col - c0) * h,
            forall|k: int|
                0 <= k < cells@.len() ==> #[trigger] cells@[k] == ((c0 + k / h) as usize, (r0 + k
                    % h) as usize),
        decreases c1 - col,
    {
        let mut row: usize = r0;
        while row < r1
            invariant
                r0 <= row <= r1,
                c0 <= col < c1,
                h == r1 - r0,
                cells@.len() == (col - c0) * h + (row - r0),
                forall|k: int|
                    0 <= k < cells@.len() ==> #[trigger] cells@[k] == ((c0 + k / h) as usize, (r0
                        + k % h) as usize),
            decreases r1 - row,
        {
            proof {
                lemma_fundamental_div_mod_converse(
                    (col - c0) * h + (row - r0),
                    h,
                    (col - c0) as int,
                    (row - r0) as int,
                );
            }
            cells.push((col, row));
            row += 1;
        }
        proof {
            assert((col - c0) * h + h == (col + 1 - c0) * h) by (nonlinear_arith);
        }
        col += 1;
    }
    proof {
        assert((c1 - c0) * h == (c1 - c0) * (r1 - r0)) by (nonlinear_arith)
            requires
                h == r1 - r0,
        ;
        assert(cells@ =~= band_by_cols(c0 as int, c1 as int, r0 as int, r1 as int));
    }
    cells
}

/// One past the last grid index that a stretch ending in cell `last` covers.
fn clip_end(last: usize) -> (r: usize)
    ensures
        r == clipped_end(last as int),
        r <= 30,
{
    if last < GRID_ROWS - 1 {
        last + 1
    } else {
        GRID_ROWS
    }
}

fn entry_lane(direction: Direction, route: Route) -> (r: usize)
    ensures
        r == spec_entry_lane(direction, route),
{
    let left: bool = route == Route::Left;
    match direction {
        Direction::North | Direction::East => if left {
            15
        } else {
            25
        },
        Direction::South | Direction::West => if left {
            10
        } else {
            0
        },
    }
}

fn exit_lane(heading: Direction) -> (r: usize)
    ensures
        r == spec_exit_lane(heading),
{
    match heading {
        Direction::North | Direction::West => 15,
        Direction::South | Direction::East => 10,
    }
}

/// Cells of a straight route in `direction`.
pub fn calculate_straight_path_cells(direction: Direction) -> (cells: Vec<(usize, usize)>)
    ensures
        cells@ == spec_straight_path_cells(direction),
{
    match direction {
        Direction::North => cells_by_rows(20, 25, 0, GRID_ROWS),
        Direction::South => cells_by_rows(5, 10, 0, GRID_ROWS),
        Direction::East => cells_by_cols(0, GRID_COLS, 20, 25),
        Direction::West => cells_by_cols(0, GRID_COLS, 5, 10),
    }
}

/// Length of a straight route: the intersection's span, whatever the direction.
pub fn calculate_straight_path_distance(_direction: Direction) -> (r: i64)
    ensures
        r == 300,
{
    INTERSECTION_SPAN
}

/// Cells and length of the stretch from the entry edge to `turn_pos`.
pub fn calculate_path_to_turn(direction: Direction, route: Route, turn_pos: (i64, i64)) -> (r: (
    Vec<(usize, usize)>,
    i64,
))
    requires
        -COORD_LIMIT <= turn_pos.0 <= COORD_LIMIT,
        -COORD_LIMIT <= turn_pos.1 <= COORD_LIMIT,
    ensures
        r.0@ == spec_path_to_turn(direction, route, turn_pos).cells,
        r.1 == spec_path_to_turn(direction, route, turn_pos).distance,
{
    let lane = entry_lane(direction, route);
    match direction {
        Direction::North => {
            let start_row = cell_coordinate(turn_pos.1);
            let end_row = cell_coordinate(IY_MAX);
            (cells_by_rows(lane, lane + 5, start_row, clip_end(end_row)), IY_MAX - turn_pos.1)
        },
        Direction::South => {
            let start_row = cell_coordinate(IY_MIN);
            let end_row = cell_coordinate(turn_pos.1);
            (cells_by_rows(lane, lane + 5, start_row, clip_end(end_row)), turn_pos.1 - IY_MIN)
        },
        Direction::East => {
            let start_col = cell_coordinate(IX_MIN);
            let end_col = cell_coordinate(turn_pos.0);
            (cells_by_cols(start_col, clip_end(end_col), lane, lane + 5), turn_pos.0 - IX_MIN)
        },
        Direction::West => {
            let start_col = cell_coordinate(turn_pos.0);
            let end_col = cell_coordinate(IX_MAX);
            (cells_by_cols(start_col, clip_end(end_col), lane, lane + 5), IX_MAX - turn_pos.0)
        },
    }
}

/// Cells and length of the stretch from `turn_pos` to the exit edge.
pub fn calculate_path_from_turn(direction: Direction, route: Route, turn_pos: (i64, i64)) -> (r: (
    Vec<(usize, usize)>,
    i64,
))
    requires
        -COORD_LIMIT <= turn_pos.0 <= COORD_LIMIT,
        -COORD_LIMIT <= turn_pos.1 <= COORD_LIMIT,
    ensures
        r.0@ == spec_path_from_turn(direction, route, turn_pos).cells,
        r.1 == spec_path_from_turn(direction, route, turn_pos).distance,
{
    let new_direction = direction_after_turn(direction, route);
    let lane = exit_lane(new_direction);
    match new_direction {
        Direction::North => {
            let start_row = cell_coordinate(IY_MIN);
            let end_row = cell_coordinate(turn_pos.1);
            (cells_by_rows(lane, lane + 5, start_row, clip_end(end_row)), turn_pos.1 - IY_MIN)
        },
        Direction::South => {
            let start_row = cell_coordinate(turn_pos.1);
            let end_row = cell_coordinate(IY_MAX);
            (cells_by_rows(lane, lane + 5, start_row, clip_end(end_row)), IY_MAX - turn_pos.1)
        },
        Direction::East => {
            let start_col = cell_coordinate(turn_pos.0);
            let end_col = cell_coordinate(IX_MAX);
            (cells_by_cols(start_col, clip_end(end_col), lane, lane + 5), IX_MAX - turn_pos.0)
        },
        Direction::West => {
            let start_col = cell_coordinate(IX_MIN);
            let end_col = cell_coordinate(turn_pos.0);
            (cells_by_cols(start_col, clip_end(end_col), lane, lane + 5), turn_pos.0 - IX_MIN)
        },
    }
}

/// The whole path for a direction and a route.
pub fn calculate_vehicle_path(direction: Direction, route: Route) -> (path: VehiclePath)
    ensures
        path@ == spec_vehicle_path(direction, route),
{
    match route {
        Route::Straight => {
            let cells = calculate_straight_path_cells(direction);
            let distance = calculate_straight_path_distance(direction);
            VehiclePath {
                segment1: PathSegment { cells, distance },
                segment2: None,
                turn_position: None,
            }
        },
        Route::Right | Route::Left => {
            let turn_pos = get_turn_position(direction, route);
            let (segment1_cells, segment1_distance) = calculate_path_to_turn(
                direction,
                route,
                turn_pos,
            );
            let (segment2_cells, segment2_distance) = calculate_path_from_turn(
                direction,
                route,
                turn_pos,
            );
            VehiclePath {
                segment1: PathSegment { cells: segment1_cells, distance: segment1_distance },
                segment2: Some(PathSegment { cells: segment2_cells, distance: segment2_distance }),
                turn_position: Some(turn_pos),
            }
        },
    }
}

/// The paths of all twelve pairs of direction and route, computed once.
pub struct PathCache {
    paths: Vec<VehiclePath>,
}

pub fn path_slot(direction: Direction, route: Route) -> (r: usize)
    ensures
        r == spec_path_slot(direction, route),
        r < 12,
{
    let d: usize = match direction {
        Direction::North => 0,
        Direction::South => 1,
        Direction::East => 2,
        Direction::West => 3,
    };
    let r: usize = match route {
        Route::Straight => 0,
        Route::Left => 1,
        Route::Right => 2,
    };
    3 * d + r
}

impl View for PathCache {
    type V = Map<(Direction, Route), PathView>;

    /// The cached path of every pair of direction and route.
    closed spec fn view(&self) -> Map<(Direction, Route), PathView> {
        Map::new(
            |key: (Direction, Route)| true,
            |key: (Direction, Route)| self.paths@[spec_path_slot(key.0, key.1)]@,
        )
    }
}

impl PathCache {
    /// The table holds, for every direction and route, the path of that pair.
    #[verifier::type_invariant]
    pub closed spec fn wf(&self) -> bool {
        &&& self.paths@.len() == 12
        &&& forall|direction: Direction, route: Route|
            (#[trigger] self.paths@[spec_path_slot(direction, route)])@ == spec_vehicle_path(
                direction,
                route,
            )
    }

    /// Computes the path of every direction and route.
    pub fn initialize_path_cache() -> (cache: PathCache)
        ensures
            forall|direction: Direction, route: Route|
                cache@.contains_key((direction, route)) && #[trigger] cache@[(direction, route)]
                    == spec_vehicle_path(direction, route),
    {
        let directions = [Direction::North, Direction::South, Direction::East, Direction::West];
        let routes = [Route::Straight, Route::Left, Route::Right];
        let mut paths: Vec<VehiclePath> = Vec::new();
        let mut d: usize = 0;
        while d < 4
            invariant
                d <= 4,
                directions@ == seq![Direction::North, Direction::South, Direction::East, Direction::West],
                routes@ == seq![Route::Straight, Route::Left, Route::Right],
                paths@.len() == 3 * d,
                forall|i: int, j: int|
                    0 <= i < d && 0 <= j < 3 ==> (#[trigger] paths@[3 * i + j])@ == spec_vehicle_path(
                        directions@[i],
                        routes@[j],
                    ),
            decreases 4 - d,
        {
            let mut r: usize = 0;
            while r < 3
                invariant
                    d < 4,
                    r <= 3,
                    directions@ == seq![Direction::North, Direction::South, Direction::East, Direction::West],
                    routes@ == seq![Route::Straight, Route::Left, Route::Right],
                    paths@.len() == 3 * d + r,
                    forall|i: int, j: int|
                        0 <= i < d && 0 <= j < 3 ==> (#[trigger] paths@[3 * i + j])@
                            == spec_vehicle_path(directions@[i], routes@[j]),
                    forall|j: int|
                        0 <= j < r ==> (#[trigger] paths@[3 * d + j])@ == spec_vehicle_path(
                            directions@[d as int],
                            routes@[j],
                        ),
                decreases 3 - r,
            {
                let path = calculate_vehicle_path(directions[d], routes[r]);
                paths.push(path);
                r += 1;
            }
            d += 1;
        }
        let cache = PathCache { paths };
        proof {
            assert forall|direction: Direction, route: Route|
                (#[trigger] cache.paths@[spec_path_slot(direction, route)])@ == spec_vehicle_path(
                    direction,
                    route,
                ) by {
                let i = spec_path_slot(direction, route) / 3;
                let j = spec_path_slot(direction, route) % 3;
                assert(directions@[i] == direction);
                assert(routes@[j] == route);
                assert(cache.paths@[3 * i + j]@ == spec_vehicle_path(directions@[i], routes@[j]));
            }
        }
        cache
    }

    /// The path for a direction and a route.
    pub fn get(&self, direction: Direction, route: Route) -> (path: &VehiclePath)
        ensures
            path@ == self@[(direction, route)],
            path@ == spec_vehicle_path(direction, route),
    {
        proof {
            use_type_invariant(self);
        }
        &self.paths[path_slot(direction, route)]
    }
}

} // verus!
