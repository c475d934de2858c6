//! The fixed geometry: the field, the intersection on it, and the grid of
//! cells laid over the intersection.

use vstd::prelude::*;

verus! {

/// Left edge of the intersection, in pixels.
pub const IX_MIN: i64 = 350;

/// Top edge of the intersection.
pub const IY_MIN: i64 = 350;

/// Right edge of the intersection.
pub const IX_MAX: i64 = 650;

/// Bottom edge of the intersection.
pub const IY_MAX: i64 = 650;

/// Side of the square field the vehicles drive on.
pub const CANVAS_SIZE: i64 = 1000;

/// Distance a straight route covers inside the intersection.
pub const INTERSECTION_SPAN: i64 = 300;

/// Side of one grid cell, in pixels.
pub const ZONE_PX: i64 = 10;

/// Cells in one row of the grid laid over the intersection.
pub const GRID_COLS: usize = 30;

/// Rows of that grid.
pub const GRID_ROWS: usize = 30;

/// Bound on the lengths of a vehicle and on the coordinates of the points
/// where vehicles appear and turn.
pub const COORD_LIMIT: i64 = 1_000_000;

/// Bound on the coordinates of a vehicle's corner: wide enough for every
/// vehicle, of lengths within `COORD_LIMIT`, whose box still touches the field.
pub const POSITION_LIMIT: i64 = 4_000_000;

/// Index, along one axis, of the cell that holds the pixel `px`, counted from
/// the intersection's edge; pixels before the edge count as index 0.
pub open spec fn spec_cell_coordinate(px: int) -> int {
    if px <= 350 {
        0
    } else {
        (px - 350) / 10
    }
}

pub fn cell_coordinate(px: i64) -> (r: usize)
    requires
        px <= i32::MAX,
    ensures
        r == spec_cell_coordinate(px as int),
{
    if px <= IX_MIN {
        0
    } else {
        ((px - IX_MIN) / ZONE_PX) as usize
    }
}

} // verus!
