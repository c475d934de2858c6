use smart_road::geometry::cell_coordinate;
use smart_road::paths::{
    calculate_path_from_turn, calculate_path_to_turn, calculate_straight_path_cells,
    calculate_straight_path_distance, calculate_vehicle_path, cells_by_cols, cells_by_rows,
    path_slot, PathCache,
};
use smart_road::route::{get_turn_position, Direction, Route};

const DIRECTIONS: [Direction; 4] =
    [Direction::North, Direction::South, Direction::East, Direction::West];
const ROUTES: [Route; 3] = [Route::Straight, Route::Left, Route::Right];

#[test]
fn cell_coordinates() {
    assert_eq!(cell_coordinate(350), 0);
    assert_eq!(cell_coordinate(359), 0);
    assert_eq!(cell_coordinate(360), 1);
    assert_eq!(cell_coordinate(470), 12);
    assert_eq!(cell_coordinate(649), 29);
    assert_eq!(cell_coordinate(650), 30);
    assert_eq!(cell_coordinate(0), 0);
    assert_eq!(cell_coordinate(-500), 0);
    assert_eq!(cell_coordinate(1000), 65);
}

#[test]
fn bands_in_both_orders() {
    assert_eq!(cells_by_rows(2, 4, 7, 9), vec![(2, 7), (3, 7), (2, 8), (3, 8)]);
    assert_eq!(cells_by_cols(2, 4, 7, 9), vec![(2, 7), (2, 8), (3, 7), (3, 8)]);
    assert!(cells_by_rows(4, 4, 0, 9).is_empty());
    assert!(cells_by_rows(5, 4, 0, 9).is_empty());
    assert!(cells_by_cols(0, 4, 9, 9).is_empty());
    assert!(cells_by_cols(0, 4, 9, 3).is_empty());
    assert_eq!(cells_by_rows(0, 1, 0, 1), vec![(0, 0)]);
}

#[test]
fn straight_paths() {
    let north = calculate_straight_path_cells(Direction::North);
    assert_eq!(north.len(), 150);
    assert_eq!(north[0], (20, 0));
    assert_eq!(north[4], (24, 0));
    assert_eq!(north[5], (20, 1));
    assert_eq!(north[149], (24, 29));
    let south = calculate_straight_path_cells(Direction::South);
    assert_eq!(south.len(), 150);
    assert_eq!(south[0], (5, 0));
    assert_eq!(south[149], (9, 29));
    let east = calculate_straight_path_cells(Direction::East);
    assert_eq!(east.len(), 150);
    assert_eq!(east[0], (0, 20));
    assert_eq!(east[4], (0, 24));
    assert_eq!(east[5], (1, 20));
    assert_eq!(east[149], (29, 24));
    let west = calculate_straight_path_cells(Direction::West);
    assert_eq!(west[0], (0, 5));
    assert_eq!(west[149], (29, 9));
    for d in DIRECTIONS {
        assert_eq!(calculate_straight_path_distance(d), 300);
        let p = calculate_vehicle_path(d, Route::Straight);
        assert_eq!(p.segment1.cells, calculate_straight_path_cells(d));
        assert_eq!(p.segment1.distance, 300);
        assert!(p.segment2.is_none());
        assert!(p.turn_position.is_none());
    }
}

fn check_turn(
    d: Direction,
    r: Route,
    first: ((usize, usize), (usize, usize), usize, i64),
    second: ((usize, usize), (usize, usize), usize, i64),
) {
    let p = calculate_vehicle_path(d, r);
    assert_eq!(p.turn_position, Some(get_turn_position(d, r)));
    let s1 = &p.segment1;
    let s2 = match &p.segment2 {
        Some(s) => s,
        None => panic!("a turning path has two stretches"),
    };
    assert_eq!(s1.cells.len(), first.2, "{:?} {:?} first", d, r);
    assert_eq!(s1.cells[0], first.0);
    assert_eq!(s1.cells[s1.cells.len() - 1], first.1);
    assert_eq!(s1.distance, first.3);
    assert_eq!(s2.cells.len(), second.2, "{:?} {:?} second", d, r);
    assert_eq!(s2.cells[0], second.0);
    assert_eq!(s2.cells[s2.cells.len() - 1], second.1);
    assert_eq!(s2.distance, second.3);
}

#[test]
fn turning_paths() {
    check_turn(
        Direction::North,
        Route::Left,
        ((15, 12), (19, 29), 90, 180),
        ((0, 15), (15, 19), 80, 150),
    );
    check_turn(
        Direction::North,
        Route::Right,
        ((25, 26), (29, 29), 20, 40),
        ((25, 10), (29, 14), 25, 50),
    );
    check_turn(
        Direction::South,
        Route::Left,
        ((10, 0), (14, 19), 100, 190),
        ((10, 10), (29, 14), 100, 200),
    );
    check_turn(
        Direction::South,
        Route::Right,
        ((0, 0), (4, 4), 25, 40),
        ((0, 15), (0, 19), 5, 0),
    );
    check_turn(
        Direction::East,
        Route::Left,
        ((0, 15), (20, 19), 105, 200),
        ((15, 0), (19, 18), 95, 185),
    );
    check_turn(
        Direction::East,
        Route::Right,
        ((0, 25), (5, 29), 30, 50),
        ((10, 28), (14, 29), 10, 15),
    );
    check_turn(
        Direction::West,
        Route::Left,
        ((10, 10), (29, 14), 100, 200),
        ((10, 13), (14, 29), 85, 165),
    );
    check_turn(
        Direction::West,
        Route::Right,
        ((25, 0), (29, 4), 25, 50),
        ((15, 0), (19, 3), 20, 35),
    );
}

#[test]
fn stretches_for_other_turn_points() {
    // a turn point on the far edge leaves nothing of the first stretch for a
    // vehicle going north, and the whole lane for the second of one then going south
    let (cells, distance) = calculate_path_to_turn(Direction::North, Route::Left, (500, 650));
    assert!(cells.is_empty());
    assert_eq!(distance, 0);
    let (cells, distance) = calculate_path_to_turn(Direction::North, Route::Left, (500, 350));
    assert_eq!(cells.len(), 150);
    assert_eq!(distance, 300);
    // a turn point before the near edge counts as cell 0
    let (cells, distance) = calculate_path_to_turn(Direction::South, Route::Right, (350, 200));
    assert_eq!(cells, vec![(0, 0), (1, 0), (2, 0), (3, 0), (4, 0)]);
    assert_eq!(distance, -150);
    // West going right ends up going north
    let (cells, distance) = calculate_path_from_turn(Direction::West, Route::Right, (600, 350));
    assert_eq!(cells, vec![(15, 0), (16, 0), (17, 0), (18, 0), (19, 0)]);
    assert_eq!(distance, 0);
    // a turn point beyond the far edge is clipped to the grid
    let (cells, distance) = calculate_path_to_turn(Direction::East, Route::Left, (900, 535));
    assert_eq!(cells.len(), 150);
    assert_eq!(distance, 550);
}

#[test]
fn cache_holds_all_twelve_paths() {
    let cache = PathCache::initialize_path_cache();
    let mut slots = Vec::new();
    for d in DIRECTIONS {
        for r in ROUTES {
            let cached = cache.get(d, r);
            let fresh = calculate_vehicle_path(d, r);
            assert_eq!(cached.segment1.cells, fresh.segment1.cells);
            assert_eq!(cached.segment1.distance, fresh.segment1.distance);
            assert_eq!(cached.turn_position, fresh.turn_position);
            match (&cached.segment2, &fresh.segment2) {
                (Some(a), Some(b)) => {
                    assert_eq!(a.cells, b.cells);
                    assert_eq!(a.distance, b.distance);
                }
                (None, None) => assert_eq!(r, Route::Straight),
                _ => panic!("cache and computation differ for {:?} {:?}", d, r),
            }
            slots.push(path_slot(d, r));
        }
    }
    slots.sort();
    assert_eq!(slots, (0..12).collect::<Vec<usize>>());
}

#[test]
fn all_path_cells_are_inside_the_grid() {
    for d in DIRECTIONS {
        for r in ROUTES {
            let p = calculate_vehicle_path(d, r);
            let mut all = p.segment1.cells.clone();
            if let Some(s) = &p.segment2 {
                all.extend(s.cells.iter().copied());
                assert!(0 <= s.distance && s.distance <= 300);
            }
            assert!(0 <= p.segment1.distance && p.segment1.distance <= 300);
            assert!(all.iter().all(|(c, r)| *c < 30 && *r < 30));
        }
    }
}
