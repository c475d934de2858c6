use smart_road::admission::{
    calculate_cells_to_release_after_turn, calculate_cells_to_release_two_path, cells_behind,
    cells_on_line, negotiate_vehicle, request_admission,
};
use smart_road::grid::{ReservationGrid, TimeSlot};
use smart_road::intersection::SmartIntersection;
use smart_road::paths::PathCache;
use smart_road::route::{get_spawn_position, get_turn_position, Direction, Route};
use smart_road::vehicle::Vehicle;
use smart_road::velocities::Velocity;

fn slot(start: i64, end: i64, vehicle_id: usize) -> TimeSlot {
    TimeSlot { start, end, vehicle_id }
}

fn vehicle(id: usize, direction: Direction, route: Route) -> Vehicle {
    Vehicle::new(
        id,
        1,
        route,
        direction,
        get_spawn_position(direction, route),
        get_turn_position(direction, route),
    )
}

fn total(grid: &ReservationGrid) -> u128 {
    grid.statistics(0).total_reservations
}

#[test]
fn free_grid_grants_fast_whatever_the_speed() {
    let cache = PathCache::initialize_path_cache();
    let path = cache.get(Direction::North, Route::Straight);
    for speed in [Velocity::Fast, Velocity::Medium, Velocity::Slow, Velocity::Stopped] {
        let mut grid = ReservationGrid::new(30, 30);
        let r = request_admission(&mut grid, path, 1, speed, 0, 60);
        assert_eq!(r, (true, Velocity::Fast), "asking at {:?}", speed);
        assert_eq!(total(&grid), 150);
        for cell in &path.segment1.cells {
            assert_eq!(grid.reservations(cell.0, cell.1), vec![slot(900, 5400, 1)]);
        }
    }
}

#[test]
fn a_vehicle_at_medium_is_granted_fast_on_a_free_grid() {
    let mut ix = SmartIntersection::new();
    let r = ix.try_two_path_intersection_request(
        1,
        Route::Straight,
        Direction::North,
        Velocity::Medium,
        0,
        42,
    );
    assert_eq!(r, (true, Velocity::Fast));
    assert_eq!(ix.grid.reservations(20, 0), vec![slot(630, 5130, 1)]);
}

#[test]
fn a_moving_vehicle_falls_from_fast_to_medium_to_slow() {
    let cache = PathCache::initialize_path_cache();
    let path = cache.get(Direction::North, Route::Straight);
    // at 60 px: fast [900, 5400), medium [1260, 7560), slow [2100, 12600)
    for speed in [Velocity::Fast, Velocity::Medium, Velocity::Slow] {
        let mut grid = ReservationGrid::new(30, 30);
        grid.reserve_cells_for_vehicle(99, &vec![(22, 10)], 1000, 1200);
        let r = request_admission(&mut grid, path, 1, speed, 0, 60);
        assert_eq!(r, (true, Velocity::Medium), "asking at {:?}", speed);
        assert_eq!(grid.reservations(20, 0), vec![slot(1260, 7560, 1)]);
        let mut grid = ReservationGrid::new(30, 30);
        grid.reserve_cells_for_vehicle(99, &vec![(22, 10)], 1000, 2000);
        let r = request_admission(&mut grid, path, 1, speed, 0, 60);
        assert_eq!(r, (true, Velocity::Slow), "asking at {:?}", speed);
        assert_eq!(grid.reservations(20, 0), vec![slot(2100, 12600, 1)]);
    }
    // a standing vehicle tries fast and gives up
    let mut grid = ReservationGrid::new(30, 30);
    grid.reserve_cells_for_vehicle(99, &vec![(22, 10)], 1000, 1200);
    let r = request_admission(&mut grid, path, 1, Velocity::Stopped, 0, 60);
    assert_eq!(r, (false, Velocity::Stopped));
    assert_eq!(total(&grid), 1);
}

#[test]
fn windows_start_at_the_current_time() {
    let cache = PathCache::initialize_path_cache();
    let path = cache.get(Direction::East, Route::Straight);
    let mut grid = ReservationGrid::new(30, 30);
    let r = request_admission(&mut grid, path, 3, Velocity::Fast, 10_500, 42);
    assert_eq!(r, (true, Velocity::Fast));
    // 42 px at 15 units per px, then 300 px
    assert_eq!(grid.reservations(0, 20), vec![slot(10_500 + 630, 10_500 + 630 + 4500, 3)]);
}

#[test]
fn denied_at_fast_and_medium_admitted_at_slow() {
    let cache = PathCache::initialize_path_cache();
    let path = cache.get(Direction::North, Route::Straight);
    let mut grid = ReservationGrid::new(30, 30);
    // another vehicle holds one cell of the lane over [1000, 2000): inside the
    // fast window [900, 5400) and the medium one [1260, 7560), before the slow
    // one [2100, 12600)
    grid.reserve_cells_for_vehicle(99, &vec![(22, 10)], 1000, 2000);
    assert!(!grid.can_reserve_cells(&path.segment1.cells, 900, 5400));
    assert!(!grid.can_reserve_cells(&path.segment1.cells, 1260, 7560));
    assert!(grid.can_reserve_cells(&path.segment1.cells, 2100, 12600));
    let r = request_admission(&mut grid, path, 1, Velocity::Fast, 0, 60);
    assert_eq!(r, (true, Velocity::Slow));
    assert_eq!(total(&grid), 151);
    for row in 0..30 {
        for col in 0..30 {
            let held = grid.reservations(col, row);
            let expected = if (col, row) == (22, 10) {
                vec![slot(1000, 2000, 99), slot(2100, 12600, 1)]
            } else if (20..25).contains(&col) {
                vec![slot(2100, 12600, 1)]
            } else {
                Vec::new()
            };
            assert_eq!(held, expected, "cell ({}, {})", col, row);
        }
    }
}

#[test]
fn denied_at_every_speed_books_nothing() {
    let cache = PathCache::initialize_path_cache();
    let path = cache.get(Direction::North, Route::Straight);
    let mut grid = ReservationGrid::new(30, 30);
    grid.reserve_cells_for_vehicle(99, &vec![(24, 29)], 0, 1_000_000);
    for speed in [Velocity::Fast, Velocity::Medium, Velocity::Slow, Velocity::Stopped] {
        let r = request_admission(&mut grid, path, 1, speed, 0, 60);
        assert_eq!(r, (false, Velocity::Stopped));
        assert_eq!(total(&grid), 1);
        assert_eq!(grid.reservations(24, 29), vec![slot(0, 1_000_000, 99)]);
    }
}

#[test]
fn second_stretch_denied_means_nothing_booked() {
    let cache = PathCache::initialize_path_cache();
    let path = cache.get(Direction::North, Route::Left);
    let mut grid = ReservationGrid::new(30, 30);
    // (3, 17) lies on the second stretch only
    assert!(!path.segment1.cells.contains(&(3, 17)));
    assert!(path.segment2.as_ref().map_or(false, |s| s.cells.contains(&(3, 17))));
    grid.reserve_cells_for_vehicle(99, &vec![(3, 17)], 0, 1_000_000);
    // the first stretch alone would be admitted at every speed
    assert!(grid.can_reserve_cells(&path.segment1.cells, 900, 3600));
    assert!(grid.can_reserve_cells(&path.segment1.cells, 1260, 5040));
    assert!(grid.can_reserve_cells(&path.segment1.cells, 2100, 8400));
    let r = request_admission(&mut grid, path, 1, Velocity::Fast, 0, 60);
    assert_eq!(r, (false, Velocity::Stopped));
    assert_eq!(total(&grid), 1);
    for cell in &path.segment1.cells {
        assert!(grid.reservations(cell.0, cell.1).is_empty());
    }
}

#[test]
fn second_stretch_denied_at_fast_falls_through_to_medium() {
    let cache = PathCache::initialize_path_cache();
    let path = cache.get(Direction::North, Route::Left);
    let second = match &path.segment2 {
        Some(s) => s,
        None => panic!("a left turn has a second stretch"),
    };
    let mut grid = ReservationGrid::new(30, 30);
    // fast: [900, 3600) then [3600, 5850); medium: [1260, 5040) then [5040, 8190)
    grid.reserve_cells_for_vehicle(99, &vec![(3, 17)], 3600, 5000);
    let r = request_admission(&mut grid, path, 1, Velocity::Fast, 0, 60);
    assert_eq!(r, (true, Velocity::Medium));
    assert_eq!(total(&grid), 1 + 90 + 80);
    for row in 0..30 {
        for col in 0..30 {
            let cell = (col, row);
            let mut expected = Vec::new();
            if cell == (3, 17) {
                expected.push(slot(3600, 5000, 99));
            }
            if path.segment1.cells.contains(&cell) {
                expected.push(slot(1260, 5040, 1));
            }
            if second.cells.contains(&cell) {
                expected.push(slot(5040, 8190, 1));
            }
            assert_eq!(grid.reservations(col, row), expected, "cell {:?}", cell);
        }
    }
    // the corner cells are on both stretches and hold both windows
    assert_eq!(grid.reservations(15, 15), vec![slot(1260, 5040, 1), slot(5040, 8190, 1)]);
}

#[test]
fn cells_on_a_line() {
    let cells = vec![(1, 5), (2, 5), (1, 6), (2, 6), (5, 1)];
    assert_eq!(cells_on_line(&cells, 5, true), vec![(1, 5), (2, 5)]);
    assert_eq!(cells_on_line(&cells, 1, false), vec![(1, 5), (1, 6)]);
    assert_eq!(cells_on_line(&cells, 5, false), vec![(5, 1)]);
    assert!(cells_on_line(&cells, 9, true).is_empty());
}

#[test]
fn release_behind_the_trailing_edge() {
    let cache = PathCache::initialize_path_cache();
    // going north the trailing edge is the bottom: y + height = 575 is row 22
    let cells =
        calculate_cells_to_release_two_path(&cache, Direction::North, Route::Straight, 550, 505, 40, 70);
    assert_eq!(cells, vec![(20, 22), (21, 22), (22, 22), (23, 22), (24, 22)]);
    // going south it is the top
    let cells =
        calculate_cells_to_release_two_path(&cache, Direction::South, Route::Straight, 400, 505, 40, 70);
    assert_eq!(cells, vec![(5, 15), (6, 15), (7, 15), (8, 15), (9, 15)]);
    // going east it is the left edge
    let cells =
        calculate_cells_to_release_two_path(&cache, Direction::East, Route::Straight, 432, 565, 70, 40);
    assert_eq!(cells, vec![(8, 20), (8, 21), (8, 22), (8, 23), (8, 24)]);
    // going west it is the right edge
    let cells =
        calculate_cells_to_release_two_path(&cache, Direction::West, Route::Straight, 400, 415, 70, 40);
    assert_eq!(cells, vec![(12, 5), (12, 6), (12, 7), (12, 8), (12, 9)]);
    // an edge outside the intersection releases nothing
    for (vy, vh) in [(600, 70), (200, 70), (581, 70)] {
        let cells = calculate_cells_to_release_two_path(
            &cache,
            Direction::North,
            Route::Straight,
            550,
            vy,
            40,
            vh,
        );
        assert!(cells.is_empty(), "bottom at {}", vy + vh);
    }
    // on the far border the row is 30, which no cell has
    let cells =
        calculate_cells_to_release_two_path(&cache, Direction::North, Route::Straight, 550, 580, 40, 70);
    assert!(cells.is_empty());
    // only cells of the first stretch on that line are given back
    let cells =
        calculate_cells_to_release_two_path(&cache, Direction::North, Route::Left, 500, 405, 40, 70);
    assert_eq!(cells, vec![(15, 12), (16, 12), (17, 12), (18, 12), (19, 12)]);
    let cells =
        calculate_cells_to_release_two_path(&cache, Direction::North, Route::Left, 500, 395, 40, 70);
    assert!(cells.is_empty());
}

#[test]
fn far_vehicle_has_its_flags_cleared() {
    let cache = PathCache::initialize_path_cache();
    let mut grid = ReservationGrid::new(30, 30);
    for (requested, permission) in [(false, false), (true, false), (false, true), (true, true)] {
        let mut v = vehicle(1, Direction::North, Route::Straight);
        v.position = (550, 766); // middle at 801: 151 from the edge
        v.requested_intersection = requested;
        v.intersection_permission = permission;
        assert_eq!(v.distance_to_intersection(), 151);
        let u = negotiate_vehicle(&mut grid, &cache, &v, 0, Velocity::Medium, 0);
        assert!(!u.requested_intersection);
        assert!(!u.intersection_permission);
        assert_eq!(u.final_speed, Velocity::Medium);
        assert!(u.cells_to_release.is_empty());
        assert_eq!(u.index, 0);
        assert_eq!(u.vehicle_id, 1);
        assert_eq!(total(&grid), 0);
    }
    // at the threshold itself nothing is cleared
    let mut v = vehicle(1, Direction::North, Route::Straight);
    v.position = (550, 765);
    v.requested_intersection = true;
    v.intersection_permission = true;
    assert_eq!(v.distance_to_intersection(), 150);
    let u = negotiate_vehicle(&mut grid, &cache, &v, 0, Velocity::Fast, 0);
    assert!(u.requested_intersection && u.intersection_permission);
    assert_eq!(u.final_speed, Velocity::Fast);
}

#[test]
fn approaching_vehicle_asks_once_within_reach() {
    let cache = PathCache::initialize_path_cache();
    let mut grid = ReservationGrid::new(30, 30);
    let mut v = vehicle(1, Direction::North, Route::Straight);
    v.position = (550, 676); // middle at 711: 61 away
    let u = negotiate_vehicle(&mut grid, &cache, &v, 0, Velocity::Fast, 0);
    assert!(!u.requested_intersection && !u.intersection_permission);
    assert_eq!(total(&grid), 0);
    v.position = (550, 675); // 60 away
    let u = negotiate_vehicle(&mut grid, &cache, &v, 0, Velocity::Fast, 0);
    assert!(u.requested_intersection && u.intersection_permission);
    assert_eq!(u.final_speed, Velocity::Fast);
    assert_eq!(total(&grid), 150);
    assert_eq!(grid.reservations(20, 0), vec![slot(900, 5400, 1)]);
    // with the permission it does not ask again
    v.requested_intersection = true;
    v.intersection_permission = true;
    let u = negotiate_vehicle(&mut grid, &cache, &v, 0, Velocity::Fast, 105);
    assert!(u.requested_intersection && u.intersection_permission);
    assert_eq!(u.final_speed, Velocity::Fast);
    assert_eq!(total(&grid), 150);
}

#[test]
fn traffic_and_intersection_speeds_combine_to_the_slower() {
    let cache = PathCache::initialize_path_cache();
    let all = [Velocity::Stopped, Velocity::Slow, Velocity::Medium, Velocity::Fast];
    // at 55 px: fast [825, 5325), medium [1155, 7455), slow [1925, 12425);
    // what another vehicle holds decides the speed that is granted
    let blockers: [(Option<(i64, i64)>, Velocity); 4] = [
        (None, Velocity::Fast),
        (Some((900, 1100)), Velocity::Medium),
        (Some((900, 1900)), Velocity::Slow),
        (Some((0, 1_000_000)), Velocity::Stopped),
    ];
    let mut seen = 0;
    for traffic in all {
        for (blocker, allowed) in blockers {
            let mut grid = ReservationGrid::new(30, 30);
            if let Some((start, end)) = blocker {
                grid.reserve_cells_for_vehicle(99, &vec![(20, 0)], start, end);
            }
            let mut v = vehicle(1, Direction::North, Route::Straight);
            v.position = (550, 670);
            let u = negotiate_vehicle(&mut grid, &cache, &v, 0, traffic, 0);
            assert_eq!(u.final_speed, traffic.slowest(allowed), "{:?} {:?}", traffic, allowed);
            assert!(u.requested_intersection);
            assert_eq!(u.intersection_permission, allowed != Velocity::Stopped);
            seen += 1;
        }
    }
    assert_eq!(seen, 16);
}

#[test]
fn inside_and_past_vehicles_drive_fast_without_asking() {
    let cache = PathCache::initialize_path_cache();
    let mut grid = ReservationGrid::new(30, 30);
    grid.reserve_cells_for_vehicle(99, &vec![(20, 0)], 0, 1_000_000);
    let mut v = vehicle(1, Direction::North, Route::Straight);
    v.position = (550, 500);
    let u = negotiate_vehicle(&mut grid, &cache, &v, 0, Velocity::Medium, 0);
    assert_eq!(u.final_speed, Velocity::Medium);
    assert!(!u.requested_intersection && !u.intersection_permission);
    assert_eq!(u.cells_to_release, vec![(20, 22), (21, 22), (22, 22), (23, 22), (24, 22)]);
    // past the intersection the traffic does not count either
    v.position = (550, 200);
    let u = negotiate_vehicle(&mut grid, &cache, &v, 0, Velocity::Stopped, 0);
    assert_eq!(u.final_speed, Velocity::Fast);
    assert_eq!(total(&grid), 1);
}

#[test]
fn waiting_at_the_entrance_tries_fast_only() {
    let cache = PathCache::initialize_path_cache();
    let mut grid = ReservationGrid::new(30, 30);
    // a short vehicle can wait within 10 px of the edge without touching it
    let mut v = vehicle(1, Direction::North, Route::Straight);
    v.height = 10;
    v.position = (550, 655); // middle at 660
    v.current_speed = Velocity::Medium;
    v.requested_intersection = true;
    assert_eq!(v.distance_to_intersection(), 10);
    assert!(!v.is_in_intersection());
    // [100, 200) is inside the fast window [150, 4650) and before the medium
    // one [210, 6510) and the slow one [350, 10850)
    grid.reserve_cells_for_vehicle(99, &vec![(22, 29)], 100, 200);
    let path = cache.get(Direction::North, Route::Straight);
    assert!(!grid.can_reserve_cells(&path.segment1.cells, 150, 4650));
    assert!(grid.can_reserve_cells(&path.segment1.cells, 210, 6510));
    assert!(grid.can_reserve_cells(&path.segment1.cells, 350, 10850));
    let u = negotiate_vehicle(&mut grid, &cache, &v, 0, Velocity::Fast, 0);
    assert!(u.requested_intersection);
    assert!(!u.intersection_permission);
    assert_eq!(u.final_speed, Velocity::Stopped);
    assert_eq!(total(&grid), 1);
    // it asks again on every step, and is granted fast once fast is free
    v.current_speed = Velocity::Stopped;
    v.intersection_permission = false;
    let u = negotiate_vehicle(&mut grid, &cache, &v, 0, Velocity::Fast, 0);
    assert!(!u.intersection_permission);
    assert_eq!(total(&grid), 1);
    let u = negotiate_vehicle(&mut grid, &cache, &v, 0, Velocity::Fast, 105);
    assert!(u.requested_intersection && u.intersection_permission);
    assert_eq!(u.final_speed, Velocity::Fast);
    assert_eq!(grid.reservations(20, 0), vec![slot(255, 4755, 1)]);
    assert_eq!(total(&grid), 151);
}

#[test]
fn beyond_the_entrance_a_moving_vehicle_tries_all_three() {
    let cache = PathCache::initialize_path_cache();
    let mut grid = ReservationGrid::new(30, 30);
    let mut v = vehicle(1, Direction::North, Route::Straight);
    v.height = 10;
    v.position = (550, 656); // middle at 661: 11 away
    v.current_speed = Velocity::Medium;
    assert_eq!(v.distance_to_intersection(), 11);
    // fast [165, 4665) and medium [231, 6531) are blocked, slow [385, 10885) is free
    grid.reserve_cells_for_vehicle(99, &vec![(22, 29)], 100, 300);
    // a standing vehicle at the same place tries fast only
    let mut standing = v;
    standing.current_speed = Velocity::Stopped;
    let u = negotiate_vehicle(&mut grid, &cache, &standing, 0, Velocity::Fast, 0);
    assert!(!u.intersection_permission);
    assert_eq!(u.final_speed, Velocity::Stopped);
    assert_eq!(total(&grid), 1);
    let u = negotiate_vehicle(&mut grid, &cache, &v, 0, Velocity::Fast, 0);
    assert!(u.intersection_permission);
    assert_eq!(u.final_speed, Velocity::Slow);
    assert_eq!(grid.reservations(20, 0), vec![slot(385, 10885, 1)]);
}

#[test]
fn cells_behind_a_trailing_edge() {
    let cells = vec![(1, 5), (2, 5), (1, 6), (2, 6), (5, 1)];
    // going north the edge is the bottom: 405 is row 5
    assert_eq!(cells_behind(&cells, Direction::North, 0, 385, 40, 20), vec![(1, 5), (2, 5)]);
    // going south it is the top
    assert_eq!(cells_behind(&cells, Direction::South, 0, 415, 40, 20), vec![(1, 6), (2, 6)]);
    // going east the left edge, going west the right one
    assert_eq!(cells_behind(&cells, Direction::East, 365, 0, 40, 20), vec![(1, 5), (1, 6)]);
    assert_eq!(cells_behind(&cells, Direction::West, 365, 0, 40, 20), vec![(5, 1)]);
    assert!(cells_behind(&cells, Direction::East, 349, 0, 40, 20).is_empty());
    assert!(cells_behind(&cells, Direction::East, 651, 0, 40, 20).is_empty());
}

#[test]
fn after_the_turn_the_second_stretch_is_given_back() {
    let cache = PathCache::initialize_path_cache();
    // north, turning right, now going east: the second stretch of that path
    // covers rows 10 to 14 of columns 25 to 29
    let cells = calculate_cells_to_release_after_turn(
        &cache,
        Direction::East,
        Route::Right,
        572,
        590,
        70,
        40,
    );
    assert!(cells.is_empty()); // the left edge is in column 22
    let cells = calculate_cells_to_release_after_turn(
        &cache,
        Direction::East,
        Route::Right,
        614,
        590,
        70,
        40,
    );
    assert_eq!(cells, vec![(26, 10), (26, 11), (26, 12), (26, 13), (26, 14)]);
    // north, turning left, now going west: rows 15 to 19 of columns 0 to 15
    let cells = calculate_cells_to_release_after_turn(
        &cache,
        Direction::West,
        Route::Left,
        400,
        450,
        70,
        40,
    );
    assert_eq!(cells, vec![(12, 15), (12, 16), (12, 17), (12, 18), (12, 19)]);
    // going straight there is no second stretch
    let cells = calculate_cells_to_release_after_turn(
        &cache,
        Direction::North,
        Route::Straight,
        550,
        505,
        40,
        70,
    );
    assert!(cells.is_empty());
}

#[test]
fn a_turned_vehicle_gives_back_cells_of_the_path_it_entered_by() {
    let cache = PathCache::initialize_path_cache();
    let mut grid = ReservationGrid::new(30, 30);
    // entered going north, turned right at (600, 610), now going east
    let mut v = vehicle(1, Direction::North, Route::Right);
    v.position = (594, 575); // middle (614, 610): 14 from the turn point
    v.update();
    assert!(v.has_turned);
    assert_eq!(v.direction, Direction::East);
    v.position = (629, 575); // the box is (614, 590, 70, 40)
    assert_eq!(v.get_visual_bounds(), (614, 590, 70, 40));
    let u = negotiate_vehicle(&mut grid, &cache, &v, 0, Velocity::Fast, 0);
    assert_eq!(u.cells_to_release, vec![(26, 10), (26, 11), (26, 12), (26, 13), (26, 14)]);
    assert_eq!(u.final_speed, Velocity::Fast);
    // before the turn it is the first stretch: columns 25 to 29 from row 26 down
    let mut w = vehicle(2, Direction::North, Route::Right);
    w.position = (600, 565); // the bottom is at 635, in row 28
    assert!(!w.has_turned);
    let u = negotiate_vehicle(&mut grid, &cache, &w, 0, Velocity::Fast, 0);
    assert_eq!(u.cells_to_release, vec![(25, 28), (26, 28), (27, 28), (28, 28), (29, 28)]);
    // a vehicle that goes straight keeps to its one stretch
    let mut s = vehicle(3, Direction::North, Route::Straight);
    s.has_turned = true;
    s.position = (550, 505);
    let u = negotiate_vehicle(&mut grid, &cache, &s, 0, Velocity::Fast, 0);
    assert_eq!(u.cells_to_release, vec![(20, 22), (21, 22), (22, 22), (23, 22), (24, 22)]);
}
