use smart_road::route::{
    direction_after_turn, direction_before_turn, direction_from_draw, get_random_direction, get_random_route,
    get_random_sprite, get_spawn_position, get_turn_position, route_from_draw, Direction, Route,
    SPRITE_COUNT,
};

#[test]
fn spawn_positions() {
    assert_eq!(get_spawn_position(Direction::North, Route::Right), (600, 980));
    assert_eq!(get_spawn_position(Direction::North, Route::Straight), (550, 980));
    assert_eq!(get_spawn_position(Direction::North, Route::Left), (500, 980));
    assert_eq!(get_spawn_position(Direction::South, Route::Right), (350, 0));
    assert_eq!(get_spawn_position(Direction::South, Route::Straight), (400, 0));
    assert_eq!(get_spawn_position(Direction::South, Route::Left), (450, 0));
    assert_eq!(get_spawn_position(Direction::East, Route::Right), (0, 600));
    assert_eq!(get_spawn_position(Direction::East, Route::Straight), (0, 550));
    assert_eq!(get_spawn_position(Direction::East, Route::Left), (0, 500));
    assert_eq!(get_spawn_position(Direction::West, Route::Right), (980, 350));
    assert_eq!(get_spawn_position(Direction::West, Route::Straight), (980, 400));
    assert_eq!(get_spawn_position(Direction::West, Route::Left), (980, 450));
}

#[test]
fn turn_positions() {
    for d in [Direction::North, Direction::South, Direction::East, Direction::West] {
        assert_eq!(get_turn_position(d, Route::Straight), (0, 0));
    }
    assert_eq!(get_turn_position(Direction::North, Route::Right), (600, 610));
    assert_eq!(get_turn_position(Direction::South, Route::Right), (350, 390));
    assert_eq!(get_turn_position(Direction::East, Route::Right), (400, 635));
    assert_eq!(get_turn_position(Direction::West, Route::Right), (600, 385));
    assert_eq!(get_turn_position(Direction::North, Route::Left), (500, 470));
    assert_eq!(get_turn_position(Direction::South, Route::Left), (450, 540));
    assert_eq!(get_turn_position(Direction::East, Route::Left), (550, 535));
    assert_eq!(get_turn_position(Direction::West, Route::Left), (450, 485));
}

#[test]
fn directions_after_the_turn() {
    assert_eq!(direction_after_turn(Direction::North, Route::Right), Direction::East);
    assert_eq!(direction_after_turn(Direction::North, Route::Left), Direction::West);
    assert_eq!(direction_after_turn(Direction::South, Route::Right), Direction::West);
    assert_eq!(direction_after_turn(Direction::South, Route::Left), Direction::East);
    assert_eq!(direction_after_turn(Direction::East, Route::Right), Direction::South);
    assert_eq!(direction_after_turn(Direction::East, Route::Left), Direction::North);
    assert_eq!(direction_after_turn(Direction::West, Route::Right), Direction::North);
    assert_eq!(direction_after_turn(Direction::West, Route::Left), Direction::South);
    for d in [Direction::North, Direction::South, Direction::East, Direction::West] {
        assert_eq!(direction_after_turn(d, Route::Straight), d);
    }
}

#[test]
fn draws_map_to_routes_and_directions() {
    assert_eq!(route_from_draw(0), Route::Right);
    assert_eq!(route_from_draw(1), Route::Straight);
    assert_eq!(route_from_draw(2), Route::Left);
    assert_eq!(route_from_draw(77), Route::Left);
    assert_eq!(direction_from_draw(0), Direction::East);
    assert_eq!(direction_from_draw(1), Direction::North);
    assert_eq!(direction_from_draw(2), Direction::South);
    assert_eq!(direction_from_draw(3), Direction::West);
    assert_eq!(direction_from_draw(9), Direction::West);
}

#[test]
fn random_sprite_is_in_range_and_varies() {
    let mut seen = [false; 8];
    for _ in 0..400 {
        let s = get_random_sprite();
        assert!(1 <= s && s <= SPRITE_COUNT);
        seen[s as usize] = true;
    }
    let distinct = seen.iter().filter(|b| **b).count();
    assert!(distinct >= 2, "400 draws gave one value only");
}

#[test]
fn random_route_and_direction_vary() {
    let mut routes = [0usize; 3];
    let mut directions = [0usize; 4];
    for _ in 0..600 {
        match get_random_route() {
            Route::Right => routes[0] += 1,
            Route::Straight => routes[1] += 1,
            Route::Left => routes[2] += 1,
        }
        match get_random_direction() {
            Direction::East => directions[0] += 1,
            Direction::North => directions[1] += 1,
            Direction::South => directions[2] += 1,
            Direction::West => directions[3] += 1,
        }
    }
    assert!(routes.iter().all(|n| *n > 0), "{:?}", routes);
    assert!(directions.iter().all(|n| *n > 0), "{:?}", directions);
}

#[test]
fn directions_before_the_turn() {
    assert_eq!(direction_before_turn(Direction::East, Route::Right), Direction::North);
    assert_eq!(direction_before_turn(Direction::West, Route::Left), Direction::North);
    assert_eq!(direction_before_turn(Direction::West, Route::Right), Direction::South);
    assert_eq!(direction_before_turn(Direction::East, Route::Left), Direction::South);
    for d in [Direction::North, Direction::South, Direction::East, Direction::West] {
        for r in [Route::Right, Route::Left, Route::Straight] {
            assert_eq!(direction_before_turn(direction_after_turn(d, r), r), d);
            assert_eq!(direction_after_turn(direction_before_turn(d, r), r), d);
        }
    }
}
