use smart_road::route::{get_spawn_position, get_turn_position, Direction, Route};
use smart_road::vehicle::{heading, Vehicle};
use smart_road::velocities::Velocity;

fn fresh(id: usize, direction: Direction, route: Route) -> Vehicle {
    Vehicle::new(
        id,
        1,
        route,
        direction,
        get_spawn_position(direction, route),
        get_turn_position(direction, route),
    )
}

#[test]
fn new_vehicle_fields() {
    let v = Vehicle::new(9, 4, Route::Left, Direction::East, (0, 500), (550, 535));
    assert_eq!(v.id, 9);
    assert_eq!(v.sprite, 4);
    assert_eq!(v.route, Route::Left);
    assert_eq!(v.direction, Direction::East);
    assert_eq!(v.current_speed, Velocity::Fast);
    assert_eq!(v.width, 40);
    assert_eq!(v.height, 70);
    assert_eq!(v.safety_distance, 50);
    assert_eq!(v.position, (0, 500));
    assert_eq!(v.turn_position, (550, 535));
    assert_eq!(v.rotation, 90);
    assert!(!v.has_turned);
    assert!(!v.requested_intersection);
    assert!(!v.intersection_permission);
}

#[test]
fn headings() {
    assert_eq!(heading(Direction::North), 0);
    assert_eq!(heading(Direction::South), 180);
    assert_eq!(heading(Direction::East), 90);
    assert_eq!(heading(Direction::West), 270);
}

#[test]
fn update_moves_along_the_direction() {
    let mut n = fresh(1, Direction::North, Route::Straight);
    n.update();
    assert_eq!(n.position, (550, 973));
    let mut s = fresh(2, Direction::South, Route::Straight);
    s.current_speed = Velocity::Medium;
    s.update();
    assert_eq!(s.position, (400, 5));
    let mut e = fresh(3, Direction::East, Route::Straight);
    e.current_speed = Velocity::Slow;
    e.update();
    assert_eq!(e.position, (3, 550));
    let mut w = fresh(4, Direction::West, Route::Straight);
    w.current_speed = Velocity::Stopped;
    w.update();
    assert_eq!(w.position, (980, 400));
    assert!(!n.has_turned && !s.has_turned && !e.has_turned && !w.has_turned);
}

#[test]
fn update_turns_once_at_the_turn_point() {
    // North, right turn at (600, 610): the image's middle is the corner plus (20, 35)
    let mut v = fresh(1, Direction::North, Route::Right);
    v.position = (580, 600); // middle (600, 635): exactly 25 away
    v.update();
    assert!(v.has_turned);
    assert_eq!(v.direction, Direction::East);
    assert_eq!(v.rotation, 90);
    assert_eq!(v.position, (587, 600));
    // a second update never turns again
    v.position = (580, 575);
    v.update();
    assert_eq!(v.direction, Direction::East);
    assert_eq!(v.position, (587, 575));
}

#[test]
fn update_does_not_turn_outside_the_radius() {
    let mut v = fresh(1, Direction::North, Route::Right);
    v.position = (580, 601); // middle (600, 636): 26 away
    v.update();
    assert!(!v.has_turned);
    assert_eq!(v.direction, Direction::North);
    assert_eq!(v.position, (580, 594));
    // diagonal: dx = 15, dy = 20 is 25 away; dx = 15, dy = 21 is not
    let mut near = fresh(2, Direction::North, Route::Right);
    near.position = (595, 595); // middle (615, 630)
    near.update();
    assert!(near.has_turned);
    let mut off = fresh(3, Direction::North, Route::Right);
    off.position = (595, 596); // middle (615, 631)
    off.update();
    assert!(!off.has_turned);
}

#[test]
fn execute_turn_table() {
    let cases = [
        (Direction::North, Route::Right, Direction::East, 90),
        (Direction::South, Route::Right, Direction::West, 270),
        (Direction::East, Route::Right, Direction::South, 180),
        (Direction::West, Route::Right, Direction::North, 0),
        (Direction::North, Route::Left, Direction::West, 270),
        (Direction::South, Route::Left, Direction::East, 90),
        (Direction::East, Route::Left, Direction::North, 0),
        (Direction::West, Route::Left, Direction::South, 180),
    ];
    for (d, r, nd, rot) in cases {
        let mut v = fresh(1, d, r);
        v.execute_turn();
        assert_eq!(v.direction, nd);
        assert_eq!(v.rotation, rot);
        assert!(!v.has_turned);
    }
    let mut s = fresh(1, Direction::West, Route::Straight);
    s.execute_turn();
    assert_eq!(s.direction, Direction::West);
    assert_eq!(s.rotation, 270);
}

#[test]
fn visual_bounds_upright_and_sideways() {
    let n = fresh(1, Direction::North, Route::Straight);
    assert_eq!(n.get_visual_bounds(), (550, 980, 40, 70));
    assert_eq!(n.get_visual_center(), (570, 1015));
    let s = fresh(1, Direction::South, Route::Straight);
    assert_eq!(s.get_visual_bounds(), (400, 0, 40, 70));
    let e = fresh(1, Direction::East, Route::Straight);
    // middle (20, 585); the box is 70 wide and 40 high about it
    assert_eq!(e.get_visual_bounds(), (-15, 565, 70, 40));
    assert_eq!(e.get_visual_center(), (20, 585));
    let w = fresh(1, Direction::West, Route::Straight);
    assert_eq!(w.get_visual_bounds(), (965, 415, 70, 40));
    let mut odd = fresh(1, Direction::North, Route::Straight);
    odd.rotation = 45;
    assert_eq!(odd.get_visual_bounds(), (550, 980, 40, 70));
    odd.rotation = 450;
    assert_eq!(odd.get_visual_bounds(), (535, 995, 70, 40));
}

#[test]
fn distance_to_intersection_by_direction() {
    let n = fresh(1, Direction::North, Route::Straight);
    assert_eq!(n.distance_to_intersection(), 1015 - 650);
    let s = fresh(1, Direction::South, Route::Straight);
    assert_eq!(s.distance_to_intersection(), 350 - 35);
    let e = fresh(1, Direction::East, Route::Straight);
    assert_eq!(e.distance_to_intersection(), 350 - 20);
    let w = fresh(1, Direction::West, Route::Straight);
    assert_eq!(w.distance_to_intersection(), 1000 - 650);
    let mut inside = fresh(1, Direction::North, Route::Straight);
    inside.position = (550, 500);
    assert_eq!(inside.distance_to_intersection(), 0);
    let mut edge = fresh(1, Direction::North, Route::Straight);
    edge.position = (550, 615); // middle at 650
    assert_eq!(edge.distance_to_intersection(), 0);
    edge.position = (550, 616);
    assert_eq!(edge.distance_to_intersection(), 1);
}

#[test]
fn in_and_past_the_intersection() {
    let mut v = fresh(1, Direction::North, Route::Straight);
    assert!(!v.is_in_intersection());
    assert!(!v.is_past_intersection());
    v.position = (550, 650); // top edge on the border
    assert!(v.is_in_intersection());
    v.position = (550, 651);
    assert!(!v.is_in_intersection());
    v.position = (550, 280); // bottom edge at 350: still touching
    assert!(v.is_in_intersection());
    assert!(!v.is_past_intersection());
    v.position = (550, 279);
    assert!(!v.is_in_intersection());
    assert!(v.is_past_intersection());
    let mut e = fresh(2, Direction::East, Route::Straight);
    e.position = (665, 550); // box starts at 650
    assert!(e.is_in_intersection());
    assert!(!e.is_past_intersection());
    e.position = (666, 550);
    assert!(e.is_past_intersection());
    let mut s = fresh(3, Direction::South, Route::Straight);
    s.position = (400, 651);
    assert!(s.is_past_intersection());
    let mut w = fresh(4, Direction::West, Route::Straight);
    w.position = (264, 400); // box is [249, 319]
    assert!(w.is_past_intersection());
    w.position = (296, 400); // box is [281, 351]
    assert!(!w.is_past_intersection());
}

#[test]
fn lanes_and_who_is_ahead() {
    let mut a = fresh(1, Direction::North, Route::Straight);
    let mut b = fresh(2, Direction::North, Route::Straight);
    a.position = (550, 800);
    b.position = (550, 900);
    assert!(a.is_in_same_lane(&b));
    assert!(b.is_ahead_of_me(&a));
    assert!(!a.is_ahead_of_me(&b));
    assert_eq!(a.distance_to_vehicle(&b), 100);
    assert_eq!(b.distance_to_vehicle(&a), 100);
    let c = fresh(3, Direction::North, Route::Left);
    assert!(!a.is_in_same_lane(&c));
    assert!(!b.is_ahead_of_me(&c));
    let d = fresh(4, Direction::South, Route::Straight);
    assert!(!a.is_in_same_lane(&d));
    // same place: nobody is ahead
    let twin = a;
    assert!(!a.is_ahead_of_me(&twin));
    let mut e1 = fresh(5, Direction::East, Route::Right);
    let mut e2 = fresh(6, Direction::East, Route::Right);
    e1.position = (100, 600);
    e2.position = (30, 600);
    assert!(e2.is_ahead_of_me(&e1));
    assert!(!e1.is_ahead_of_me(&e2));
    assert_eq!(e2.distance_to_vehicle(&e1), 70);
}

#[test]
fn following_distance_and_exit() {
    let a = fresh(1, Direction::North, Route::Right);
    let b = fresh(2, Direction::North, Route::Right);
    assert_eq!(a.get_safe_following_distance(&b), 120);
    let mut c = a;
    c.safety_distance = 10;
    assert_eq!(c.get_safe_following_distance(&b), 80);
    assert_eq!(a.calculate_exit_position(), (1000, 610));
    assert_eq!(fresh(3, Direction::North, Route::Left).calculate_exit_position(), (0, 470));
    assert_eq!(fresh(3, Direction::East, Route::Left).calculate_exit_position(), (550, 0));
    assert_eq!(fresh(3, Direction::East, Route::Right).calculate_exit_position(), (400, 1000));
    assert_eq!(fresh(3, Direction::South, Route::Straight).calculate_exit_position(), (0, 1000));
}

#[test]
fn outside_the_canvas() {
    // upright, 40 wide and 70 high
    let mut v = fresh(1, Direction::North, Route::Straight);
    assert!(!v.is_outside_canvas());
    v.position = (0, 0);
    assert!(!v.is_outside_canvas());
    v.position = (1000, 1000);
    assert!(!v.is_outside_canvas());
    // the corner is off the field, the box still covers y up to 69
    v.position = (550, -1);
    assert!(!v.is_outside_canvas());
    v.position = (550, -70);
    assert!(!v.is_outside_canvas());
    v.position = (550, -71);
    assert!(v.is_outside_canvas());
    v.position = (-40, 500);
    assert!(!v.is_outside_canvas());
    v.position = (-41, 500);
    assert!(v.is_outside_canvas());
    v.position = (1001, 500);
    assert!(v.is_outside_canvas());
    v.position = (500, 1001);
    assert!(v.is_outside_canvas());
    // on its side the box is 70 wide and 40 high about the same middle:
    // at (x, y) it covers x - 15 .. x + 55 and y + 15 .. y + 55
    let mut e = fresh(2, Direction::East, Route::Straight);
    e.position = (-55, 550);
    assert!(!e.is_outside_canvas());
    e.position = (-56, 550);
    assert!(e.is_outside_canvas());
    e.position = (1015, 550);
    assert!(!e.is_outside_canvas());
    e.position = (1016, 550);
    assert!(e.is_outside_canvas());
    e.position = (500, -55);
    assert!(!e.is_outside_canvas());
    e.position = (500, -56);
    assert!(e.is_outside_canvas());
    e.position = (500, 985);
    assert!(!e.is_outside_canvas());
    e.position = (500, 986);
    assert!(e.is_outside_canvas());
}

#[test]
fn lengths_in_range() {
    let mut v = fresh(1, Direction::North, Route::Straight);
    assert!(v.is_wf());
    v.position = (4_000_000, -4_000_000);
    assert!(v.is_wf());
    v.position = (4_000_001, 0);
    assert!(!v.is_wf());
    v.position = (0, 0);
    v.height = 1_000_001;
    assert!(!v.is_wf());
    v.height = 70;
    v.turn_position = (-1_000_001, 0);
    assert!(!v.is_wf());
}
