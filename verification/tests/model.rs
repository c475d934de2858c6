// The library counts in whole pixels and whole time units. These tests hold
// its results against the same formulas worked out in floating point.

use smart_road::geometry::cell_coordinate;
use smart_road::route::{get_spawn_position, get_turn_position, Direction, Route};
use smart_road::traffic::traffic_speed;
use smart_road::vehicle::Vehicle;
use smart_road::velocities::{calculate_time_with_speed, Velocity, TIME_UNITS_PER_SECOND};

const DIRECTIONS: [Direction; 4] =
    [Direction::North, Direction::South, Direction::East, Direction::West];

fn vehicle(id: usize, direction: Direction, route: Route) -> Vehicle {
    Vehicle::new(
        id,
        1,
        route,
        direction,
        get_spawn_position(direction, route),
        get_turn_position(direction, route),
    )
}

fn float_bounds(v: &Vehicle) -> (f32, f32, f32, f32) {
    let (x, y) = (v.position.0 as f32, v.position.1 as f32);
    let (w, h) = (v.width as f32, v.height as f32);
    match v.rotation % 360 {
        90 | 270 => {
            let cx = x + w / 2.0;
            let cy = y + h / 2.0;
            (cx - h / 2.0, cy - w / 2.0, h, w)
        }
        _ => (x, y, w, h),
    }
}

#[test]
fn cell_index_is_the_truncated_quotient() {
    for px in -200i64..=1200 {
        let expected = ((px as f32 - 350.0) / 10.0) as usize;
        assert_eq!(cell_coordinate(px), expected, "pixel {}", px);
    }
}

#[test]
fn boxes_and_distances_agree_with_the_float_formulas() {
    for d in DIRECTIONS {
        let mut v = vehicle(1, d, Route::Straight);
        for x in (0..=1000).step_by(37) {
            for y in (0..=1000).step_by(41) {
                v.position = (x, y);
                let (fx, fy, fw, fh) = float_bounds(&v);
                let b = v.get_visual_bounds();
                assert_eq!((b.0 as f32, b.1 as f32, b.2 as f32, b.3 as f32), (fx, fy, fw, fh));
                let (cx, cy) = (fx + fw / 2.0, fy + fh / 2.0);
                let c = v.get_visual_center();
                assert_eq!((c.0 as f32, c.1 as f32), (cx, cy));
                let distance = match d {
                    Direction::North => (cy - 650.0).max(0.0),
                    Direction::South => (350.0 - cy).max(0.0),
                    Direction::East => (350.0 - cx).max(0.0),
                    Direction::West => (cx - 650.0).max(0.0),
                };
                assert_eq!(v.distance_to_intersection() as f32, distance);
                let inside =
                    !(fx + fw < 350.0 || fx > 650.0 || fy + fh < 350.0 || fy > 650.0);
                assert_eq!(v.is_in_intersection(), inside);
                let past = match d {
                    Direction::North => fy + fh < 350.0,
                    Direction::South => fy > 650.0,
                    Direction::East => fx > 650.0,
                    Direction::West => fx + fw < 350.0,
                };
                assert_eq!(v.is_past_intersection(), past);
            }
        }
    }
}

#[test]
fn turn_radius_agrees_with_the_euclidean_distance() {
    for dx in -40i64..=40 {
        for dy in -40i64..=40 {
            let mut v = vehicle(1, Direction::North, Route::Right);
            // the image's middle is (600 + dx, 610 + dy)
            v.position = (600 + dx - 20, 610 + dy - 35);
            v.current_speed = Velocity::Stopped;
            v.update();
            let distance = ((dx * dx + dy * dy) as f32).sqrt();
            assert_eq!(v.has_turned, distance <= 25.0, "dx {} dy {}", dx, dy);
        }
    }
}

#[test]
fn following_thresholds_agree_with_the_percentages() {
    let mut lead = vehicle(1, Direction::East, Route::Straight);
    lead.position = (300, 550);
    for gap in 1i64..=200 {
        let mut me = vehicle(2, Direction::East, Route::Straight);
        me.position = (300 - gap, 550);
        let required: f32 = 70.0 + 50.0;
        let closest = gap as f32;
        let expected = if closest < required * 0.7 {
            Velocity::Slow
        } else if closest < required * 0.8 {
            Velocity::Medium
        } else {
            Velocity::Fast
        };
        assert_eq!(traffic_speed(&vec![lead, me], 1), expected, "gap {}", gap);
    }
}

#[test]
fn travel_times_agree_with_distance_over_speed() {
    for speed in [Velocity::Slow, Velocity::Medium, Velocity::Fast] {
        for distance in 0i64..=400 {
            let seconds = distance as f64 / speed.pixels_per_frame() as f64 / 60.0;
            let units = calculate_time_with_speed(distance, speed);
            assert!((units as f64 / TIME_UNITS_PER_SECOND as f64 - seconds).abs() < 1e-9);
        }
    }
}
