//! The following model: the speed that the vehicles ahead in its lane
//! allow a vehicle.

use crate::vehicle::Vehicle;
use crate::velocities::Velocity;
use vstd::prelude::*;

verus! {

/// Whether vehicle `j` drives ahead of vehicle `i` in its lane and closer to
/// it than `tenths` tenths of the gap that vehicle `i` wants to keep.
pub open spec fn crowds(vehicles: Seq<Vehicle>, i: int, j: int, tenths: int) -> bool {
    &&& j != i
    &&& vehicles[i].spec_is_ahead_of_me(&vehicles[j])
    &&& 10 * vehicles[i].spec_distance_to_vehicle(&vehicles[j]) < tenths
        * vehicles[i].spec_safe_following_distance()
}

/// The speed that the traffic ahead allows vehicle `i`: `Fast` once it is
/// past the intersection; otherwise `Slow` if a vehicle ahead in its lane is
/// closer than 70% of the gap it wants, `Medium` if one is closer than 80%,
/// and `Fast` if none is.
pub open spec fn spec_traffic_speed(vehicles: Seq<Vehicle>, i: int) -> Velocity {
    if vehicles[i].spec_is_past_intersection() {
        Velocity::Fast
    } else if exists|j: int| 0 <= j < vehicles.len() && #[trigger] crowds(vehicles, i, j, 7) {
        Velocity::Slow
    } else if exists|j: int| 0 <= j < vehicles.len() && #[trigger] crowds(vehicles, i, j, 8) {
        Velocity::Medium
    } else {
        Velocity::Fast
    }
}

/// The speeds that the traffic allows each vehicle.
pub open spec fn spec_traffic_speeds(vehicles: Seq<Vehicle>) -> Seq<Velocity> {
    Seq::new(vehicles.len(), |i: int| spec_traffic_speed(vehicles, i))
}

/// Whether all vehicles have lengths small enough to compute with.
pub open spec fn all_wf(vehicles: Seq<Vehicle>) -> bool {
    forall|i: int| 0 <= i < vehicles.len() ==> (#[trigger] vehicles[i]).wf()
}

/// The speed that the traffic ahead allows the vehicle at `i`.
pub fn traffic_speed(vehicles: &Vec<Vehicle>, i: usize) -> (speed: Velocity)
    requires
        i < vehicles.len(),
        all_wf(vehicles@),
    ensures
        speed == spec_traffic_speed(vehicles@, i as int),
{
    let current_vehicle = &vehicles[i];
    if current_vehicle.is_past_intersection() {
        return Velocity::Fast;
    }
    let required_distance: i64 = current_vehicle.get_safe_following_distance(current_vehicle);
    let mut closest: Option<i64> = None;
    let mut j: usize = 0;
    while j < vehicles.len()
        invariant
            j <= vehicles.len(),
            i < vehicles.len(),
            all_wf(vehicles@),
            current_vehicle == &vehicles@[i as int],
            closest is None ==> forall|k: int|
                0 <= k < j && k != i ==> !(#[trigger] vehicles@[i as int].spec_is_ahead_of_me(
                    &vehicles@[k],
                )),
            closest matches Some(c) ==> {
                &&& exists|k: int|
                    0 <= k < j && k != i && #[trigger] vehicles@[i as int].spec_is_ahead_of_me(
                        &vehicles@[k],
                    ) && vehicles@[i as int].spec_distance_to_vehicle(&vehicles@[k]) == c
                &&& forall|k: int|
                    0 <= k < j && k != i && #[trigger] vehicles@[i as int].spec_is_ahead_of_me(
                        &vehicles@[k],
                    ) ==> c <= vehicles@[i as int].spec_distance_to_vehicle(&vehicles@[k])
            },
        decreases vehicles.len() - j,
    {
        if j != i {
            let other_vehicle = &vehicles[j];
            if current_vehicle.is_ahead_of_me(other_vehicle) {
                let distance: i64 = current_vehicle.distance_to_vehicle(other_vehicle);
                let closer: bool = match closest {
                    None => true,
                    Some(c) => distance < c,
                };
                if closer {
                    closest = Some(distance);
                }
            }
        }
        j += 1;
    }
    match closest {
        None => {
            proof {
                assert forall|k: int| 0 <= k < vehicles@.len() implies !#[trigger] crowds(
                    vehicles@,
                    i as int,
                    k,
                    7,
                ) && !crowds(vehicles@, i as int, k, 8) by {}
            }
            Velocity::Fast
        },
        Some(c) => {
            let ghost w = choose|k: int|
                0 <= k < vehicles@.len() && k != i && #[trigger] vehicles@[i as int].spec_is_ahead_of_me(
                    &vehicles@[k],
                ) && vehicles@[i as int].spec_distance_to_vehicle(&vehicles@[k]) == c;
            if 10 * c < 7 * required_distance {
                proof {
                    assert(crowds(vehicles@, i as int, w, 7));
                }
                Velocity::Slow
            } else if 10 * c < 8 * required_distance {
                proof {
                    assert(crowds(vehicles@, i as int, w, 8));
                    assert forall|k: int| 0 <= k < vehicles@.len() implies !#[trigger] crowds(
                        vehicles@,
                        i as int,
                        k,
                        7,
                    ) by {}
                }
                Velocity::Medium
            } else {
                proof {
                    assert forall|k: int| 0 <= k < vehicles@.len() implies !#[trigger] crowds(
                        vehicles@,
                        i as int,
                        k,
                        7,
                    ) && !crowds(vehicles@, i as int, k, 8) by {}
                }
                Velocity::Fast
            }
        },
    }
}

/// The speeds that the traffic allows each vehicle, in the vehicles' order.
pub fn traffic_speeds(vehicles: &Vec<Vehicle>) -> (speeds: Vec<Velocity>)
    requires
        all_wf(vehicles@),
    ensures
        speeds@ == spec_traffic_speeds(vehicles@),
{
    let mut speeds: Vec<Velocity> = Vec::new();
    let mut i: usize = 0;
    while i < vehicles.len()
        invariant
            i <= vehicles.len(),
            all_wf(vehicles@),
            speeds@.len() == i,
            forall|k: int| 0 <= k < i ==> #[trigger] speeds@[k] == spec_traffic_speed(vehicles@, k),
        decreases vehicles.len() - i,
    {
        let speed = traffic_speed(vehicles, i);
        speeds.push(speed);
        i += 1;
    }
    proof {
        assert(speeds@ =~= spec_traffic_speeds(vehicles@));
    }
    speeds
}

} // verus!
