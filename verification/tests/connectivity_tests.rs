//! Connectivity analysis: strongly connected components of the
//! mode-filtered lane network.

use connectivity::{find_scc, Lane, MapModel, Movement, PathConstraints};

fn lane(parent: u64, ped: bool, bike: bool, car: bool) -> Lane {
    Lane { parent, allow_pedestrian: ped, allow_bike: bike, allow_car: car }
}

fn car_lane(parent: u64) -> Lane {
    lane(parent, false, false, true)
}

fn movement(src: usize, dst: usize, car_cost: u64) -> Movement {
    Movement {
        src,
        dst,
        vehicle_cost_bike: 0,
        vehicle_cost_car: car_cost,
        zone_cost_bike: 0,
        zone_cost_car: 0,
    }
}

#[test]
fn scc_zero_eligible_movements_returns_empty_sets() {
    // Eligible lanes exist, but not one eligible movement: the
    // documented short-circuit returns two empty sets.
    let map = MapModel {
        lanes: vec![car_lane(1), car_lane(2)],
        movements: vec![],
        buildings: vec![],
    };
    let (main, disc) = find_scc(&map, PathConstraints::Car);
    assert!(main.is_empty());
    assert!(disc.is_empty());

    // The same holds when movements exist but none is eligible.
    let map = MapModel {
        lanes: vec![car_lane(1), car_lane(2), lane(3, true, false, false)],
        movements: vec![Movement {
            src: 0,
            dst: 2,
            vehicle_cost_bike: 0,
            vehicle_cost_car: 1,
            zone_cost_bike: 0,
            zone_cost_car: 0,
        }],
        buildings: vec![],
    };
    let (main, disc) = find_scc(&map, PathConstraints::Car);
    assert!(main.is_empty());
    assert!(disc.is_empty());
}

#[test]
fn scc_empty_map() {
    let map = MapModel { lanes: vec![], movements: vec![], buildings: vec![] };
    let (main, disc) = find_scc(&map, PathConstraints::Car);
    assert!(main.is_empty());
    assert!(disc.is_empty());
}

#[test]
fn scc_partitions_eligible_lanes() {
    // Lanes 0 and 1 form a cycle; lane 2 is eligible but isolated; lane
    // 3 is not eligible for cars at all.
    let map = MapModel {
        lanes: vec![car_lane(1), car_lane(2), car_lane(3), lane(4, true, false, false)],
        movements: vec![movement(0, 1, 1), movement(1, 0, 1)],
        buildings: vec![],
    };
    let (main, disc) = find_scc(&map, PathConstraints::Car);
    assert!(main.contains(&0));
    assert!(main.contains(&1));
    assert_eq!(main.len(), 2);
    assert!(disc.contains(&2));
    assert_eq!(disc.len(), 1);
    // The two sets are disjoint and together are exactly the eligible
    // lanes 0, 1, 2; the ineligible lane 3 appears nowhere.
    for l in main.iter() {
        assert!(!disc.contains(l));
    }
    assert_eq!(main.len() + disc.len(), 3);
    assert!(!main.contains(&3));
    assert!(!disc.contains(&3));
}

#[test]
fn scc_isolated_lane_is_disconnected() {
    // A lane with no incident movement at all, in an otherwise
    // connected network, lands in the disconnected set.
    let map = MapModel {
        lanes: vec![car_lane(1), car_lane(2), car_lane(3)],
        movements: vec![movement(0, 1, 1), movement(1, 0, 1)],
        buildings: vec![],
    };
    let (main, disc) = find_scc(&map, PathConstraints::Car);
    assert!(!main.is_empty());
    assert!(disc.contains(&2));
}

#[test]
fn scc_picks_largest_component() {
    // One three-lane cycle and one two-lane cycle: the dominant set is
    // the larger cycle, the smaller one is disconnected.
    let map = MapModel {
        lanes: vec![car_lane(1), car_lane(2), car_lane(3), car_lane(4), car_lane(5)],
        movements: vec![
            movement(0, 1, 1),
            movement(1, 2, 1),
            movement(2, 0, 1),
            movement(3, 4, 1),
            movement(4, 3, 1),
        ],
        buildings: vec![],
    };
    let (main, disc) = find_scc(&map, PathConstraints::Car);
    assert_eq!(main.len(), 3);
    assert!(main.contains(&0) && main.contains(&1) && main.contains(&2));
    assert_eq!(disc.len(), 2);
    assert!(disc.contains(&3) && disc.contains(&4));
}

#[test]
fn scc_respects_mode() {
    // The same map splits differently per mode: bikes may use lanes 0
    // and 1, cars only lane 0.
    let map = MapModel {
        lanes: vec![lane(1, false, true, true), lane(2, false, true, false)],
        movements: vec![
            Movement {
                src: 0,
                dst: 1,
                vehicle_cost_bike: 1,
                vehicle_cost_car: 1,
                zone_cost_bike: 0,
                zone_cost_car: 0,
            },
            Movement {
                src: 1,
                dst: 0,
                vehicle_cost_bike: 1,
                vehicle_cost_car: 1,
                zone_cost_bike: 0,
                zone_cost_car: 0,
            },
        ],
        buildings: vec![],
    };
    let (main_bike, disc_bike) = find_scc(&map, PathConstraints::Bike);
    assert_eq!(main_bike.len(), 2);
    assert!(disc_bike.is_empty());
    // No movement is car-eligible (lane 1 refuses cars), so the car
    // graph has no edge and the short-circuit applies.
    let (main_car, disc_car) = find_scc(&map, PathConstraints::Car);
    assert!(main_car.is_empty());
    assert!(disc_car.is_empty());
}
