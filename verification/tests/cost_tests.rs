//! Cost propagation onto buildings, and the route-explainer frontier.

use connectivity::{
    all_vehicle_costs_from, debug_vehicle_costs, Building, Lane, MapModel, Movement,
    PathConstraints, PathRequest,
};

fn car_lane(parent: u64) -> Lane {
    Lane { parent, allow_pedestrian: false, allow_bike: false, allow_car: true }
}

fn car_movement(src: usize, dst: usize, vehicle: u64, zone: u64) -> Movement {
    Movement {
        src,
        dst,
        vehicle_cost_bike: 0,
        vehicle_cost_car: vehicle,
        zone_cost_bike: 0,
        zone_cost_car: zone,
    }
}

/// Three directed roads in a row: road 1 -> road 2 costs 30, road
/// 2 -> road 3 costs 40. Building 0 anchors at road 1, building 1 at
/// road 3.
fn chain_map() -> MapModel {
    MapModel {
        lanes: vec![car_lane(1), car_lane(2), car_lane(3)],
        movements: vec![car_movement(0, 1, 30, 0), car_movement(1, 2, 40, 0)],
        buildings: vec![
            Building { driving_lane: Some(0), biking_lane: None },
            Building { driving_lane: Some(2), biking_lane: None },
        ],
    }
}

#[test]
fn costs_along_chain_within_limit() {
    let map = chain_map();
    let results = all_vehicle_costs_from(&map, 0, 100, PathConstraints::Car);
    // The far building costs 30 + 40; the start building itself is
    // reported at cost zero.
    assert_eq!(results.get(&1), Some(&70));
    assert_eq!(results.get(&0), Some(&0));
    assert_eq!(results.len(), 2);
}

#[test]
fn costs_drop_entries_over_the_limit() {
    let map = chain_map();
    let results = all_vehicle_costs_from(&map, 0, 50, PathConstraints::Car);
    // Cost 70 exceeds the budget of 50, so the far building is gone;
    // the start building stays at cost zero.
    assert_eq!(results.get(&1), None);
    assert_eq!(results.get(&0), Some(&0));
    assert_eq!(results.len(), 1);
}

#[test]
fn no_result_exceeds_the_limit() {
    let map = chain_map();
    for limit in [0u64, 29, 30, 69, 70, 1000] {
        let results = all_vehicle_costs_from(&map, 0, limit, PathConstraints::Car);
        for (_, cost) in results.iter() {
            assert!(*cost <= limit);
        }
    }
}

#[test]
fn start_without_anchor_gives_empty_mapping() {
    let mut map = chain_map();
    map.buildings.push(Building { driving_lane: None, biking_lane: None });
    let results = all_vehicle_costs_from(&map, 2, 100, PathConstraints::Car);
    assert!(results.is_empty());
}

#[test]
fn unreachable_building_is_omitted() {
    // Building 1 anchors at a road no movement leads to.
    let map = MapModel {
        lanes: vec![car_lane(1), car_lane(2), car_lane(3)],
        movements: vec![car_movement(0, 1, 5, 0)],
        buildings: vec![
            Building { driving_lane: Some(0), biking_lane: None },
            Building { driving_lane: Some(2), biking_lane: None },
        ],
    };
    let results = all_vehicle_costs_from(&map, 0, 100, PathConstraints::Car);
    assert_eq!(results.get(&0), Some(&0));
    assert_eq!(results.get(&1), None);
}

#[test]
fn zone_cost_is_added_to_vehicle_cost() {
    let map = MapModel {
        lanes: vec![car_lane(1), car_lane(2)],
        movements: vec![car_movement(0, 1, 30, 5)],
        buildings: vec![
            Building { driving_lane: Some(0), biking_lane: None },
            Building { driving_lane: Some(1), biking_lane: None },
        ],
    };
    let results = all_vehicle_costs_from(&map, 0, 100, PathConstraints::Car);
    assert_eq!(results.get(&1), Some(&35));
}

#[test]
fn shortest_of_two_routes_wins() {
    // Two routes from road 1 to road 3: direct at cost 50, or via road
    // 2 at cost 10 + 15.
    let map = MapModel {
        lanes: vec![car_lane(1), car_lane(2), car_lane(3)],
        movements: vec![
            car_movement(0, 2, 50, 0),
            car_movement(0, 1, 10, 0),
            car_movement(1, 2, 15, 0),
        ],
        buildings: vec![
            Building { driving_lane: Some(0), biking_lane: None },
            Building { driving_lane: Some(2), biking_lane: None },
        ],
    };
    let results = all_vehicle_costs_from(&map, 0, 100, PathConstraints::Car);
    assert_eq!(results.get(&1), Some(&25));
}

#[test]
fn bike_mode_uses_bike_anchors_and_bike_costs() {
    let bike_lane = |parent: u64| Lane {
        parent,
        allow_pedestrian: false,
        allow_bike: true,
        allow_car: false,
    };
    let map = MapModel {
        lanes: vec![bike_lane(1), bike_lane(2)],
        movements: vec![Movement {
            src: 0,
            dst: 1,
            vehicle_cost_bike: 7,
            vehicle_cost_car: 99,
            zone_cost_bike: 2,
            zone_cost_car: 0,
        }],
        buildings: vec![
            Building { driving_lane: None, biking_lane: Some(0) },
            Building { driving_lane: None, biking_lane: Some(1) },
        ],
    };
    let results = all_vehicle_costs_from(&map, 0, 100, PathConstraints::Bike);
    assert_eq!(results.get(&1), Some(&9));
    // The same start has no driving anchor, so the car query finds
    // nothing at all.
    let car_results = all_vehicle_costs_from(&map, 0, 100, PathConstraints::Car);
    assert!(car_results.is_empty());
}

#[test]
fn buildings_on_one_road_share_a_cost() {
    let mut map = chain_map();
    // A second building, anchored to a different lane of the same
    // directed road as building 1 (road 3).
    map.lanes.push(car_lane(3));
    map.buildings.push(Building { driving_lane: Some(3), biking_lane: None });
    let results = all_vehicle_costs_from(&map, 0, 100, PathConstraints::Car);
    assert_eq!(results.get(&1), results.get(&2));
    assert_eq!(results.get(&1), Some(&70));
}

#[test]
fn debug_costs_pedestrian_gives_no_result() {
    let map = chain_map();
    let req = PathRequest { start_lane: 0, end_lane: 2, constraints: PathConstraints::Pedestrian };
    assert!(debug_vehicle_costs(req, &map, Some(70)).is_none());
}

#[test]
fn debug_costs_without_a_path_gives_no_result() {
    let map = chain_map();
    let req = PathRequest { start_lane: 0, end_lane: 2, constraints: PathConstraints::Car };
    assert!(debug_vehicle_costs(req, &map, None).is_none());
}

#[test]
fn debug_costs_returns_realized_cost_and_frontier() {
    let map = chain_map();
    let req = PathRequest { start_lane: 0, end_lane: 2, constraints: PathConstraints::Car };
    // The full pathfinder (outside this engine) reported 70 for this
    // request.
    let (realized, frontier) = debug_vehicle_costs(req, &map, Some(70)).unwrap();
    assert_eq!(realized, 70);
    assert_eq!(frontier.get(&1), Some(&0));
    assert_eq!(frontier.get(&2), Some(&30));
    assert_eq!(frontier.get(&3), Some(&70));
    // The frontier is a relaxation lower bound: at the destination's
    // anchor road it never exceeds the realized path cost.
    let dest_road = 3u64;
    assert!(*frontier.get(&dest_road).unwrap() <= realized);
}
