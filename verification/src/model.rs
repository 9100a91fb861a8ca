//! The map snapshot this engine analyzes: lanes grouped into directed
//! roads, permitted lane-to-lane movements with their traversal costs,
//! and buildings anchored to the network.
//!
//! Everything here is a read-only value; queries never mutate the map.

use vstd::prelude::*;

verus! {

/// Per-movement costs are capped so that any sum accumulated along a
/// path of the road graph fits comfortably in a `u64`.
pub const COST_LIMIT: u64 = 0x8000_0000;

/// The map may hold at most this many movements, which bounds the node
/// count of any graph derived from it.
pub const MOVEMENT_LIMIT: usize = 0x0800_0000;

/// Travel-mode selector: decides which lanes are eligible, which anchor
/// a building uses, and which cost variant applies.
#[derive(Clone, Copy, PartialEq, Eq, Structural, Debug)]
pub enum PathConstraints {
    Pedestrian,
    Bike,
    Car,
}

/// Atomic travel-capacity unit of one road segment. A lane belongs to
/// exactly one directed road and carries its mode-compatibility flags.
#[derive(Clone, Copy, PartialEq, Eq, Structural, Debug)]
pub struct Lane {
    /// Identifier of the directed road this lane belongs to.
    pub parent: u64,
    pub allow_pedestrian: bool,
    pub allow_bike: bool,
    pub allow_car: bool,
}

impl PathConstraints {
    /// May this travel mode use the lane?
    pub open spec fn spec_can_use(self, l: Lane) -> bool {
        match self {
            PathConstraints::Pedestrian => l.allow_pedestrian,
            PathConstraints::Bike => l.allow_bike,
            PathConstraints::Car => l.allow_car,
        }
    }

    /// Eligibility predicate: decides whether this mode may travel on `l`.
    pub fn can_use(self, l: &Lane) -> (r: bool)
        ensures
            r == self.spec_can_use(*l),
    {
        match self {
            PathConstraints::Pedestrian => l.allow_pedestrian,
            PathConstraints::Bike => l.allow_bike,
            PathConstraints::Car => l.allow_car,
        }
    }
}

/// A permitted transition between two lanes, together with the cost of
/// traversing it per vehicle mode. The base vehicle cost already folds
/// in the global routing parameters and the geometry of the from lane;
/// the zone cost is the additive access-zone penalty.
#[derive(Clone, Copy, PartialEq, Eq, Structural, Debug)]
pub struct Movement {
    /// Index of the source lane.
    pub src: usize,
    /// Index of the destination lane.
    pub dst: usize,
    pub vehicle_cost_bike: u64,
    pub vehicle_cost_car: u64,
    pub zone_cost_bike: u64,
    pub zone_cost_car: u64,
}

impl Movement {
    /// Endpoints name real lanes and each cost respects the cap.
    pub open spec fn wf(self, n_lanes: int) -> bool {
        &&& self.src < n_lanes
        &&& self.dst < n_lanes
        &&& self.vehicle_cost_bike <= COST_LIMIT
        &&& self.vehicle_cost_car <= COST_LIMIT
        &&& self.zone_cost_bike <= COST_LIMIT
        &&& self.zone_cost_car <= COST_LIMIT
    }
}

/// A point of interest, linked to the network by at most one nearest
/// lane per vehicle mode. A missing anchor means the building cannot be
/// reached by that mode.
#[derive(Clone, Copy, PartialEq, Eq, Structural, Debug)]
pub struct Building {
    /// Index of the nearest lane a car can use, if any.
    pub driving_lane: Option<usize>,
    /// Index of the nearest lane a bike can use, if any.
    pub biking_lane: Option<usize>,
}

impl Building {
    pub open spec fn wf(self, n_lanes: int) -> bool {
        &&& (self.driving_lane matches Some(l) ==> l < n_lanes)
        &&& (self.biking_lane matches Some(l) ==> l < n_lanes)
    }

    /// The nearest-lane anchor this mode would use. Pedestrians have no
    /// anchor in this engine (their graph is a different structure).
    pub open spec fn spec_anchor_lane(self, c: PathConstraints) -> Option<usize> {
        match c {
            PathConstraints::Car => self.driving_lane,
            PathConstraints::Bike => self.biking_lane,
            PathConstraints::Pedestrian => None,
        }
    }

    pub fn anchor_lane(&self, c: PathConstraints) -> (r: Option<usize>)
        ensures
            r == self.spec_anchor_lane(c),
    {
        match c {
            PathConstraints::Car => self.driving_lane,
            PathConstraints::Bike => self.biking_lane,
            PathConstraints::Pedestrian => None,
        }
    }
}

/// A request to route between two positions under one travel mode.
#[derive(Clone, Copy, PartialEq, Eq, Structural, Debug)]
pub struct PathRequest {
    /// Index of the lane the route starts on.
    pub start_lane: usize,
    /// Index of the lane the route ends on.
    pub end_lane: usize,
    pub constraints: PathConstraints,
}

/// An immutable snapshot of the transportation map: the only state a
/// query ever reads.
#[derive(Debug)]
pub struct MapModel {
    pub lanes: Vec<Lane>,
    pub movements: Vec<Movement>,
    pub buildings: Vec<Building>,
}

impl MapModel {
    /// Every movement and building refers to real lanes, costs respect
    /// the cap, and the movement count respects its limit.
    pub open spec fn wf(self) -> bool {
        &&& self.movements@.len() <= MOVEMENT_LIMIT
        &&& forall|i: int|
            0 <= i < self.movements@.len() ==> (#[trigger] self.movements@[i]).wf(
                self.lanes@.len() as int,
            )
        &&& forall|i: int|
            0 <= i < self.buildings@.len() ==> (#[trigger] self.buildings@[i]).wf(
                self.lanes@.len() as int,
            )
    }

    /// Both endpoint lanes of movement `m` satisfy the mode's
    /// eligibility predicate.
    pub open spec fn eligible_movement(self, m: int, c: PathConstraints) -> bool {
        &&& c.spec_can_use(self.lanes@[self.movements@[m].src as int])
        &&& c.spec_can_use(self.lanes@[self.movements@[m].dst as int])
    }

    /// At least one movement of the map is eligible for the mode.
    pub open spec fn has_eligible_movement(self, c: PathConstraints) -> bool {
        exists|m: int|
            0 <= m < self.movements@.len() && self.eligible_movement(m, c)
    }

    /// The lanes (by index) that the mode may use.
    pub open spec fn eligible_lanes(self, c: PathConstraints) -> Set<u64> {
        Set::new(
            |l: u64| l < self.lanes@.len() && c.spec_can_use(self.lanes@[l as int]),
        )
    }

    /// Base cost of traversing movement `m` by a vehicle mode; folds in
    /// the from lane and the global routing parameters.
    pub open spec fn spec_vehicle_cost(self, m: int, c: PathConstraints) -> u64 {
        match c {
            PathConstraints::Bike => self.movements@[m].vehicle_cost_bike,
            PathConstraints::Car => self.movements@[m].vehicle_cost_car,
            PathConstraints::Pedestrian => 0,
        }
    }

    /// Additive access-zone penalty of traversing movement `m`.
    pub open spec fn spec_zone_cost(self, m: int, c: PathConstraints) -> u64 {
        match c {
            PathConstraints::Bike => self.movements@[m].zone_cost_bike,
            PathConstraints::Car => self.movements@[m].zone_cost_car,
            PathConstraints::Pedestrian => 0,
        }
    }

    /// Total cost of traversing movement `m`: vehicle cost plus zone
    /// cost, both non-negative.
    pub open spec fn spec_edge_cost(self, m: int, c: PathConstraints) -> int {
        self.spec_vehicle_cost(m, c) + self.spec_zone_cost(m, c)
    }

    /// The directed road a building is anchored to for the mode, if it
    /// has an anchor lane for that mode.
    pub open spec fn spec_anchor_road(self, b: int, c: PathConstraints) -> Option<u64> {
        match self.buildings@[b].spec_anchor_lane(c) {
            Some(l) => Some(self.lanes@[l as int].parent),
            None => None,
        }
    }
}

/// Base cost of traversing one movement by a vehicle mode.
pub fn vehicle_cost(map: &MapModel, m: usize, c: PathConstraints) -> (r: u64)
    requires
        map.wf(),
        m < map.movements@.len(),
        c != PathConstraints::Pedestrian,
    ensures
        r == map.spec_vehicle_cost(m as int, c),
{
    let mv = &map.movements[m];
    match c {
        PathConstraints::Bike => mv.vehicle_cost_bike,
        PathConstraints::Car => mv.vehicle_cost_car,
        PathConstraints::Pedestrian => 0,
    }
}

/// Additive access-zone penalty of traversing one movement.
pub fn zone_cost(map: &MapModel, m: usize, c: PathConstraints) -> (r: u64)
    requires
        map.wf(),
        m < map.movements@.len(),
        c != PathConstraints::Pedestrian,
    ensures
        r == map.spec_zone_cost(m as int, c),
{
    let mv = &map.movements[m];
    match c {
        PathConstraints::Bike => mv.zone_cost_bike,
        PathConstraints::Car => mv.zone_cost_car,
        PathConstraints::Pedestrian => 0,
    }
}

/// Total cost of traversing one movement: vehicle plus zone cost.
pub fn edge_cost(map: &MapModel, m: usize, c: PathConstraints) -> (r: u64)
    requires
        map.wf(),
        m < map.movements@.len(),
        c != PathConstraints::Pedestrian,
    ensures
        r == map.spec_edge_cost(m as int, c),
        r <= 2 * COST_LIMIT,
{
    vehicle_cost(map, m, c) + zone_cost(map, m, c)
}

} // verus!
