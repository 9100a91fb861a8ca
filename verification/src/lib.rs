//! Network connectivity and multi-modal cost analysis over a static
//! transportation map: strongly-connected-component analysis of the
//! lane network under one travel mode, single-source cost propagation
//! from a building across the road network, and a cost frontier for
//! explaining route choices.

pub mod connectivity;
pub mod graph;
pub mod model;

pub use connectivity::{all_vehicle_costs_from, debug_vehicle_costs, find_scc};
pub use model::{Building, Lane, MapModel, Movement, PathConstraints, PathRequest};
