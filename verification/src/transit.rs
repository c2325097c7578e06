//! Transit routes and stops, as read from a schedule feed.

use crate::geometry::{PolyLine, Pt2D};
use vstd::prelude::*;

verus! {

/// A transit route.
#[derive(Clone, Debug)]
pub struct RawTransitRoute {
    pub long_name: String,
    pub short_name: String,
    pub gtfs_id: String,
    /// The path of the route. It may begin or end outside the map.
    pub shape: PolyLine,
    /// The stops of the route in order, each named by its identifier in
    /// the map's stops.
    pub stops: Vec<String>,
    pub route_type: RawTransitType,
}

/// The vehicle that serves a route.
#[derive(Clone, Debug, PartialEq, Eq, Structural)]
pub enum RawTransitType {
    Bus,
    Train,
}

/// A transit stop. Only stops inside the map's boundary are kept.
#[derive(Clone, Debug)]
pub struct RawTransitStop {
    pub gtfs_id: String,
    pub position: Pt2D,
    pub name: String,
}

} // verus!
