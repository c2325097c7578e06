//! Buildings, areas and parking lots, as read from source data.

use crate::geometry::Polygon;
use crate::osm::OsmID;
use crate::types::{Amenity, AreaType, Tags};
use vstd::prelude::*;

verus! {

/// A building. It is made from one source object, stored under that object's
/// identifier, and not changed afterwards.
#[derive(Clone, Debug)]
pub struct RawBuilding {
    pub polygon: Polygon,
    pub osm_tags: Tags,
    pub public_garage_name: Option<String>,
    pub num_parking_spots: usize,
    pub amenities: Vec<Amenity>,
}

/// An area such as a park or a body of water.
#[derive(Clone, Debug)]
pub struct RawArea {
    pub area_type: AreaType,
    pub polygon: Polygon,
    pub osm_tags: Tags,
    pub osm_id: OsmID,
}

/// A parking lot.
#[derive(Clone, Debug)]
pub struct RawParkingLot {
    pub osm_id: OsmID,
    pub polygon: Polygon,
    pub osm_tags: Tags,
}

} // verus!
