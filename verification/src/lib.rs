//! An intermediate representation of a map under construction.
//!
//! A [`RawMap`] holds what has been extracted from geographic source data
//! (the street network, buildings, areas, parking and transit) before a later
//! stage turns it into a routable map. Besides the data model, the crate
//! offers the allocation of synthetic identifiers: negative identifiers that
//! are guaranteed not to collide with any identifier the map already uses.
//!
//! Every function in this crate is verified with Verus against the contract
//! written in its signature.

pub mod features;
pub mod geometry;
pub mod id_map;
pub mod lexical;
pub mod map;
pub mod multimap;
pub mod names;
pub mod order;
pub mod osm;
pub mod streets;
pub mod transit;
pub mod types;

pub use crate::features::{RawArea, RawBuilding, RawParkingLot};
pub use crate::geometry::{PolyLine, Polygon, Pt2D};
pub use crate::id_map::OsmIdMap;
pub use crate::map::RawMap;
pub use crate::multimap::MultiMap;
pub use crate::names::{CityName, MapName};
pub use crate::osm::{NodeID, OsmID, RelationID, WayID};
pub use crate::streets::{OriginalRoad, StreetNetwork};
pub use crate::transit::{RawTransitRoute, RawTransitStop, RawTransitType};
pub use crate::types::{Amenity, AreaType, Tags};
