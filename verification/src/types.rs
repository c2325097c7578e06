//! Small value types attached to map features.

use std::collections::BTreeMap;
use vstd::prelude::*;

verus! {

/// The tags that source data attaches to an object: a mapping from key to
/// value.
#[derive(Clone, Debug)]
pub struct Tags(pub BTreeMap<String, String>);

impl Tags {
    /// No tags at all.
    pub fn empty() -> (tags: Tags)
        ensures
            tags.0@ == Map::<String, String>::empty(),
    {
        Tags(BTreeMap::new())
    }
}

/// What an area is.
#[derive(Clone, Copy, Debug, PartialEq, Eq, Structural)]
pub enum AreaType {
    Park,
    Water,
    Island,
    /// Not from source data: an area that a user marked for study.
    StudyArea,
}

/// A business or service inside a building.
#[derive(Clone, Debug)]
pub struct Amenity {
    pub name: String,
    /// The kind of amenity, as the source data spells it.
    pub amenity_type: String,
    pub osm_tags: Tags,
}

} // verus!
