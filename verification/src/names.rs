//! Names of cities and of maps within them.

use vstd::prelude::*;

verus! {

/// A city, named by a country code and the city's own name.
#[derive(Clone, Debug)]
pub struct CityName {
    pub country: String,
    pub city: String,
}

/// A map: a named region of one city. The name identifies a [`RawMap`]
/// for as long as it exists.
///
/// [`RawMap`]: crate::RawMap
#[derive(Clone, Debug)]
pub struct MapName {
    pub city: CityName,
    pub map: String,
}

impl CityName {
    /// The city `city` of the country `country`.
    pub fn new(country: String, city: String) -> (name: CityName)
        ensures
            name.country == country,
            name.city == city,
    {
        CityName { country, city }
    }
}

impl MapName {
    /// The map `map` of the city `city` of the country `country`.
    pub fn new(country: String, city: String, map: String) -> (name: MapName)
        ensures
            name.city.country == country,
            name.city.city == city,
            name.map == map,
    {
        MapName { city: CityName { country, city }, map }
    }
}

} // verus!
