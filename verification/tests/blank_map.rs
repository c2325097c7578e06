use raw_map::{MapName, RawMap, WayID};

#[test]
fn blank_map_is_empty() {
    let name = MapName::new("us".to_string(), "seattle".to_string(), "montlake".to_string());
    let map = RawMap::blank(name);
    assert!(map.buildings.is_empty());
    assert_eq!(map.buildings.len(), 0);
    assert!(map.buildings.keys().is_empty());
    assert!(map.areas.is_empty());
    assert!(map.parking_lots.is_empty());
    assert!(map.parking_aisles.is_empty());
    assert!(map.transit_routes.is_empty());
    assert!(map.transit_stops.is_empty());
    assert!(map.bus_routes_on_roads.is_empty());
    assert!(map.bus_routes_on_roads.keys().is_empty());
    assert!(map.bus_routes_on_roads.get(WayID(10)).is_empty());
    assert_eq!(map.streets.num_roads(), 0);
    assert_eq!(map.streets.num_intersections(), 0);
    assert!(map.streets.road_keys().is_empty());
    assert!(map.streets.intersection_ids().is_empty());
}

#[test]
fn blank_map_keeps_its_name() {
    let name = MapName::new("gb".to_string(), "leeds".to_string(), "central".to_string());
    let map = RawMap::blank(name);
    assert_eq!(map.name.map, "central");
    assert_eq!(map.name.city.city, "leeds");
    assert_eq!(map.name.city.country, "gb");
}

#[test]
fn city_name_is_the_city_of_the_map_name() {
    let name = MapName::new("gb".to_string(), "leeds".to_string(), "central".to_string());
    let map = RawMap::blank(name);
    let city = map.get_city_name();
    assert_eq!(city.country, "gb");
    assert_eq!(city.city, "leeds");
}
