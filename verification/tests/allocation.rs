use raw_map::{MapName, NodeID, OriginalRoad, OsmID, Polygon, RawBuilding, RawMap, Tags, WayID};

fn sample_name() -> MapName {
    MapName::new("us".to_string(), "seattle".to_string(), "montlake".to_string())
}

fn sample_building() -> RawBuilding {
    RawBuilding {
        polygon: Polygon { points: Vec::new() },
        osm_tags: Tags::empty(),
        public_garage_name: None,
        num_parking_spots: 0,
        amenities: Vec::new(),
    }
}

fn road(way: i64, i1: i64, i2: i64) -> OriginalRoad {
    OriginalRoad { osm_way_id: WayID(way), i1: NodeID(i1), i2: NodeID(i2) }
}

#[test]
fn way_id_without_collision_is_start() {
    let mut map = RawMap::blank(sample_name());
    assert!(map.streets.insert_road(road(5, 1, 2)));
    assert_eq!(map.new_osm_way_id(-1), WayID(-1));
}

#[test]
fn way_id_skips_building_keyed_by_start() {
    let mut map = RawMap::blank(sample_name());
    assert!(map.streets.insert_road(road(5, 1, 2)));
    assert!(map.buildings.insert(OsmID::Way(WayID(-1)), sample_building()).is_none());
    assert_eq!(map.new_osm_way_id(-1), WayID(-2));
}

#[test]
fn way_id_on_blank_map_is_start() {
    let map = RawMap::blank(sample_name());
    assert_eq!(map.new_osm_way_id(-1), WayID(-1));
    assert_eq!(map.new_osm_way_id(-1000), WayID(-1000));
    assert_eq!(map.new_osm_way_id(i64::MIN), WayID(i64::MIN));
}

#[test]
fn way_id_skips_road_with_synthetic_way() {
    let mut map = RawMap::blank(sample_name());
    map.streets.insert_road(road(-1, 1, 2));
    map.streets.insert_road(road(-1, 2, 3));
    assert_eq!(map.new_osm_way_id(-1), WayID(-2));
}

#[test]
fn way_id_skips_a_run_of_roads_and_buildings() {
    let mut map = RawMap::blank(sample_name());
    map.streets.insert_road(road(-3, 1, 2));
    map.buildings.insert(OsmID::Way(WayID(-4)), sample_building());
    map.streets.insert_road(road(-5, 2, 3));
    map.buildings.insert(OsmID::Way(WayID(-7)), sample_building());
    assert_eq!(map.new_osm_way_id(-3), WayID(-6));
    assert_eq!(map.new_osm_way_id(-5), WayID(-6));
    assert_eq!(map.new_osm_way_id(-6), WayID(-6));
    assert_eq!(map.new_osm_way_id(-7), WayID(-8));
    assert_eq!(map.new_osm_way_id(-1), WayID(-1));
    assert_eq!(map.new_osm_way_id(-2), WayID(-2));
}

#[test]
fn way_id_ignores_buildings_of_other_kinds() {
    let mut map = RawMap::blank(sample_name());
    map.buildings.insert(OsmID::Node(NodeID(-1)), sample_building());
    map.buildings.insert(OsmID::Relation(raw_map::RelationID(-1)), sample_building());
    assert_eq!(map.new_osm_way_id(-1), WayID(-1));
}

#[test]
fn way_id_ignores_intersections() {
    let mut map = RawMap::blank(sample_name());
    map.streets.insert_intersection(NodeID(-1));
    assert_eq!(map.new_osm_way_id(-1), WayID(-1));
}

#[test]
fn way_id_ignores_areas_and_parking_lots() {
    let mut map = RawMap::blank(sample_name());
    map.areas.push(raw_map::RawArea {
        area_type: raw_map::AreaType::Park,
        polygon: Polygon { points: Vec::new() },
        osm_tags: Tags::empty(),
        osm_id: OsmID::Way(WayID(-1)),
    });
    map.parking_lots.push(raw_map::RawParkingLot {
        osm_id: OsmID::Way(WayID(-1)),
        polygon: Polygon { points: Vec::new() },
        osm_tags: Tags::empty(),
    });
    map.parking_aisles.push((WayID(-1), Vec::new()));
    assert_eq!(map.new_osm_way_id(-1), WayID(-1));
}

#[test]
fn way_id_is_at_most_start_and_unused() {
    let mut map = RawMap::blank(sample_name());
    for way in [-2i64, -3, -4, -10, 7] {
        map.streets.insert_road(road(way, 1, 2));
    }
    for way in [-1i64, -5, -11] {
        map.buildings.insert(OsmID::Way(WayID(way)), sample_building());
    }
    for start in -15i64..0 {
        let id = map.new_osm_way_id(start);
        assert!(id.0 <= start);
        assert!(!map.streets.has_road_on_way(id));
        assert!(!map.buildings.contains_key(&OsmID::Way(id)));
        for between in (id.0 + 1)..=start {
            let way = WayID(between);
            assert!(map.streets.has_road_on_way(way) || map.buildings.contains_key(&OsmID::Way(way)));
        }
    }
}

#[test]
fn way_id_is_the_same_when_asked_twice() {
    let mut map = RawMap::blank(sample_name());
    map.streets.insert_road(road(-1, 1, 2));
    map.buildings.insert(OsmID::Way(WayID(-2)), sample_building());
    let first = map.new_osm_way_id(-1);
    let second = map.new_osm_way_id(-1);
    assert_eq!(first, WayID(-3));
    assert_eq!(first, second);
}

#[test]
fn way_id_never_returns_an_occupied_start() {
    let mut map = RawMap::blank(sample_name());
    map.buildings.insert(OsmID::Way(WayID(-9)), sample_building());
    assert_ne!(map.new_osm_way_id(-9), WayID(-9));
    assert_eq!(map.new_osm_way_id(-9), WayID(-10));
}

#[test]
fn node_id_without_collision_is_start() {
    let mut map = RawMap::blank(sample_name());
    map.streets.insert_intersection(NodeID(5));
    assert_eq!(map.new_osm_node_id(-1), NodeID(-1));
    assert_eq!(map.new_osm_node_id(i64::MIN), NodeID(i64::MIN));
}

#[test]
fn node_id_skips_intersections() {
    let mut map = RawMap::blank(sample_name());
    map.streets.insert_intersection(NodeID(-1));
    map.streets.insert_intersection(NodeID(-2));
    map.streets.insert_intersection(NodeID(-4));
    assert_eq!(map.new_osm_node_id(-1), NodeID(-3));
    assert_eq!(map.new_osm_node_id(-2), NodeID(-3));
    assert_eq!(map.new_osm_node_id(-3), NodeID(-3));
    assert_eq!(map.new_osm_node_id(-4), NodeID(-5));
}

#[test]
fn node_id_ignores_roads_and_buildings() {
    let mut map = RawMap::blank(sample_name());
    map.streets.insert_road(road(-1, -1, -1));
    map.buildings.insert(OsmID::Node(NodeID(-1)), sample_building());
    assert_eq!(map.new_osm_node_id(-1), NodeID(-1));
}

#[test]
fn node_id_is_at_most_start_and_unused() {
    let mut map = RawMap::blank(sample_name());
    for node in [-1i64, -2, -6, -7, -8, 3] {
        map.streets.insert_intersection(NodeID(node));
    }
    for start in -12i64..0 {
        let id = map.new_osm_node_id(start);
        assert!(id.0 <= start);
        assert!(!map.streets.has_intersection(id));
        for between in (id.0 + 1)..=start {
            assert!(map.streets.has_intersection(NodeID(between)));
        }
    }
}

#[test]
fn node_id_is_the_same_when_asked_twice() {
    let mut map = RawMap::blank(sample_name());
    map.streets.insert_intersection(NodeID(-1));
    let first = map.new_osm_node_id(-1);
    let second = map.new_osm_node_id(-1);
    assert_eq!(first, NodeID(-2));
    assert_eq!(first, second);
}
