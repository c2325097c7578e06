use raw_map::{NodeID, OriginalRoad, OsmID, OsmIdMap, RelationID, StreetNetwork, WayID};

fn road(way: i64, i1: i64, i2: i64) -> OriginalRoad {
    OriginalRoad { osm_way_id: WayID(way), i1: NodeID(i1), i2: NodeID(i2) }
}

#[test]
fn id_map_binds_each_identifier_once() {
    let mut map: OsmIdMap<u32> = OsmIdMap::new();
    assert_eq!(map.insert(OsmID::Way(WayID(7)), 1), None);
    assert_eq!(map.insert(OsmID::Node(NodeID(7)), 2), None);
    assert_eq!(map.insert(OsmID::Way(WayID(7)), 3), Some(1));
    assert_eq!(map.len(), 2);
    assert!(!map.is_empty());
    assert_eq!(map.get(&OsmID::Way(WayID(7))), Some(&3));
    assert_eq!(map.get(&OsmID::Node(NodeID(7))), Some(&2));
    assert_eq!(map.get(&OsmID::Relation(RelationID(7))), None);
    assert!(map.contains_key(&OsmID::Way(WayID(7))));
    assert!(!map.contains_key(&OsmID::Way(WayID(8))));
}

#[test]
fn id_map_keys_come_in_order() {
    let mut map: OsmIdMap<u32> = OsmIdMap::new();
    map.insert(OsmID::Relation(RelationID(-5)), 0);
    map.insert(OsmID::Way(WayID(3)), 0);
    map.insert(OsmID::Node(NodeID(9)), 0);
    map.insert(OsmID::Way(WayID(-2)), 0);
    map.insert(OsmID::Node(NodeID(-9)), 0);
    let expected = vec![
        OsmID::Node(NodeID(-9)),
        OsmID::Node(NodeID(9)),
        OsmID::Way(WayID(-2)),
        OsmID::Way(WayID(3)),
        OsmID::Relation(RelationID(-5)),
    ];
    assert_eq!(map.keys(), expected);
    let mut sorted = expected.clone();
    sorted.sort();
    assert_eq!(sorted, expected);
}

#[test]
fn identifier_number_and_sort_key() {
    assert_eq!(OsmID::Node(NodeID(4)).inner_id(), 4);
    assert_eq!(OsmID::Way(WayID(-4)).inner_id(), -4);
    assert_eq!(OsmID::Relation(RelationID(0)).inner_id(), 0);
    assert_eq!(OsmID::Node(NodeID(4)).to_sort_key(), (0, 4));
    assert_eq!(OsmID::Way(WayID(-4)).to_sort_key(), (1, -4));
    assert_eq!(OsmID::Relation(RelationID(0)).to_sort_key(), (2, 0));
}

#[test]
fn street_network_holds_each_road_once() {
    let mut streets = StreetNetwork::blank();
    assert!(streets.insert_road(road(5, 1, 2)));
    assert!(!streets.insert_road(road(5, 1, 2)));
    assert!(streets.insert_road(road(5, 2, 3)));
    assert!(streets.insert_road(road(-1, 2, 3)));
    assert_eq!(streets.num_roads(), 3);
    assert!(streets.has_road(&road(5, 2, 3)));
    assert!(!streets.has_road(&road(5, 3, 2)));
    assert!(streets.has_road_on_way(WayID(5)));
    assert!(streets.has_road_on_way(WayID(-1)));
    assert!(!streets.has_road_on_way(WayID(1)));
    assert_eq!(streets.road_keys(), vec![road(-1, 2, 3), road(5, 1, 2), road(5, 2, 3)]);
    assert_eq!(streets.num_intersections(), 0);
}

#[test]
fn street_network_holds_each_intersection_once() {
    let mut streets = StreetNetwork::blank();
    assert!(streets.insert_intersection(NodeID(4)));
    assert!(streets.insert_intersection(NodeID(-4)));
    assert!(!streets.insert_intersection(NodeID(4)));
    assert_eq!(streets.num_intersections(), 2);
    assert!(streets.has_intersection(NodeID(-4)));
    assert!(!streets.has_intersection(NodeID(0)));
    assert_eq!(streets.intersection_ids(), vec![NodeID(-4), NodeID(4)]);
    assert_eq!(streets.num_roads(), 0);
}
