use raw_map::lexical::{compare_names, Placement};
use raw_map::{MapName, MultiMap, RawMap, WayID};

fn names(list: &Vec<String>) -> Vec<&str> {
    list.iter().map(|name| name.as_str()).collect()
}

#[test]
fn bus_routes_do_not_depend_on_insertion_order() {
    let name = MapName::new("us".to_string(), "seattle".to_string(), "montlake".to_string());
    let mut forward = RawMap::blank(name.clone());
    forward.bus_routes_on_roads.insert(WayID(10), "Route 1".to_string());
    forward.bus_routes_on_roads.insert(WayID(10), "Route 2".to_string());
    let mut backward = RawMap::blank(name);
    backward.bus_routes_on_roads.insert(WayID(10), "Route 2".to_string());
    backward.bus_routes_on_roads.insert(WayID(10), "Route 1".to_string());
    assert_eq!(names(forward.bus_routes_on_roads.get(WayID(10))), vec!["Route 1", "Route 2"]);
    assert_eq!(names(backward.bus_routes_on_roads.get(WayID(10))), vec!["Route 1", "Route 2"]);
}

#[test]
fn binding_a_name_twice_keeps_it_once() {
    let mut routes = MultiMap::new();
    routes.insert(WayID(10), "Route 1".to_string());
    routes.insert(WayID(10), "Route 1".to_string());
    assert_eq!(names(routes.get(WayID(10))), vec!["Route 1"]);
}

#[test]
fn names_of_other_ways_are_kept_apart() {
    let mut routes = MultiMap::new();
    routes.insert(WayID(10), "Route 1".to_string());
    routes.insert(WayID(-3), "Route 9".to_string());
    routes.insert(WayID(10), "Route 2".to_string());
    assert_eq!(names(routes.get(WayID(10))), vec!["Route 1", "Route 2"]);
    assert_eq!(names(routes.get(WayID(-3))), vec!["Route 9"]);
    assert!(routes.get(WayID(11)).is_empty());
    assert_eq!(routes.keys(), vec![WayID(-3), WayID(10)]);
    assert!(!routes.is_empty());
}

#[test]
fn names_come_out_sorted() {
    let mut routes = MultiMap::new();
    for name in ["b", "", "ab", "a", "B", "é", "abc", "z"] {
        routes.insert(WayID(1), name.to_string());
    }
    let mut expected: Vec<String> =
        ["b", "", "ab", "a", "B", "é", "abc", "z"].iter().map(|name| name.to_string()).collect();
    expected.sort();
    assert_eq!(routes.get(WayID(1)), &expected);
    assert_eq!(names(routes.get(WayID(1))), vec!["", "B", "a", "ab", "abc", "b", "z", "é"]);
}

#[test]
fn comparison_follows_bytes() {
    assert!(matches!(compare_names("a", "b"), Placement::Before));
    assert!(matches!(compare_names("b", "a"), Placement::After));
    assert!(matches!(compare_names("a", "a"), Placement::Same));
    assert!(matches!(compare_names("", ""), Placement::Same));
    assert!(matches!(compare_names("", "a"), Placement::Before));
    assert!(matches!(compare_names("a", ""), Placement::After));
    assert!(matches!(compare_names("ab", "abc"), Placement::Before));
    assert!(matches!(compare_names("abc", "ab"), Placement::After));
    assert!(matches!(compare_names("Z", "a"), Placement::Before));
    assert!(matches!(compare_names("z", "é"), Placement::Before));
    assert!(matches!(compare_names("Route 10", "Route 2"), Placement::Before));
}
