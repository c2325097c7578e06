//! The map under construction, and the allocation of synthetic identifiers.

use crate::features::{RawArea, RawBuilding, RawParkingLot};
use crate::geometry::Pt2D;
use crate::id_map::OsmIdMap;
use crate::multimap::MultiMap;
use crate::names::{CityName, MapName};
use crate::osm::{NodeID, OsmID, WayID};
use crate::streets::{OriginalRoad, StreetNetwork};
use crate::transit::{RawTransitRoute, RawTransitStop};
use std::collections::BTreeMap;
use vstd::prelude::*;
use vstd::set_lib::{lemma_int_range, lemma_len_subset, lemma_len_union, lemma_map_size_bound, set_int_range};

verus! {

/// Everything known about a map while it is being built.
pub struct RawMap {
    /// The name of the map. It does not change.
    pub name: MapName,
    /// The roads and intersections.
    pub streets: StreetNetwork,
    /// The buildings, each under the identifier of the object it was made
    /// from.
    pub buildings: OsmIdMap<RawBuilding>,
    /// The areas, in the order in which they were read.
    pub areas: Vec<RawArea>,
    /// The parking lots, in the order in which they were read.
    pub parking_lots: Vec<RawParkingLot>,
    /// The centre lines of parking aisles, each with the way it was made
    /// from.
    pub parking_aisles: Vec<(WayID, Vec<Pt2D>)>,
    /// The transit routes, in the order in which they were read.
    pub transit_routes: Vec<RawTransitRoute>,
    /// The transit stops, each under its identifier in the schedule feed.
    pub transit_stops: BTreeMap<String, RawTransitStop>,
    /// For a road's way, the names of the bus routes that run along it.
    ///
    /// The index is filled once and is not kept up to date when the map is
    /// edited or transformed afterwards.
    pub bus_routes_on_roads: MultiMap,
}

impl RawMap {
    /// Whether `id` names a way that the map already uses: the way of a road,
    /// or the way that a building is stored under. Areas and parking lots are
    /// not consulted.
    pub open spec fn way_id_used(&self, id: int) -> bool {
        ||| self.streets.uses_way(id)
        ||| exists|way: WayID|
            way.0 == id && #[trigger] self.buildings@.contains_key(OsmID::Way(way))
    }

    /// Whether `id` names a node that the map already uses: an intersection.
    pub open spec fn node_id_used(&self, id: int) -> bool {
        self.streets.uses_node(id)
    }

    /// Whether `id` is the first unused way identifier met when counting down
    /// from `start`.
    pub open spec fn is_first_free_way_id(&self, start: int, id: int) -> bool {
        &&& id <= start
        &&& !self.way_id_used(id)
        &&& forall|c: int| id < c <= start ==> #[trigger] self.way_id_used(c)
    }

    /// Whether `id` is the first unused node identifier met when counting
    /// down from `start`.
    pub open spec fn is_first_free_node_id(&self, start: int, id: int) -> bool {
        &&& id <= start
        &&& !self.node_id_used(id)
        &&& forall|c: int| id < c <= start ==> #[trigger] self.node_id_used(c)
    }

    /// Whether counting down from `start` meets an unused way identifier
    /// before the 64-bit integers run out.
    pub open spec fn has_free_way_id(&self, start: int) -> bool {
        exists|c: int| i64::MIN <= c <= start && !#[trigger] self.way_id_used(c)
    }

    /// Whether counting down from `start` meets an unused node identifier
    /// before the 64-bit integers run out.
    pub open spec fn has_free_node_id(&self, start: int) -> bool {
        exists|c: int| i64::MIN <= c <= start && !#[trigger] self.node_id_used(c)
    }

    /// Whether no way is both the way of a road and the key of a building,
    /// and no node is both an intersection and the key of a building.
    pub open spec fn ids_distinct(&self) -> bool {
        &&& forall|way: WayID|
            !(self.streets.uses_way(way.0 as int) && #[trigger] self.buildings@.contains_key(
                OsmID::Way(way),
            ))
        &&& forall|node: NodeID|
            !(self.streets.uses_node(node.0 as int) && #[trigger] self.buildings@.contains_key(
                OsmID::Node(node),
            ))
    }

    /// Whether every stop that a transit route names is one of the map's
    /// stops. Nothing enforces this; a map may be built that breaks it.
    pub open spec fn stops_resolve(&self) -> bool {
        forall|r: int, s: int|
            0 <= r < self.transit_routes@.len() && 0 <= s < self.transit_routes@[r].stops@.len()
                ==> exists|key: String|
                #[trigger] self.transit_stops@.contains_key(key) && key@
                    == #[trigger] self.transit_routes@[r].stops@[s]@
    }

    /// A map of the given name with a blank street network and nothing else
    /// in it.
    pub fn blank(name: MapName) -> (map: RawMap)
        ensures
            map.name == name,
            map.streets.roads() == Set::<OriginalRoad>::empty(),
            map.streets.intersections() == Set::<NodeID>::empty(),
            map.streets.roads().len() == 0,
            map.streets.intersections().len() == 0,
            map.buildings@ == Map::<OsmID, RawBuilding>::empty(),
            map.areas@ == Seq::<RawArea>::empty(),
            map.parking_lots@ == Seq::<RawParkingLot>::empty(),
            map.parking_aisles@ == Seq::<(WayID, Vec<Pt2D>)>::empty(),
            map.transit_routes@ == Seq::<RawTransitRoute>::empty(),
            map.transit_stops@ == Map::<String, RawTransitStop>::empty(),
            map.bus_routes_on_roads@ == Map::<WayID, Set<Seq<char>>>::empty(),
            map.ids_distinct(),
            map.stops_resolve(),
            forall|id: int| !map.way_id_used(id) && !map.node_id_used(id),
    {
        RawMap {
            name,
            streets: StreetNetwork::blank(),
            buildings: OsmIdMap::new(),
            areas: Vec::new(),
            parking_lots: Vec::new(),
            parking_aisles: Vec::new(),
            transit_routes: Vec::new(),
            transit_stops: BTreeMap::new(),
            bus_routes_on_roads: MultiMap::new(),
        }
    }

    /// The city that the map belongs to.
    pub fn get_city_name(&self) -> (city: &CityName)
        ensures
            *city == self.name.city,
    {
        &self.name.city
    }

    /// A synthetic way identifier: the first of `start`, `start - 1`,
    /// `start - 2`, ... that is the way of no road and under which no
    /// building is stored. Areas, parking lots and parking aisles are not
    /// consulted.
    ///
    /// For one map and one `start` the result is always the same.
    pub fn new_osm_way_id(&self, start: i64) -> (id: WayID)
        requires
            start < 0,
            self.has_free_way_id(start as int),
        ensures
            id.0 <= start,
            !self.way_id_used(id.0 as int),
            forall|c: int| id.0 < c <= start ==> #[trigger] self.way_id_used(c),
            self.is_first_free_way_id(start as int, id.0 as int),
            self.way_id_used(start as int) ==> id.0 < start,
            !self.way_id_used(start as int) ==> id.0 == start,
    {
        let mut candidate: i64 = start;
        loop
            invariant
                candidate <= start,
                self.has_free_way_id(start as int),
                forall|c: int| candidate < c <= start ==> #[trigger] self.way_id_used(c),
            decreases candidate - i64::MIN,
        {
            let way = WayID(candidate);
            if self.streets.has_road_on_way(way) || self.buildings.contains_key(&OsmID::Way(way)) {
                proof {
                    assert(self.way_id_used(candidate as int));
                    let free = choose|c: int|
                        i64::MIN <= c <= start && !#[trigger] self.way_id_used(c);
                    assert(free < candidate);
                }
                candidate = candidate - 1;
            } else {
                proof {
                    if self.way_id_used(candidate as int) {
                        let w = choose|w: WayID|
                            w.0 == candidate && #[trigger] self.buildings@.contains_key(
                                OsmID::Way(w),
                            );
                        assert(w == way);
                    }
                }
                return way;
            }
        }
    }

    /// A synthetic node identifier: the first of `start`, `start - 1`,
    /// `start - 2`, ... that names no intersection. Buildings stored under
    /// a node are not consulted.
    ///
    /// For one map and one `start` the result is always the same.
    pub fn new_osm_node_id(&self, start: i64) -> (id: NodeID)
        requires
            start < 0,
            self.has_free_node_id(start as int),
        ensures
            id.0 <= start,
            !self.node_id_used(id.0 as int),
            forall|c: int| id.0 < c <= start ==> #[trigger] self.node_id_used(c),
            self.is_first_free_node_id(start as int, id.0 as int),
            self.node_id_used(start as int) ==> id.0 < start,
            !self.node_id_used(start as int) ==> id.0 == start,
    {
        let mut candidate: i64 = start;
        loop
            invariant
                candidate <= start,
                self.has_free_node_id(start as int),
                forall|c: int| candidate < c <= start ==> #[trigger] self.node_id_used(c),
            decreases candidate - i64::MIN,
        {
            let node = NodeID(candidate);
            if self.streets.has_intersection(node) {
                proof {
                    let free = choose|c: int|
                        i64::MIN <= c <= start && !#[trigger] self.node_id_used(c);
                    assert(free < candidate);
                }
                candidate = candidate - 1;
            } else {
                return node;
            }
        }
    }

    /// Counting down from `start` finds an unused way identifier in time
    /// whenever the map has no more roads and buildings than there are
    /// identifiers from `start` down, less one.
    pub proof fn lemma_has_free_way_id(&self, start: int)
        requires
            i64::MIN <= start,
            self.streets.roads().len() + self.buildings@.dom().len() <= start - i64::MIN,
        ensures
            self.has_free_way_id(start),
    {
        if !self.has_free_way_id(start) {
            let candidates = set_int_range(i64::MIN as int, start + 1);
            let of_road = |r: OriginalRoad| r.osm_way_id.0 as int;
            let of_key = |k: OsmID| k.number() as int;
            let road_ways = self.streets.roads().map(of_road);
            let key_numbers = self.buildings@.dom().map(of_key);
            self.streets.lemma_finite();
            self.buildings.lemma_finite();
            lemma_int_range(i64::MIN as int, start + 1);
            lemma_map_size_bound(self.streets.roads(), road_ways, of_road);
            lemma_map_size_bound(self.buildings@.dom(), key_numbers, of_key);
            lemma_len_union(road_ways, key_numbers);
            assert forall|c: int| candidates.contains(c) implies road_ways.union(
                key_numbers,
            ).contains(c) by {
                assert(self.way_id_used(c));
                if self.streets.uses_way(c) {
                    let r = choose|r: OriginalRoad|
                        self.streets.roads().contains(r) && r.osm_way_id.0 == c;
                    assert(of_road(r) == c);
                } else {
                    let way = choose|way: WayID|
                        way.0 == c && #[trigger] self.buildings@.contains_key(OsmID::Way(way));
                    assert(of_key(OsmID::Way(way)) == c);
                    assert(self.buildings@.dom().contains(OsmID::Way(way)));
                }
            }
            lemma_len_subset(candidates, road_ways.union(key_numbers));
        }
    }

    /// Counting down from `start` finds an unused node identifier in time
    /// whenever the map has fewer intersections than there are identifiers
    /// from `start` down.
    pub proof fn lemma_has_free_node_id(&self, start: int)
        requires
            i64::MIN <= start,
            self.streets.intersections().len() <= start - i64::MIN,
        ensures
            self.has_free_node_id(start),
    {
        if !self.has_free_node_id(start) {
            let candidates = set_int_range(i64::MIN as int, start + 1);
            let of_node = |n: NodeID| n.0 as int;
            let numbers = self.streets.intersections().map(of_node);
            self.streets.lemma_finite();
            lemma_int_range(i64::MIN as int, start + 1);
            lemma_map_size_bound(self.streets.intersections(), numbers, of_node);
            assert forall|c: int| candidates.contains(c) implies numbers.contains(c) by {
                assert(self.node_id_used(c));
                let n = choose|n: NodeID| self.streets.intersections().contains(n) && n.0 == c;
                assert(of_node(n) == c);
            }
            lemma_len_subset(candidates, numbers);
        }
    }

    /// Allocation is repeatable: whatever the way allocator may return for
    /// one map and one `start`, it returns every time.
    pub proof fn lemma_way_allocation_repeatable(&self, start: int, first: int, second: int)
        requires
            self.is_first_free_way_id(start, first),
            self.is_first_free_way_id(start, second),
        ensures
            first == second,
    {
    }

    /// Allocation is repeatable: whatever the node allocator may return for
    /// one map and one `start`, it returns every time.
    pub proof fn lemma_node_allocation_repeatable(&self, start: int, first: int, second: int)
        requires
            self.is_first_free_node_id(start, first),
            self.is_first_free_node_id(start, second),
        ensures
            first == second,
    {
    }

    /// Storing a building under a freshly allocated way identifier keeps
    /// the identifiers of roads and buildings distinct.
    pub proof fn lemma_fresh_way_id_keeps_ids_distinct(
        &self,
        after: &RawMap,
        start: int,
        id: WayID,
        building: RawBuilding,
    )
        requires
            self.ids_distinct(),
            self.is_first_free_way_id(start, id.0 as int),
            after.streets == self.streets,
            after.buildings@ == self.buildings@.insert(OsmID::Way(id), building),
        ensures
            after.ids_distinct(),
    {
    }
}

} // verus!
