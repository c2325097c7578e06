//! The part of the street network that the rest of the map depends on: which
//! roads and which intersections exist, and how they are named.

use crate::order::{lemma_numbers_increase, lemma_triples_increase, triple_before};
use crate::osm::{NodeID, WayID};
use std::collections::BTreeMap;
use vstd::prelude::*;
use vstd::set_lib::lemma_map_size;
use vstd::std_specs::iter::IteratorSpec;

verus! {

/// Names a road by the way it was cut from and the two intersections it
/// joins. One way may give rise to several roads.
#[derive(Clone, Copy, Debug, PartialEq, Eq, PartialOrd, Ord, Hash, Structural)]
pub struct OriginalRoad {
    pub osm_way_id: WayID,
    pub i1: NodeID,
    pub i2: NodeID,
}

impl OriginalRoad {
    /// The triple by which roads are ordered: way, then first intersection,
    /// then second.
    pub open spec fn sort_key(self) -> (i64, i64, i64) {
        (self.osm_way_id.0, self.i1.0, self.i2.0)
    }

    /// The road that a triple stands for.
    pub open spec fn from_sort_key(key: (i64, i64, i64)) -> OriginalRoad {
        OriginalRoad { osm_way_id: WayID(key.0), i1: NodeID(key.1), i2: NodeID(key.2) }
    }
}

/// The roads and intersections of a map, each held once and in the order of
/// its name.
pub struct StreetNetwork {
    // Both are maps to the unit value, keyed by the integers behind the
    // names: the key set of such a map is known to be finite and is walked in
    // increasing order.
    roads: BTreeMap<(i64, i64, i64), ()>,
    intersections: BTreeMap<i64, ()>,
}

impl StreetNetwork {
    /// The roads of the network.
    pub closed spec fn roads(&self) -> Set<OriginalRoad> {
        self.roads@.dom().map(|key: (i64, i64, i64)| OriginalRoad::from_sort_key(key))
    }

    /// The intersections of the network.
    pub closed spec fn intersections(&self) -> Set<NodeID> {
        self.intersections@.dom().map(|n: i64| NodeID(n))
    }

    /// Whether some road of the network was cut from way `way`.
    pub open spec fn uses_way(&self, way: int) -> bool {
        exists|r: OriginalRoad| self.roads().contains(r) && r.osm_way_id.0 == way
    }

    /// Whether the network has an intersection numbered `node`.
    pub open spec fn uses_node(&self, node: int) -> bool {
        exists|n: NodeID| self.intersections().contains(n) && n.0 == node
    }

    /// Both collections are finite.
    pub proof fn lemma_finite(&self)
        ensures
            self.roads().finite(),
            self.intersections().finite(),
    {
        self.roads@.dom().lemma_map_finite(|key: (i64, i64, i64)| OriginalRoad::from_sort_key(key));
        self.intersections@.dom().lemma_map_finite(|n: i64| NodeID(n));
    }

    proof fn lemma_road_member(&self, r: OriginalRoad)
        ensures
            self.roads().contains(r) == self.roads@.dom().contains(r.sort_key()),
    {
        if self.roads@.dom().contains(r.sort_key()) {
            assert(OriginalRoad::from_sort_key(r.sort_key()) == r);
        }
    }

    proof fn lemma_intersection_member(&self, n: NodeID)
        ensures
            self.intersections().contains(n) == self.intersections@.dom().contains(n.0),
    {
        if self.intersections@.dom().contains(n.0) {
            assert(NodeID(n.0) == n);
        }
    }

    /// A network without roads or intersections.
    pub fn blank() -> (s: StreetNetwork)
        ensures
            s.roads() == Set::<OriginalRoad>::empty(),
            s.intersections() == Set::<NodeID>::empty(),
    {
        let s = StreetNetwork { roads: BTreeMap::new(), intersections: BTreeMap::new() };
        assert(s.roads() =~= Set::<OriginalRoad>::empty());
        assert(s.intersections() =~= Set::<NodeID>::empty());
        s
    }

    /// Adds a road. Returns whether the road is new to the network.
    pub fn insert_road(&mut self, road: OriginalRoad) -> (fresh: bool)
        ensures
            final(self).roads() == old(self).roads().insert(road),
            final(self).intersections() == old(self).intersections(),
            fresh == !old(self).roads().contains(road),
    {
        proof {
            self.lemma_road_member(road);
        }
        let fresh = self.roads.insert((road.osm_way_id.0, road.i1.0, road.i2.0), ()).is_none();
        proof {
            assert forall|r: OriginalRoad|
                self.roads().contains(r) == old(self).roads().insert(road).contains(r) by {
                self.lemma_road_member(r);
                old(self).lemma_road_member(r);
            }
            assert(self.roads() =~= old(self).roads().insert(road));
        }
        fresh
    }

    /// Adds an intersection. Returns whether it is new to the network.
    pub fn insert_intersection(&mut self, node: NodeID) -> (fresh: bool)
        ensures
            final(self).intersections() == old(self).intersections().insert(node),
            final(self).roads() == old(self).roads(),
            fresh == !old(self).intersections().contains(node),
    {
        proof {
            self.lemma_intersection_member(node);
        }
        let fresh = self.intersections.insert(node.0, ()).is_none();
        proof {
            assert forall|n: NodeID|
                self.intersections().contains(n) == old(self).intersections().insert(
                    node,
                ).contains(n) by {
                self.lemma_intersection_member(n);
                old(self).lemma_intersection_member(n);
            }
            assert(self.intersections() =~= old(self).intersections().insert(node));
        }
        fresh
    }

    /// Whether the road is part of the network.
    pub fn has_road(&self, road: &OriginalRoad) -> (found: bool)
        ensures
            found == self.roads().contains(*road),
    {
        proof {
            self.lemma_road_member(*road);
        }
        self.roads.contains_key(&(road.osm_way_id.0, road.i1.0, road.i2.0))
    }

    /// Whether the intersection is part of the network.
    pub fn has_intersection(&self, node: NodeID) -> (found: bool)
        ensures
            found == self.intersections().contains(node),
            found == self.uses_node(node.0 as int),
    {
        proof {
            self.lemma_intersection_member(node);
            if self.uses_node(node.0 as int) {
                let n = choose|n: NodeID| self.intersections().contains(n) && n.0 == node.0;
                assert(n == node);
            }
        }
        self.intersections.contains_key(&node.0)
    }

    /// Whether some road of the network was cut from the given way. Looks at
    /// every road in turn.
    pub fn has_road_on_way(&self, way: WayID) -> (found: bool)
        ensures
            found == self.uses_way(way.0 as int),
    {
        let mut found = false;
        for key in it: self.roads.keys()
            invariant
                it.seq().unref().to_set() == self.roads@.dom(),
                found == exists|j: int| 0 <= j < it.index() && it.seq()[j].0 == way.0,
        {
            if key.0 == way.0 {
                found = true;
            }
        }
        proof {
            let keys = self.roads.keys().remaining();
            if found {
                let j = choose|j: int| 0 <= j < keys.len() && keys[j].0 == way.0;
                assert(keys.unref()[j] == *keys[j]);
                assert(keys.unref().contains(*keys[j]));
                let r = OriginalRoad::from_sort_key(*keys[j]);
                self.lemma_road_member(r);
                assert(self.roads().contains(r) && r.osm_way_id.0 == way.0);
            }
            if self.uses_way(way.0 as int) {
                let r = choose|r: OriginalRoad| self.roads().contains(r) && r.osm_way_id.0 == way.0;
                self.lemma_road_member(r);
                assert(keys.unref().contains(r.sort_key()));
                let j = choose|j: int| 0 <= j < keys.unref().len() && keys.unref()[j] == r.sort_key();
                assert(*keys[j] == r.sort_key());
            }
        }
        found
    }

    /// The roads of the network, in increasing order: by way, then by first
    /// intersection, then by second.
    pub fn road_keys(&self) -> (keys: Vec<OriginalRoad>)
        ensures
            keys@.to_set() == self.roads(),
            forall|i: int, j: int|
                0 <= i < j < keys@.len() ==> triple_before(
                    #[trigger] keys@[i].sort_key(),
                    #[trigger] keys@[j].sort_key(),
                ),
    {
        let mut keys: Vec<OriginalRoad> = Vec::new();
        for key in it: self.roads.keys()
            invariant
                keys@.len() == it.index(),
                forall|i: int|
                    0 <= i < keys@.len() ==> (#[trigger] keys@[i]).sort_key() == *it.seq()[i],
        {
            keys.push(OriginalRoad { osm_way_id: WayID(key.0), i1: NodeID(key.1), i2: NodeID(key.2) });
        }
        proof {
            let seq = self.roads.keys().remaining();
            assert forall|r: OriginalRoad| keys@.to_set().contains(r) == self.roads().contains(
                r,
            ) by {
                self.lemma_road_member(r);
                if keys@.to_set().contains(r) {
                    let i = choose|i: int| 0 <= i < keys@.len() && keys@[i] == r;
                    assert(seq.unref()[i] == r.sort_key());
                    assert(seq.unref().contains(r.sort_key()));
                }
                if self.roads().contains(r) {
                    assert(seq.unref().contains(r.sort_key()));
                    let i = choose|i: int|
                        0 <= i < seq.unref().len() && seq.unref()[i] == r.sort_key();
                    assert(keys@[i].sort_key() == r.sort_key());
                }
            }
            assert(keys@.to_set() =~= self.roads());
            lemma_triples_increase(seq);
        }
        keys
    }

    /// The intersections of the network, in increasing order.
    pub fn intersection_ids(&self) -> (ids: Vec<NodeID>)
        ensures
            ids@.to_set() == self.intersections(),
            forall|i: int, j: int|
                0 <= i < j < ids@.len() ==> (#[trigger] ids@[i]).0 < (#[trigger] ids@[j]).0,
    {
        let mut ids: Vec<NodeID> = Vec::new();
        for key in it: self.intersections.keys()
            invariant
                ids@.len() == it.index(),
                forall|i: int| 0 <= i < ids@.len() ==> (#[trigger] ids@[i]).0 == *it.seq()[i],
        {
            ids.push(NodeID(*key));
        }
        proof {
            let seq = self.intersections.keys().remaining();
            assert forall|n: NodeID| ids@.to_set().contains(n) == self.intersections().contains(
                n,
            ) by {
                self.lemma_intersection_member(n);
                if ids@.to_set().contains(n) {
                    let i = choose|i: int| 0 <= i < ids@.len() && ids@[i] == n;
                    assert(seq.unref()[i] == n.0);
                    assert(seq.unref().contains(n.0));
                }
                if self.intersections().contains(n) {
                    assert(seq.unref().contains(n.0));
                    let i = choose|i: int| 0 <= i < seq.unref().len() && seq.unref()[i] == n.0;
                    assert(ids@[i].0 == n.0);
                }
            }
            assert(ids@.to_set() =~= self.intersections());
            lemma_numbers_increase(seq);
        }
        ids
    }

    /// The number of roads.
    pub fn num_roads(&self) -> (n: usize)
        ensures
            n == self.roads().len(),
    {
        proof {
            self.lemma_road_count();
        }
        self.roads.len()
    }

    /// The number of intersections.
    pub fn num_intersections(&self) -> (n: usize)
        ensures
            n == self.intersections().len(),
    {
        proof {
            self.lemma_intersection_count();
        }
        self.intersections.len()
    }

    proof fn lemma_road_count(&self)
        ensures
            self.roads().len() == self.roads@.dom().len(),
    {
        let f = |key: (i64, i64, i64)| OriginalRoad::from_sort_key(key);
        assert forall|a: (i64, i64, i64), b: (i64, i64, i64)| #[trigger] f(a) == #[trigger] f(b) implies a == b by {
            assert(f(a).sort_key() == a);
            assert(f(b).sort_key() == b);
        }
        lemma_map_size(self.roads@.dom(), self.roads(), f);
    }

    proof fn lemma_intersection_count(&self)
        ensures
            self.intersections().len() == self.intersections@.dom().len(),
    {
        let f = |n: i64| NodeID(n);
        assert forall|a: i64, b: i64| #[trigger] f(a) == #[trigger] f(b) implies a == b by {
            assert(f(a).0 == a);
            assert(f(b).0 == b);
        }
        lemma_map_size(self.intersections@.dom(), self.intersections(), f);
    }
}

} // verus!
