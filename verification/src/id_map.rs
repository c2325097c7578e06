//! An ordered map keyed by object identifier.

use crate::order::{lemma_pairs_increase, pair_before};
use crate::osm::{NodeID, OsmID, RelationID, WayID};
use std::collections::BTreeMap;
use vstd::prelude::*;
use vstd::set_lib::{lemma_len_subset, lemma_map_size};
use vstd::std_specs::iter::IteratorSpec;

verus! {

/// A map from object identifiers to values. Every identifier is bound at
/// most once, and the entries are kept in the order of their identifiers:
/// nodes before ways before relations, and by number within one kind.
pub struct OsmIdMap<V> {
    entries: BTreeMap<(u8, i64), V>,
}

impl<V> OsmIdMap<V> {
    #[verifier::type_invariant]
    spec fn keys_stand_for_identifiers(&self) -> bool {
        forall|key: (u8, i64)| self.entries@.contains_key(key) ==> key.0 <= 2
    }

    /// The map as a mathematical map.
    pub closed spec fn view(&self) -> Map<OsmID, V> {
        Map::new(
            |id: OsmID| self.entries@.contains_key(id.sort_key()),
            |id: OsmID| self.entries@[id.sort_key()],
        )
    }

    /// The map binds finitely many identifiers.
    pub proof fn lemma_finite(&self)
        ensures
            self@.dom().finite(),
    {
        let decode = |key: (u8, i64)| OsmID::from_sort_key(key);
        let image = self.entries@.dom().map(decode);
        self.entries@.dom().lemma_map_finite(decode);
        assert forall|id: OsmID| self@.dom().contains(id) implies image.contains(id) by {
            assert(decode(id.sort_key()) == id);
        }
        lemma_len_subset(self@.dom(), image);
    }

    /// An empty map.
    pub fn new() -> (m: Self)
        ensures
            m@ == Map::<OsmID, V>::empty(),
    {
        let m = OsmIdMap { entries: BTreeMap::new() };
        assert(m@ =~= Map::<OsmID, V>::empty());
        m
    }

    /// Binds `id` to `value`. Returns the value that `id` was bound to
    /// before, if any.
    pub fn insert(&mut self, id: OsmID, value: V) -> (previous: Option<V>)
        ensures
            final(self)@ == old(self)@.insert(id, value),
            previous == if old(self)@.contains_key(id) {
                Some(old(self)@[id])
            } else {
                None
            },
    {
        proof {
            use_type_invariant(&*self);
        }
        let key = id.to_sort_key();
        let mut entries = BTreeMap::new();
        std::mem::swap(&mut entries, &mut self.entries);
        let previous = entries.insert(key, value);
        self.entries = entries;
        assert(self@ =~= old(self)@.insert(id, value));
        previous
    }

    /// Whether `id` is bound.
    pub fn contains_key(&self, id: &OsmID) -> (found: bool)
        ensures
            found == self@.contains_key(*id),
    {
        let key = id.to_sort_key();
        self.entries.contains_key(&key)
    }

    /// The value that `id` is bound to, if any.
    pub fn get(&self, id: &OsmID) -> (value: Option<&V>)
        ensures
            value == if self@.contains_key(*id) {
                Some(&self@[*id])
            } else {
                None
            },
    {
        let key = id.to_sort_key();
        self.entries.get(&key)
    }

    /// The number of identifiers bound.
    pub fn len(&self) -> (n: usize)
        ensures
            n == self@.dom().len(),
    {
        proof {
            use_type_invariant(self);
            let decode = |key: (u8, i64)| OsmID::from_sort_key(key);
            assert forall|a: (u8, i64), b: (u8, i64)|
                self.entries@.dom().contains(a) && self.entries@.dom().contains(b)
                    && #[trigger] decode(a) == #[trigger] decode(b) implies a == b by {
                assert(decode(a).sort_key() == a);
                assert(decode(b).sort_key() == b);
            }
            assert forall|id: OsmID|
                self@.dom().contains(id) == self.entries@.dom().map(decode).contains(id) by {
                if self@.dom().contains(id) {
                    assert(decode(id.sort_key()) == id);
                }
            }
            assert(self.entries@.dom().map(decode) =~= self@.dom());
            lemma_map_size(self.entries@.dom(), self@.dom(), decode);
        }
        self.entries.len()
    }

    /// The identifiers bound, in increasing order.
    pub fn keys(&self) -> (keys: Vec<OsmID>)
        ensures
            keys@.to_set() == self@.dom(),
            forall|i: int, j: int|
                0 <= i < j < keys@.len() ==> pair_before(
                    #[trigger] keys@[i].sort_key(),
                    #[trigger] keys@[j].sort_key(),
                ),
    {
        proof {
            use_type_invariant(self);
        }
        let mut keys: Vec<OsmID> = Vec::new();
        for key in it: self.entries.keys()
            invariant
                it.seq().unref().to_set() == self.entries@.dom(),
                forall|key: (u8, i64)| self.entries@.contains_key(key) ==> key.0 <= 2,
                keys@.len() == it.index(),
                forall|i: int| 0 <= i < keys@.len() ==> (#[trigger] keys@[i]).sort_key() == *it.seq()[i],
        {
            proof {
                assert(it.seq().unref()[it.index()] == *key);
                assert(it.seq().unref().contains(*key));
                assert(self.entries@.dom().contains(*key));
                assert(self.entries@.contains_key(*key));
            }
            let id = if key.0 == 0 {
                OsmID::Node(NodeID(key.1))
            } else if key.0 == 1 {
                OsmID::Way(WayID(key.1))
            } else {
                OsmID::Relation(RelationID(key.1))
            };
            keys.push(id);
        }
        proof {
            let seq = self.entries.keys().remaining();
            assert forall|id: OsmID| keys@.to_set().contains(id) == self@.dom().contains(id) by {
                if keys@.to_set().contains(id) {
                    let i = choose|i: int| 0 <= i < keys@.len() && keys@[i] == id;
                    assert(seq.unref()[i] == id.sort_key());
                    assert(seq.unref().contains(id.sort_key()));
                }
                if self@.dom().contains(id) {
                    assert(seq.unref().contains(id.sort_key()));
                    let i = choose|i: int| 0 <= i < seq.unref().len() && seq.unref()[i] == id.sort_key();
                    assert(keys@[i].sort_key() == id.sort_key());
                    assert(keys@[i] == id);
                }
            }
            assert(keys@.to_set() =~= self@.dom());
            lemma_pairs_increase(seq);
        }
        keys
    }

    /// Whether nothing is bound.
    pub fn is_empty(&self) -> (empty: bool)
        ensures
            empty == self@.is_empty(),
    {
        proof {
            use_type_invariant(self);
            if self@.is_empty() && !self.entries@.is_empty() {
                let key = choose|key: (u8, i64)| self.entries@.dom().contains(key);
                assert(self@.dom().contains(OsmID::from_sort_key(key)));
            }
            if self.entries@.is_empty() {
                assert(self@.dom() =~= Set::<OsmID>::empty());
            }
        }
        self.entries.is_empty()
    }
}

} // verus!
