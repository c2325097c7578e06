//! A map from ways to sets of names.

use crate::lexical::{
    compare_names, lemma_before_transitive, lemma_sorted_list_unique, list_has, name_before,
    strictly_sorted, Placement,
};
use crate::order::lemma_numbers_increase;
use crate::osm::WayID;
use std::collections::BTreeMap;
use vstd::prelude::*;
use vstd::std_specs::iter::IteratorSpec;
use vstd::utf8::encode_utf8;

verus! {

/// A map that binds a way to any number of names. A name is bound to a way
/// at most once, and the names of a way are kept in increasing order,
/// whatever the order in which they were added.
pub struct MultiMap {
    map: BTreeMap<i64, Vec<String>>,
    empty: Vec<String>,
}

/// The names of a list, as a set of character sequences.
pub open spec fn names_of(list: Seq<String>) -> Set<Seq<char>> {
    Set::new(|name: Seq<char>| list_has(list, name))
}

/// The map `m` with `name` bound to `way` besides the names that `way` has in
/// `m`.
pub open spec fn with_name(m: Map<WayID, Set<Seq<char>>>, way: WayID, name: Seq<char>) -> Map<
    WayID,
    Set<Seq<char>>,
> {
    if m.contains_key(way) {
        m.insert(way, m[way].insert(name))
    } else {
        m.insert(way, Set::empty().insert(name))
    }
}

/// Binding two names gives the same map in either order, whether the two
/// are bound to one way or to two.
pub proof fn lemma_insert_order_irrelevant(
    m: Map<WayID, Set<Seq<char>>>,
    way1: WayID,
    name1: Seq<char>,
    way2: WayID,
    name2: Seq<char>,
)
    ensures
        with_name(with_name(m, way1, name1), way2, name2) == with_name(
            with_name(m, way2, name2),
            way1,
            name1,
        ),
{
    let left = with_name(with_name(m, way1, name1), way2, name2);
    let right = with_name(with_name(m, way2, name2), way1, name1);
    assert(left.dom() =~= right.dom());
    assert forall|way: WayID| left.contains_key(way) implies left[way] =~= right[way] by {}
    assert(left =~= right);
}

/// Binding a name a second time changes nothing.
pub proof fn lemma_insert_idempotent(m: Map<WayID, Set<Seq<char>>>, way: WayID, name: Seq<char>)
    ensures
        with_name(with_name(m, way, name), way, name) == with_name(m, way, name),
{
    let once = with_name(m, way, name);
    assert(once[way].insert(name) =~= once[way]);
    assert(with_name(once, way, name) =~= once);
}

/// Two lists that [`MultiMap::get`] may return for the same set of names
/// hold the same names at the same places: the list does not depend on the
/// order in which the names were bound.
pub proof fn lemma_list_determined_by_names(a: Seq<String>, b: Seq<String>)
    requires
        strictly_sorted(a),
        strictly_sorted(b),
        names_of(a) == names_of(b),
    ensures
        a.len() == b.len(),
        forall|i: int| 0 <= i < a.len() ==> (#[trigger] a[i])@ == b[i]@,
{
    assert forall|i: int| 0 <= i < a.len() implies list_has(b, (#[trigger] a[i])@) by {
        assert(names_of(a).contains(a[i]@));
        assert(names_of(b).contains(a[i]@));
    }
    assert forall|j: int| 0 <= j < b.len() implies list_has(a, (#[trigger] b[j])@) by {
        assert(names_of(b).contains(b[j]@));
        assert(names_of(a).contains(b[j]@));
    }
    lemma_sorted_list_unique(a, b);
}

/// Where `name` belongs in a sorted list: the position of the first entry
/// that does not come before it, and whether that entry is `name` itself.
fn find_slot(list: &Vec<String>, name: &String) -> (slot: (usize, bool))
    requires
        strictly_sorted(list@),
    ensures
        slot.0 <= list@.len(),
        forall|j: int| 0 <= j < slot.0 ==> name_before(#[trigger] list@[j]@, name@),
        slot.1 ==> slot.0 < list@.len() && list@[slot.0 as int]@ == name@,
        !slot.1 ==> forall|j: int|
            slot.0 <= j < list@.len() ==> name_before(name@, #[trigger] list@[j]@),
{
    let mut i: usize = 0;
    while i < list.len()
        invariant
            i <= list@.len(),
            strictly_sorted(list@),
            forall|j: int| 0 <= j < i ==> name_before(#[trigger] list@[j]@, name@),
        decreases list@.len() - i,
    {
        match compare_names(list[i].as_str(), name.as_str()) {
            Placement::Before => {},
            Placement::Same => {
                return (i, true);
            },
            Placement::After => {
                proof {
                    assert forall|j: int| i <= j < list@.len() implies name_before(
                        name@,
                        #[trigger] list@[j]@,
                    ) by {
                        if i < j {
                            assert(name_before(list@[i as int]@, list@[j]@));
                            lemma_before_transitive(
                                encode_utf8(name@),
                                encode_utf8(list@[i as int]@),
                                encode_utf8(list@[j]@),
                            );
                        }
                    }
                }
                return (i, false);
            },
        }
        i += 1;
    }
    (i, false)
}

/// Putting a name into its slot keeps a list sorted and adds the name, and
/// nothing else, to its names.
proof fn lemma_insert_at_slot(list: Seq<String>, at: int, name: String)
    requires
        strictly_sorted(list),
        0 <= at <= list.len(),
        forall|j: int| 0 <= j < at ==> name_before(#[trigger] list[j]@, name@),
        forall|j: int| at <= j < list.len() ==> name_before(name@, #[trigger] list[j]@),
    ensures
        strictly_sorted(list.insert(at, name)),
        names_of(list.insert(at, name)) == names_of(list).insert(name@),
{
    let longer = list.insert(at, name);
    assert forall|i: int, j: int| 0 <= i < j < longer.len() implies name_before(
        longer[i]@,
        longer[j]@,
    ) by {
        if j < at {
            assert(name_before(list[i]@, list[j]@));
        } else if j == at {
            assert(name_before(list[i]@, name@));
        } else if i < at {
            assert(name_before(list[i]@, list[j - 1]@));
        } else if i == at {
            assert(name_before(name@, list[j - 1]@));
        } else {
            assert(name_before(list[i - 1]@, list[j - 1]@));
        }
    }
    assert forall|n: Seq<char>| names_of(longer).contains(n) == names_of(list).insert(
        name@,
    ).contains(n) by {
        if names_of(longer).contains(n) {
            let i = choose|i: int| 0 <= i < longer.len() && #[trigger] longer[i]@ == n;
            if i < at {
                assert(list[i]@ == n);
            } else if i > at {
                assert(list[i - 1]@ == n);
            }
        }
        if names_of(list).contains(n) {
            let i = choose|i: int| 0 <= i < list.len() && #[trigger] list[i]@ == n;
            if i < at {
                assert(longer[i]@ == n);
            } else {
                assert(longer[i + 1]@ == n);
            }
        }
        if n == name@ {
            assert(longer[at]@ == n);
        }
    }
    assert(names_of(longer) =~= names_of(list).insert(name@));
}

impl MultiMap {
    #[verifier::type_invariant]
    spec fn lists_in_order(&self) -> bool {
        &&& self.empty@.len() == 0
        &&& forall|key: i64| #[trigger]
            self.map@.contains_key(key) ==> strictly_sorted(self.map@[key]@) && self.map@[key]@.len()
                > 0
    }

    /// The ways that have names, each with the set of its names.
    pub closed spec fn view(&self) -> Map<WayID, Set<Seq<char>>> {
        Map::new(
            |way: WayID| self.map@.contains_key(way.0),
            |way: WayID| names_of(self.map@[way.0]@),
        )
    }

    /// The names bound to `way`: none if the way has no entry.
    pub open spec fn names(&self, way: WayID) -> Set<Seq<char>> {
        if self@.contains_key(way) {
            self@[way]
        } else {
            Set::empty()
        }
    }

    /// A map without entries.
    pub fn new() -> (m: MultiMap)
        ensures
            m@ == Map::<WayID, Set<Seq<char>>>::empty(),
    {
        let m = MultiMap { map: BTreeMap::new(), empty: Vec::new() };
        assert(m@ =~= Map::<WayID, Set<Seq<char>>>::empty());
        m
    }

    /// Binds `name` to `way`, besides the names that `way` already has.
    /// Binding a name a second time changes nothing.
    pub fn insert(&mut self, way: WayID, name: String)
        ensures
            final(self)@ == with_name(old(self)@, way, name@),
            final(self).names(way) == old(self).names(way).insert(name@),
            forall|other: WayID| other != way ==> final(self).names(other) == old(self).names(other),
    {
        proof {
            use_type_invariant(&*self);
        }
        let ghost name_view = name@;
        let mut map = BTreeMap::new();
        std::mem::swap(&mut map, &mut self.map);
        let mut list = match map.remove(&way.0) {
            Some(list) => list,
            None => Vec::new(),
        };
        let ghost shorter = list@;
        assert(names_of(shorter) == old(self).names(way)) by {
            assert(names_of(shorter) =~= old(self).names(way));
        }
        let (at, present) = find_slot(&list, &name);
        if !present {
            proof {
                lemma_insert_at_slot(shorter, at as int, name);
            }
            list.insert(at, name);
        } else {
            assert(names_of(shorter).contains(name_view));
            assert(names_of(shorter) =~= names_of(shorter).insert(name_view));
        }
        map.insert(way.0, list);
        self.map = map;
        assert(self@ =~= old(self)@.insert(way, old(self).names(way).insert(name_view)));
    }

    /// The names bound to `way`, in increasing order; an empty list if the
    /// way has no entry.
    pub fn get(&self, way: WayID) -> (list: &Vec<String>)
        ensures
            names_of(list@) == self.names(way),
            strictly_sorted(list@),
            list@.len() > 0 <==> self@.contains_key(way),
    {
        proof {
            use_type_invariant(self);
        }
        match self.map.get(&way.0) {
            Some(list) => list,
            None => {
                assert(names_of(self.empty@) =~= Set::<Seq<char>>::empty());
                &self.empty
            },
        }
    }

    /// The ways that have names, in increasing order.
    pub fn keys(&self) -> (ways: Vec<WayID>)
        ensures
            ways@.to_set() == self@.dom(),
            forall|i: int, j: int|
                0 <= i < j < ways@.len() ==> (#[trigger] ways@[i]).0 < (#[trigger] ways@[j]).0,
    {
        let mut ways: Vec<WayID> = Vec::new();
        for key in it: self.map.keys()
            invariant
                ways@.len() == it.index(),
                forall|i: int| 0 <= i < ways@.len() ==> (#[trigger] ways@[i]).0 == *it.seq()[i],
        {
            ways.push(WayID(*key));
        }
        proof {
            let seq = self.map.keys().remaining();
            assert forall|w: WayID| ways@.to_set().contains(w) == self@.dom().contains(w) by {
                if ways@.to_set().contains(w) {
                    let i = choose|i: int| 0 <= i < ways@.len() && ways@[i] == w;
                    assert(seq.unref()[i] == w.0);
                    assert(seq.unref().contains(w.0));
                }
                if self@.dom().contains(w) {
                    assert(seq.unref().contains(w.0));
                    let i = choose|i: int| 0 <= i < seq.unref().len() && seq.unref()[i] == w.0;
                    assert(ways@[i].0 == w.0);
                }
            }
            assert(ways@.to_set() =~= self@.dom());
            lemma_numbers_increase(seq);
        }
        ways
    }

    /// Whether no way has a name.
    pub fn is_empty(&self) -> (empty: bool)
        ensures
            empty == self@.is_empty(),
    {
        proof {
            if self@.is_empty() && !self.map@.is_empty() {
                let key = choose|key: i64| self.map@.dom().contains(key);
                assert(self@.dom().contains(WayID(key)));
            }
            if self.map@.is_empty() {
                assert(self@.dom() =~= Set::<WayID>::empty());
            }
        }
        self.map.is_empty()
    }
}

} // verus!
