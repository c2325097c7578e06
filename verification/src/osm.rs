//! Identifiers of OpenStreetMap objects.
//!
//! Nodes, ways and relations are numbered independently of each other.
//! Identifiers that come from source data are non-negative; negative ones are
//! synthetic, made up while a map is built.

use vstd::prelude::*;

verus! {

/// Identifier of a node.
#[derive(Clone, Copy, Debug, PartialEq, Eq, PartialOrd, Ord, Hash, Structural)]
pub struct NodeID(pub i64);

/// Identifier of a way.
#[derive(Clone, Copy, Debug, PartialEq, Eq, PartialOrd, Ord, Hash, Structural)]
pub struct WayID(pub i64);

/// Identifier of a relation.
#[derive(Clone, Copy, Debug, PartialEq, Eq, PartialOrd, Ord, Hash, Structural)]
pub struct RelationID(pub i64);

/// Identifier of any object, tagged with the kind of object it names.
#[derive(Clone, Copy, Debug, PartialEq, Eq, PartialOrd, Ord, Hash, Structural)]
pub enum OsmID {
    Node(NodeID),
    Way(WayID),
    Relation(RelationID),
}

impl OsmID {
    /// The number behind the identifier, whatever its kind.
    pub open spec fn number(self) -> i64 {
        match self {
            OsmID::Node(n) => n.0,
            OsmID::Way(w) => w.0,
            OsmID::Relation(r) => r.0,
        }
    }

    /// Position of the identifier's kind: nodes, then ways, then relations.
    pub open spec fn kind_rank(self) -> u8 {
        match self {
            OsmID::Node(_) => 0,
            OsmID::Way(_) => 1,
            OsmID::Relation(_) => 2,
        }
    }

    /// The pair by which identifiers are ordered: first by kind, then by
    /// number.
    pub open spec fn sort_key(self) -> (u8, i64) {
        (self.kind_rank(), self.number())
    }

    /// The identifier that a valid sort key stands for.
    pub open spec fn from_sort_key(key: (u8, i64)) -> OsmID {
        if key.0 == 0 {
            OsmID::Node(NodeID(key.1))
        } else if key.0 == 1 {
            OsmID::Way(WayID(key.1))
        } else {
            OsmID::Relation(RelationID(key.1))
        }
    }

    /// The number behind the identifier, whatever its kind.
    pub fn inner_id(&self) -> (n: i64)
        ensures
            n == self.number(),
    {
        match self {
            OsmID::Node(n) => n.0,
            OsmID::Way(w) => w.0,
            OsmID::Relation(r) => r.0,
        }
    }

    /// Computes [`OsmID::sort_key`].
    pub fn to_sort_key(&self) -> (key: (u8, i64))
        ensures
            key == self.sort_key(),
            key.0 <= 2,
    {
        match self {
            OsmID::Node(n) => (0, n.0),
            OsmID::Way(w) => (1, w.0),
            OsmID::Relation(r) => (2, r.0),
        }
    }
}

} // verus!
