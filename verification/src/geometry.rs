//! Plain geometric values carried by map features.
//!
//! Coordinates are fixed-point: one unit is a ten-thousandth of a metre in
//! map space. Nothing in this crate computes with them; they are stored and
//! handed on.

use vstd::prelude::*;

verus! {

/// A point in map space.
#[derive(Clone, Copy, Debug, PartialEq, Eq, Structural)]
pub struct Pt2D {
    pub x: i64,
    pub y: i64,
}

/// The outline of a closed shape, as the points of its boundary in order.
#[derive(Clone, Debug)]
pub struct Polygon {
    pub points: Vec<Pt2D>,
}

/// An open path, as its points in order.
#[derive(Clone, Debug)]
pub struct PolyLine {
    pub points: Vec<Pt2D>,
}

} // verus!
