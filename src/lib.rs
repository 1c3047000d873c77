//! Permissive field of view on a grid of tiles.
use vstd::prelude::*;

pub mod geometry;
pub mod view;
pub mod visited;
pub mod quadrant;
pub mod fov;

pub use fov::{build_fov_set, field_of_view};

verus! {

/// A tile of a grid: either open or an obstacle to sight.
#[derive(Clone, Copy, Debug, PartialEq, Eq, Structural)]
pub enum PPFOVTile {
    Empty,
    Obstacle,
}

/// An absolute grid coordinate.
#[derive(Clone, Copy, Debug, PartialEq, Eq, Hash, Structural)]
pub struct Coord {
    pub x: i32,
    pub y: i32,
}

impl Coord {
    pub fn new(x: i32, y: i32) -> (r: Self)
        ensures
            r == (Coord { x, y }),
    {
        Coord { x, y }
    }
}

} // verus!
