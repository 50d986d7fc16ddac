//! Grid-wide types: hex orientation, errors, and the storage interface.
use vstd::prelude::*;

verus! {

/// Orientation of the hexagons in a grid.
#[derive(PartialEq, Eq, Structural, Copy, Clone, Hash, Debug)]
pub enum HexOrientation {
    /// The top of a hexagon is flat
    FlatTop,
    /// The top of a hexagon is pointy
    PointyTop,
}

impl Default for HexOrientation {
    /// Pointy-top hexagons.
    fn default() -> (r: HexOrientation)
        ensures
            r == HexOrientation::PointyTop,
    {
        HexOrientation::PointyTop
    }
}

/// Errors of a grid's tile storage.
#[derive(PartialEq, Eq, Structural, Copy, Clone, Debug)]
pub enum GridError {
    /// The collection could not be read.
    AccessError,
}

impl GridError {
    /// A description of the error.
    pub fn message(&self) -> (m: &'static str)
        ensures
            m@ == "Could not access the collection"@,
    {
        match self {
            GridError::AccessError => "Could not access the collection",
        }
    }
}

/// Errors of a collection of tiles.
#[derive(PartialEq, Eq, Structural, Copy, Clone, Debug)]
pub enum TileCollectionError {
    /// The collection could not be read.
    AccessError,
    /// A tile could not be stored.
    SetError,
}

impl TileCollectionError {
    /// A description of the error.
    pub fn message(&self) -> (m: &'static str)
        ensures
            *self == TileCollectionError::AccessError ==> m@ == "Could not access the collection"@,
            *self == TileCollectionError::SetError ==> m@
                == "Could not set the tile in the collection"@,
    {
        match self {
            TileCollectionError::AccessError => "Could not access the collection",
            TileCollectionError::SetError => "Could not set the tile in the collection",
        }
    }
}

/// The storage a grid keeps its data in, for users to implement: assigning `data` to a
/// coordinate, as a map's `insert` does.
pub trait Collection<C, T> {
    fn set(&mut self, coord: C, data: T);
}

/// A two-dimensional vector.
#[derive(Copy, Clone, PartialEq, Debug)]
pub struct Vector2D<T> {
    /// x axis
    pub x: T,
    /// y axis
    pub y: T,
}

} // verus!
