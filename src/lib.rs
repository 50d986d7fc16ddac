//! Integer coordinate geometry for hexagonal and triangular tilings.

pub mod coordinate;
pub mod triangle;
pub mod vertex;
pub mod edge;
pub mod tile;
pub mod shape_constructors;
pub mod grid;
pub mod algorithms;
