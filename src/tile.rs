//! Tiles, which carry user data in a grid.
use vstd::prelude::*;

verus! {

/// The tile used by this library, holding user data of type `T`.
#[derive(Clone, PartialEq, Debug)]
pub struct Tile<T: Clone> {
    /// Data stored with a tile
    pub data: T,
}

impl<T: Default + Clone> Tile<T> {
    /// A tile holding the given data, or `T`'s default where none is given.
    pub fn new(data: Option<T>) -> (res: Tile<T>)
        ensures
            data matches Some(d) ==> res.data == d,
            data is None ==> call_ensures(T::default, (), res.data),
    {
        match data {
            Some(d) => Tile { data: d },
            None => Tile { data: T::default() },
        }
    }
}

impl<T: Default + Clone> Default for Tile<T> {
    /// A tile holding `T`'s default.
    fn default() -> (res: Tile<T>)
        ensures
            call_ensures(T::default, (), res.data),
    {
        Tile { data: T::default() }
    }
}

} // verus!
