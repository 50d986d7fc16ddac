use gridava::tile::Tile;

#[test]
fn new() {
    assert_eq!(Tile { data: 1 }, Tile::new(Some(1)));
    assert_ne!(Tile { data: 1 }, Tile::new(None));
}

#[test]
fn tile_default() {
    assert_eq!(Tile::<i32>::default(), Tile::new(Some(0)));
}

#[test]
fn fmt() {
    let err = gridava::algorithms::FFError::InvalidSeed;
    assert!(err.message() == "provided seed is out of bounds of the provided array")
}
