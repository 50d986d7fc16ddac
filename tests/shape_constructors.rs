use gridava::coordinate::Axial;
use gridava::grid::{GridError, HexOrientation, TileCollectionError};
use gridava::shape_constructors::{Inequality, InequalityError};

#[test]
fn inequality_of_no_points_is_an_error() {
    let err = Inequality::new(&[]).err().unwrap();
    assert_eq!(err, InequalityError::EmptyInputArray);
    assert_eq!(err.message(), "Cannot create an Inequality with an empty array");
}

#[test]
fn inequality_bounds() {
    let e = Inequality::new(&[Axial { q: 0, r: 0 }, Axial { q: 0, r: 1 }, Axial { q: 1, r: 0 }]).unwrap();
    assert_eq!((e.q_min, e.q_max, e.r_min, e.r_max, e.s_min, e.s_max), (0, 1, 0, 1, -1, 0));
    assert_eq!(e.q_stride(), 1);
    assert_eq!(e.r_stride(), 1);
    assert_eq!(e.largest_stride(), 1);
}

#[test]
fn inequality_solve_triangle() {
    let e = Inequality::new(&[Axial { q: 0, r: 0 }, Axial { q: 0, r: 1 }, Axial { q: 1, r: 0 }]).unwrap();
    assert_eq!(e.solve(), vec![Axial { q: 0, r: 0 }, Axial { q: 0, r: 1 }, Axial { q: 1, r: 0 }]);
}

#[test]
fn inequality_solve_line() {
    let e = Inequality::new(&[Axial { q: 0, r: 0 }, Axial { q: 0, r: 4 }]).unwrap();
    assert_eq!(e.q_stride(), 0);
    assert_eq!(e.largest_stride(), 4);
    let expected: Vec<Axial> = (0..=4).map(|r| Axial { q: 0, r }).collect();
    assert_eq!(e.solve(), expected);
}

#[test]
fn inequality_strides_of_reversed_bounds() {
    let e = Inequality { q_min: 3, q_max: -2, r_min: 0, r_max: 5, s_min: 0, s_max: 0 };
    assert_eq!(e.q_stride(), 5);
    assert_eq!(e.largest_stride(), 5);
    assert!(e.solve().is_empty());
}

#[test]
fn grid_messages() {
    assert_eq!(GridError::AccessError.message(), "Could not access the collection");
    assert_eq!(TileCollectionError::AccessError.message(), "Could not access the collection");
    assert_eq!(TileCollectionError::SetError.message(), "Could not set the tile in the collection");
    assert_eq!(HexOrientation::default(), HexOrientation::PointyTop);
}
