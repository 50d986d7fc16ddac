use gridava::coordinate::{Axes, Axial, HexDirection};
use gridava::edge::{Edge, EdgeDirection};
use gridava::vertex::{Vertex, VertexDirection};

#[test]
    fn algorithms_make_vector() {
        assert_eq!(Axial { q: 6, r: 4 }.make_vector(4, 0), Axial { q: 10, r: 4 });
        assert_eq!(Axial { q: 6, r: 4 }.make_vector(4, 1), Axial { q: 6, r: 8 });
        assert_eq!(Axial { q: 6, r: 4 }.make_vector(4, 2), Axial { q: 2, r: 8 });
        assert_eq!(Axial { q: 6, r: 4 }.make_vector(4, 3), Axial { q: 2, r: 4 });
        assert_eq!(Axial { q: 6, r: 4 }.make_vector(4, 4), Axial { q: 6, r: 0 });
        assert_eq!(Axial { q: 6, r: 4 }.make_vector(4, 5), Axial { q: 10, r: 0 });
    }


#[test]
    fn algorithms_neighbor() {
        assert_eq!(Axial { q: 6, r: 4 }.neighbor(HexDirection::Back), Axial { q: 5, r: 4 });
        assert_eq!(Axial { q: 6, r: 4 }.neighbor(HexDirection::BackLeft), Axial { q: 6, r: 3 });
        assert_eq!(Axial { q: 6, r: 4 }.neighbor(HexDirection::BackRight), Axial { q: 5, r: 5 });
        assert_eq!(Axial { q: 6, r: 4 }.neighbor(HexDirection::Front), Axial { q: 7, r: 4 });
        assert_eq!(Axial { q: 6, r: 4 }.neighbor(HexDirection::FrontLeft), Axial { q: 7, r: 3 });
        assert_eq!(
            Axial { q: 6, r: 4 }.neighbor(HexDirection::FrontRight),
            Axial { q: 6, r: 5 }
        );
    }


#[test]
    fn algorithms_distance() {
        assert_eq!(Axial { q: -1, r: -1 }.distance(Axial { q: -1, r: -1 }), 0);
        assert_eq!(Axial { q: -1, r: -1 }.distance(Axial { q: 1, r: -1 }), 2);
        assert_eq!(Axial { q: -1, r: -1 }.distance(Axial { q: -1, r: 1 }), 2);
        assert_eq!(Axial { q: -1, r: -1 }.distance(Axial { q: 2, r: 1 }), 5);
    }


#[test]
    fn algorithms_line() {
        assert_eq!(
            Axial { q: -1, r: -1 }.line(Axial { q: -1, r: 1 }),
            vec![Axial { q: -1, r: -1 }, Axial { q: -1, r: 0 }, Axial { q: -1, r: 1 }]
        );
        assert_eq!(
            Axial { q: -1, r: -1 }.line(Axial { q: 1, r: -1 }),
            vec![Axial { q: -1, r: -1 }, Axial { q: 0, r: -1 }, Axial { q: 1, r: -1 }]
        );
        assert_eq!(
            Axial { q: -1, r: -1 }.line(Axial { q: 0, r: 1 }),
            vec![Axial { q: -1, r: -1 }, Axial { q: -1, r: 0 }, Axial { q: 0, r: 0 }, Axial { q: 0, r: 1 }]
        );
        assert_eq!(
            Axial { q: -1, r: -1 }.line(Axial { q: 1, r: 0 }),
            vec![Axial { q: -1, r: -1 }, Axial { q: 0, r: -1 }, Axial { q: 0, r: 0 }, Axial { q: 1, r: 0 }]
        );
        assert_eq!(
            Axial { q: -1, r: -1 }.line(Axial { q: 1, r: 1 }),
            vec![
                Axial { q: -1, r: -1 },
                Axial { q: 0, r: -1 },
                Axial { q: 0, r: 0 },
                Axial { q: 0, r: 1 },
                Axial { q: 1, r: 1 }
            ]
        );
        assert_eq!(
            Axial { q: -1, r: 1 }.line(Axial { q: 1, r: -1 }),
            vec![Axial { q: -1, r: 1 }, Axial { q: 0, r: 0 }, Axial { q: 1, r: -1 }]
        );
        assert_eq!(
            Axial { q: 1, r: 3 }.line(Axial { q: 3, r: 1 }),
            vec![Axial { q: 1, r: 3 }, Axial { q: 2, r: 2 }, Axial { q: 3, r: 1 }]
        );
        assert_eq!(
            Axial { q: 0, r: 0 }.line(Axial { q: 1, r: 1 }),
            vec![Axial { q: 0, r: 0 }, Axial { q: 0, r: 1 }, Axial { q: 1, r: 1 }]
        );
    }


#[test]
    fn algorithms_range() {
        assert_eq!(Axial { q: 0, r: 0 }.range(0), vec![Axial { q: 0, r: 0 }]);
        assert_eq!(
            Axial { q: 0, r: 0 }.range(1),
            vec![
                Axial { q: -1, r: 0 },
                Axial { q: -1, r: 1 },
                Axial { q: 0, r: -1 },
                Axial { q: 0, r: 0 },
                Axial { q: 0, r: 1 },
                Axial { q: 1, r: -1 },
                Axial { q: 1, r: 0 }
            ]
        );
        assert_eq!(
            Axial { q: 0, r: 0 }.range(3),
            vec![
                Axial { q: -3, r: 0 },
                Axial { q: -3, r: 1 },
                Axial { q: -3, r: 2 },
                Axial { q: -3, r: 3 },
                Axial { q: -2, r: -1 },
                Axial { q: -2, r: 0 },
                Axial { q: -2, r: 1 },
                Axial { q: -2, r: 2 },
                Axial { q: -2, r: 3 },
                Axial { q: -1, r: -2 },
                Axial { q: -1, r: -1 },
                Axial { q: -1, r: 0 },
                Axial { q: -1, r: 1 },
                Axial { q: -1, r: 2 },
                Axial { q: -1, r: 3 },
                Axial { q: 0, r: -3 },
                Axial { q: 0, r: -2 },
                Axial { q: 0, r: -1 },
                Axial { q: 0, r: 0 },
                Axial { q: 0, r: 1 },
                Axial { q: 0, r: 2 },
                Axial { q: 0, r: 3 },
                Axial { q: 1, r: -3 },
                Axial { q: 1, r: -2 },
                Axial { q: 1, r: -1 },
                Axial { q: 1, r: 0 },
                Axial { q: 1, r: 1 },
                Axial { q: 1, r: 2 },
                Axial { q: 2, r: -3 },
                Axial { q: 2, r: -2 },
                Axial { q: 2, r: -1 },
                Axial { q: 2, r: 0 },
                Axial { q: 2, r: 1 },
                Axial { q: 3, r: -3 },
                Axial { q: 3, r: -2 },
                Axial { q: 3, r: -1 },
                Axial { q: 3, r: 0 },
            ]
        );
    }


#[test]
    fn algorithms_reflect() {
        assert_eq!(Axial { q: -1, r: 1 }.reflect(None, Axes::Q), Axial { q: -1, r: 0 });
        assert_eq!(
            Axial { q: 1, r: 3 }.reflect(Some(Axial { q: 1, r: 2 }), Axes::Q),
            Axial { q: 1, r: 1 }
        );

        assert_eq!(Axial { q: -1, r: 1 }.reflect(None, Axes::R), Axial { q: 0, r: 1 });
        assert_eq!(
            Axial { q: 1, r: 3 }.reflect(Some(Axial { q: 1, r: 2 }), Axes::R),
            Axial { q: 0, r: 3 }
        );

        assert_eq!(Axial { q: -1, r: 1 }.reflect(None, Axes::S), Axial { q: 1, r: -1 });
        assert_eq!(
            Axial { q: 1, r: 3 }.reflect(Some(Axial { q: 1, r: 2 }), Axes::S),
            Axial { q: 2, r: 2 }
        );
    }


#[test]
    fn algorithms_rotate() {
        // CW
        assert_eq!(Axial { q: -1, r: 1 }.rotate(None, 1), Axial { q: -1, r: 0 });
        assert_eq!(Axial { q: -1, r: 1 }.rotate(None, 2), Axial { q: 0, r: -1 });
        assert_eq!(Axial { q: -1, r: 1 }.rotate(None, 3), Axial { q: 1, r: -1 });
        assert_eq!(Axial { q: -1, r: 1 }.rotate(None, 7), Axial { q: -1, r: 0 });
        assert_eq!(Axial { q: -1, r: 1 }.rotate(None, 8), Axial { q: 0, r: -1 });
        assert_eq!(Axial { q: -1, r: 1 }.rotate(None, 9), Axial { q: 1, r: -1 });

        // CCW
        assert_eq!(Axial { q: -1, r: 1 }.rotate(None, -1), Axial { q: 0, r: 1 });
        assert_eq!(Axial { q: -1, r: 1 }.rotate(None, -2), Axial { q: 1, r: 0 });
        assert_eq!(Axial { q: -1, r: 1 }.rotate(None, -3), Axial { q: 1, r: -1 });

        // About non (0, 0) center
        assert_eq!(Axial { q: 0, r: 0 }.rotate(Some(Axial { q: 1, r: 1 }), 1), Axial { q: 2, r: -1 });
        assert_eq!(Axial { q: 0, r: 0 }.rotate(Some(Axial { q: 1, r: 1 }), 2), Axial { q: 3, r: 0 });
        assert_eq!(Axial { q: 0, r: 0 }.rotate(Some(Axial { q: 1, r: 1 }), 3), Axial { q: 2, r: 2 });
    }

#[test]
    fn from_tuple() {
        assert_eq!(<(i32, i32)>::from(Axial { q: 0, r: 0 }), (0, 0));
    }


#[test]
    fn hex_dir_from() {
        assert_eq!(HexDirection::from(0), HexDirection::Front);
        assert_eq!(HexDirection::from(5), HexDirection::from(-1));
        assert_eq!(HexDirection::from(4), HexDirection::from(-2));
        assert_eq!(HexDirection::from(3), HexDirection::from(-3));
        assert_eq!(HexDirection::from(2), HexDirection::from(-4));
        assert_eq!(HexDirection::from(1), HexDirection::from(-5));
        assert_eq!(HexDirection::from(6), HexDirection::from(-6));
        assert_eq!(HexDirection::from(6), HexDirection::from(0));
    }


#[test]
    fn compute_s() {
        assert_eq!(Axial { q: 4, r: 3 }.compute_s(), -7);
        assert_eq!(Axial { q: -3, r: -2 }.compute_s(), 5);
    }


#[test]
    fn swizzle_l() {
        assert_eq!(Axial { q: 4, r: 3 }.swizzle_l(), Axial { q: 3, r: -7 });
    }


#[test]
    fn swizzle_r() {
        assert_eq!(Axial { q: 4, r: 3 }.swizzle_r(), Axial { q: -7, r: 4 });
    }


#[test]
    fn neighbors() {
        assert_eq!(
            Axial { q: 0, r: 0 }.neighbors(),
            [
                Axial { q: 1, r: 0 },
                Axial { q: 0, r: 1 },
                Axial { q: -1, r: 1 },
                Axial { q: -1, r: 0 },
                Axial { q: 0, r: -1 },
                Axial { q: 1, r: -1 }
            ]
        )
    }


#[test]
    fn coordinate_are_neighbors() {
        assert!(Axial { q: 0, r: 0 }.are_neighbors(&[Axial { q: 1, r: 0 }]));
        assert!(!Axial { q: 0, r: 0 }.are_neighbors(&[Axial { q: 1, r: 1 }]));
    }


#[test]
    fn coordinate_add() {
        assert_eq!(Axial { q: 4, r: 2 } + Axial { q: 1, r: 3 }, Axial { q: 5, r: 5 });
    }


#[test]
    fn sub() {
        assert_eq!(Axial { q: 4, r: 2 } - Axial { q: 1, r: 3 }, Axial { q: 3, r: -1 });
    }


#[test]
    fn mul() {
        assert_eq!(Axial { q: 4, r: 2 } * 2, Axial { q: 8, r: 4 });
        assert_eq!(Axial { q: 4, r: 2 } * 0, Axial { q: 0, r: 0 });
    }


#[test]
    fn div() {
        assert_eq!(Axial { q: 4, r: 2 } / 2, Axial { q: 2, r: 1 });
        assert_eq!(Axial { q: 41, r: 23 } / 6, Axial { q: 6, r: 3 });
    }


#[test]
    fn coordinate_make_vector() {
        assert_eq!(Axial { q: 6, r: 4 }.make_vector(4, 0), Axial { q: 10, r: 4 });
        assert_eq!(Axial { q: 6, r: 4 }.make_vector(4, 1), Axial { q: 6, r: 8 });
        assert_eq!(Axial { q: 6, r: 4 }.make_vector(4, 2), Axial { q: 2, r: 8 });
        assert_eq!(Axial { q: 6, r: 4 }.make_vector(4, 3), Axial { q: 2, r: 4 });
        assert_eq!(Axial { q: 6, r: 4 }.make_vector(4, 4), Axial { q: 6, r: 0 });
        assert_eq!(Axial { q: 6, r: 4 }.make_vector(4, 5), Axial { q: 10, r: 0 });
    }


#[test]
    fn coordinate_neighbor() {
        assert_eq!(Axial { q: 6, r: 4 }.neighbor(HexDirection::Back), Axial { q: 5, r: 4 });
        assert_eq!(Axial { q: 6, r: 4 }.neighbor(HexDirection::BackLeft), Axial { q: 6, r: 3 });
        assert_eq!(Axial { q: 6, r: 4 }.neighbor(HexDirection::BackRight), Axial { q: 5, r: 5 });
        assert_eq!(Axial { q: 6, r: 4 }.neighbor(HexDirection::Front), Axial { q: 7, r: 4 });
        assert_eq!(Axial { q: 6, r: 4 }.neighbor(HexDirection::FrontLeft), Axial { q: 7, r: 3 });
        assert_eq!(
            Axial { q: 6, r: 4 }.neighbor(HexDirection::FrontRight),
            Axial { q: 6, r: 5 }
        );
    }


#[test]
    fn coordinate_distance() {
        assert_eq!(Axial { q: -1, r: -1 }.distance(Axial { q: -1, r: -1 }), 0);
        assert_eq!(Axial { q: -1, r: -1 }.distance(Axial { q: 1, r: -1 }), 2);
        assert_eq!(Axial { q: -1, r: -1 }.distance(Axial { q: -1, r: 1 }), 2);
        assert_eq!(Axial { q: -1, r: -1 }.distance(Axial { q: 2, r: 1 }), 5);
    }


#[test]
    fn coordinate_line() {
        assert_eq!(
            Axial { q: -1, r: -1 }.line(Axial { q: -1, r: 1 }),
            vec![Axial { q: -1, r: -1 }, Axial { q: -1, r: 0 }, Axial { q: -1, r: 1 }]
        );
        assert_eq!(
            Axial { q: -1, r: -1 }.line(Axial { q: 1, r: -1 }),
            vec![Axial { q: -1, r: -1 }, Axial { q: 0, r: -1 }, Axial { q: 1, r: -1 }]
        );
        assert_eq!(
            Axial { q: -1, r: -1 }.line(Axial { q: 0, r: 1 }),
            vec![Axial { q: -1, r: -1 }, Axial { q: -1, r: 0 }, Axial { q: 0, r: 0 }, Axial { q: 0, r: 1 }]
        );
        assert_eq!(
            Axial { q: -1, r: -1 }.line(Axial { q: 1, r: 0 }),
            vec![Axial { q: -1, r: -1 }, Axial { q: 0, r: -1 }, Axial { q: 0, r: 0 }, Axial { q: 1, r: 0 }]
        );
        assert_eq!(
            Axial { q: -1, r: -1 }.line(Axial { q: 1, r: 1 }),
            vec![
                Axial { q: -1, r: -1 },
                Axial { q: 0, r: -1 },
                Axial { q: 0, r: 0 },
                Axial { q: 0, r: 1 },
                Axial { q: 1, r: 1 }
            ]
        );
        assert_eq!(
            Axial { q: -1, r: 1 }.line(Axial { q: 1, r: -1 }),
            vec![Axial { q: -1, r: 1 }, Axial { q: 0, r: 0 }, Axial { q: 1, r: -1 }]
        );
        assert_eq!(
            Axial { q: 1, r: 3 }.line(Axial { q: 3, r: 1 }),
            vec![Axial { q: 1, r: 3 }, Axial { q: 2, r: 2 }, Axial { q: 3, r: 1 }]
        );
        assert_eq!(
            Axial { q: 0, r: 0 }.line(Axial { q: 1, r: 1 }),
            vec![Axial { q: 0, r: 0 }, Axial { q: 0, r: 1 }, Axial { q: 1, r: 1 }]
        );
    }


#[test]
    fn coordinate_range() {
        assert_eq!(Axial { q: 0, r: 0 }.range(0), vec![Axial { q: 0, r: 0 }]);
        assert_eq!(
            Axial { q: 0, r: 0 }.range(1),
            vec![
                Axial { q: -1, r: 0 },
                Axial { q: -1, r: 1 },
                Axial { q: 0, r: -1 },
                Axial { q: 0, r: 0 },
                Axial { q: 0, r: 1 },
                Axial { q: 1, r: -1 },
                Axial { q: 1, r: 0 }
            ]
        );
        assert_eq!(
            Axial { q: 0, r: 0 }.range(3),
            vec![
                Axial { q: -3, r: 0 },
                Axial { q: -3, r: 1 },
                Axial { q: -3, r: 2 },
                Axial { q: -3, r: 3 },
                Axial { q: -2, r: -1 },
                Axial { q: -2, r: 0 },
                Axial { q: -2, r: 1 },
                Axial { q: -2, r: 2 },
                Axial { q: -2, r: 3 },
                Axial { q: -1, r: -2 },
                Axial { q: -1, r: -1 },
                Axial { q: -1, r: 0 },
                Axial { q: -1, r: 1 },
                Axial { q: -1, r: 2 },
                Axial { q: -1, r: 3 },
                Axial { q: 0, r: -3 },
                Axial { q: 0, r: -2 },
                Axial { q: 0, r: -1 },
                Axial { q: 0, r: 0 },
                Axial { q: 0, r: 1 },
                Axial { q: 0, r: 2 },
                Axial { q: 0, r: 3 },
                Axial { q: 1, r: -3 },
                Axial { q: 1, r: -2 },
                Axial { q: 1, r: -1 },
                Axial { q: 1, r: 0 },
                Axial { q: 1, r: 1 },
                Axial { q: 1, r: 2 },
                Axial { q: 2, r: -3 },
                Axial { q: 2, r: -2 },
                Axial { q: 2, r: -1 },
                Axial { q: 2, r: 0 },
                Axial { q: 2, r: 1 },
                Axial { q: 3, r: -3 },
                Axial { q: 3, r: -2 },
                Axial { q: 3, r: -1 },
                Axial { q: 3, r: 0 },
            ]
        );
    }


#[test]
    fn coordinate_reflect() {
        assert_eq!(Axial { q: -1, r: 1 }.reflect(None, Axes::Q), Axial { q: -1, r: 0 });
        assert_eq!(
            Axial { q: 1, r: 3 }.reflect(Some(Axial { q: 1, r: 2 }), Axes::Q),
            Axial { q: 1, r: 1 }
        );

        assert_eq!(Axial { q: -1, r: 1 }.reflect(None, Axes::R), Axial { q: 0, r: 1 });
        assert_eq!(
            Axial { q: 1, r: 3 }.reflect(Some(Axial { q: 1, r: 2 }), Axes::R),
            Axial { q: 0, r: 3 }
        );

        assert_eq!(Axial { q: -1, r: 1 }.reflect(None, Axes::S), Axial { q: 1, r: -1 });
        assert_eq!(
            Axial { q: 1, r: 3 }.reflect(Some(Axial { q: 1, r: 2 }), Axes::S),
            Axial { q: 2, r: 2 }
        );
    }


#[test]
    fn coordinate_rotate() {
        // CW
        assert_eq!(Axial { q: -1, r: 1 }.rotate(None, 1), Axial { q: -1, r: 0 });
        assert_eq!(Axial { q: -1, r: 1 }.rotate(None, 2), Axial { q: 0, r: -1 });
        assert_eq!(Axial { q: -1, r: 1 }.rotate(None, 3), Axial { q: 1, r: -1 });
        assert_eq!(Axial { q: -1, r: 1 }.rotate(None, 7), Axial { q: -1, r: 0 });
        assert_eq!(Axial { q: -1, r: 1 }.rotate(None, 8), Axial { q: 0, r: -1 });
        assert_eq!(Axial { q: -1, r: 1 }.rotate(None, 9), Axial { q: 1, r: -1 });

        // CCW
        assert_eq!(Axial { q: -1, r: 1 }.rotate(None, -1), Axial { q: 0, r: 1 });
        assert_eq!(Axial { q: -1, r: 1 }.rotate(None, -2), Axial { q: 1, r: 0 });
        assert_eq!(Axial { q: -1, r: 1 }.rotate(None, -3), Axial { q: 1, r: -1 });

        // About non (0, 0) center
        assert_eq!(Axial { q: 0, r: 0 }.rotate(Some(Axial { q: 1, r: 1 }), 1), Axial { q: 2, r: -1 });
        assert_eq!(Axial { q: 0, r: 0 }.rotate(Some(Axial { q: 1, r: 1 }), 2), Axial { q: 3, r: 0 });
        assert_eq!(Axial { q: 0, r: 0 }.rotate(Some(Axial { q: 1, r: 1 }), 3), Axial { q: 2, r: 2 });
    }


#[test]
    fn edges() {
        assert_eq!(
            Axial { q: 0, r: 0 }.edges(),
            [
                Edge { q: 0, r: 0, dir: EdgeDirection::NorthEast },
                Edge { q: 1, r: 0, dir: EdgeDirection::West },
                Edge { q: 0, r: 1, dir: EdgeDirection::NorthWest },
                Edge { q: -1, r: 1, dir: EdgeDirection::NorthEast },
                Edge { q: 0, r: 0, dir: EdgeDirection::West },
                Edge { q: 0, r: 0, dir: EdgeDirection::NorthWest },
            ]
        )
    }


#[test]
    fn shared_vert_two() {
        assert!(Axial { q: 0, r: 0 }.shared_vert_two(Axial { q: 1, r: 1 }).is_none());

        assert_eq!(
            Axial { q: 0, r: 0 }.shared_vert_two(Axial { q: 1, r: 0 }).unwrap(),
            [
                Axial { q: 0, r: 0 }.vertex(VertexDirection::UpRight),
                Axial { q: 0, r: 0 }.vertex(VertexDirection::DownRight),
            ]
        );

        assert_eq!(
            Axial { q: 0, r: 0 }.shared_vert_two(Axial { q: 0, r: 1 }).unwrap(),
            [
                Axial { q: 0, r: 0 }.vertex(VertexDirection::DownRight),
                Axial { q: 0, r: 0 }.vertex(VertexDirection::Down),
            ]
        );

        assert_eq!(
            Axial { q: 0, r: 0 }.shared_vert_two(Axial { q: -1, r: 1 }).unwrap(),
            [
                Axial { q: 0, r: 0 }.vertex(VertexDirection::Down),
                Axial { q: 0, r: 0 }.vertex(VertexDirection::DownLeft),
            ]
        );

        assert_eq!(
            Axial { q: 0, r: 0 }.shared_vert_two(Axial { q: -1, r: 0 }).unwrap(),
            [
                Axial { q: 0, r: 0 }.vertex(VertexDirection::DownLeft),
                Axial { q: 0, r: 0 }.vertex(VertexDirection::UpLeft),
            ]
        );

        assert_eq!(
            Axial { q: 0, r: 0 }.shared_vert_two(Axial { q: 0, r: -1 }).unwrap(),
            [
                Axial { q: 0, r: 0 }.vertex(VertexDirection::UpLeft),
                Axial { q: 0, r: 0 }.vertex(VertexDirection::Up),
            ]
        );

        assert_eq!(
            Axial { q: 1, r: 1 }.shared_vert_two(Axial { q: 2, r: 0 }).unwrap(),
            [
                Axial { q: 1, r: 1 }.vertex(VertexDirection::Up),
                Axial { q: 1, r: 1 }.vertex(VertexDirection::UpRight),
            ]
        );
    }


#[test]
    fn shared_vert_three() {
        assert_eq!(
            Axial { q: 1, r: 1 }
                .shared_vert_three(Axial { q: 2, r: 0 }, Axial { q: 2, r: 1 })
                .unwrap(),
            Axial { q: 2, r: 0 }.vertex(VertexDirection::Down)
        );

        assert_eq!(
            Axial { q: 1, r: 1 }
                .shared_vert_three(Axial { q: 1, r: 2 }, Axial { q: 2, r: 1 })
                .unwrap(),
            Axial { q: 1, r: 2 }.vertex(VertexDirection::Up)
        );

        assert_eq!(
            Axial { q: 0, r: 0 }
                .shared_vert_three(Axial { q: 1, r: 0 }, Axial { q: 0, r: 1 })
                .unwrap(),
            Axial { q: 0, r: 1 }.vertex(VertexDirection::Up)
        );

        assert!(Axial { q: 0, r: 0 }
            .shared_vert_three(Axial { q: 1, r: 1 }, Axial { q: 3, r: 9 })
            .is_none());

        assert!(Axial { q: 0, r: 0 }
            .shared_vert_three(Axial { q: 1, r: 0 }, Axial { q: 3, r: 3 })
            .is_none());
    }

#[test]
fn rotate_full_turn_and_back() {
    let coords = [
        Axial { q: 0, r: 0 },
        Axial { q: 3, r: -7 },
        Axial { q: -5, r: 2 },
        Axial { q: 12, r: 9 },
    ];
    for a in coords {
        assert_eq!(a.rotate(None, 6), a);
        assert_eq!(a.rotate(Some(Axial { q: 2, r: -1 }), 6), a);
        for k in -13..=13 {
            assert_eq!(a.rotate(None, k).rotate(None, -k), a);
            let c = Some(Axial { q: -3, r: 4 });
            assert_eq!(a.rotate(c, k).rotate(c, -k), a);
        }
    }
}

#[test]
fn rotate_scenario() {
    assert_eq!(Axial { q: -1, r: 1 }.rotate(None, 1), Axial { q: -1, r: 0 });
}

#[test]
fn line_length_is_distance_plus_one() {
    let pts = [
        Axial { q: 0, r: 0 },
        Axial { q: 4, r: -1 },
        Axial { q: -3, r: 5 },
        Axial { q: 7, r: 7 },
        Axial { q: -6, r: -2 },
    ];
    for a in pts {
        for b in pts {
            assert_eq!(a.line(b).len() as i32, a.distance(b) + 1);
        }
    }
}

#[test]
fn line_reversed_is_line_back() {
    let pts = [
        Axial { q: 0, r: 0 },
        Axial { q: 4, r: -1 },
        Axial { q: -3, r: 5 },
        Axial { q: 7, r: 7 },
        Axial { q: -6, r: -2 },
        Axial { q: 1, r: 1 },
    ];
    for a in pts {
        for b in pts {
            let mut back = b.line(a);
            back.reverse();
            assert_eq!(a.line(b), back);
        }
    }
}

#[test]
fn line_to_itself_is_one_tile() {
    assert_eq!(Axial { q: 5, r: -2 }.line(Axial { q: 5, r: -2 }), vec![Axial { q: 5, r: -2 }]);
}

#[test]
fn line_rounds_halves_away_from_zero() {
    // The midpoint (0.5, 0.5) rounds to (1, 1); the larger remainder is then corrected.
    assert_eq!(
        Axial { q: 0, r: 0 }.line(Axial { q: 1, r: 1 }),
        vec![Axial { q: 0, r: 0 }, Axial { q: 0, r: 1 }, Axial { q: 1, r: 1 }]
    );
}

#[test]
fn neighbors_are_one_step_away() {
    for a in [Axial { q: 0, r: 0 }, Axial { q: -4, r: 9 }, Axial { q: 100, r: -50 }] {
        for n in a.neighbors() {
            assert_eq!(a.distance(n), 1);
        }
    }
}

#[test]
fn distance_scenario() {
    assert_eq!(Axial { q: 0, r: 0 }.distance(Axial { q: 2, r: 0 }), 2);
    assert_eq!(Axial { q: -1, r: 3 }.distance(Axial { q: 1, r: 1 }), 2);
}

#[test]
fn range_sizes() {
    assert_eq!(Axial { q: 0, r: 0 }.range(1).len(), 7);
    for n in 0..8 {
        assert_eq!(Axial { q: 3, r: -2 }.range(n).len() as i32, 3 * n * n + 3 * n + 1);
    }
    assert!(Axial { q: 0, r: 0 }.range(-1).is_empty());
}

#[test]
fn range_holds_exactly_the_tiles_in_reach() {
    let c = Axial { q: 2, r: -1 };
    let tiles = c.range(3);
    for t in &tiles {
        assert!(c.distance(*t) <= 3);
    }
    for q in -6..=6 {
        for r in -6..=6 {
            let t = Axial { q, r };
            assert_eq!(tiles.contains(&t), c.distance(t) <= 3);
        }
    }
}

#[test]
fn div_truncates_toward_zero() {
    assert_eq!(Axial { q: -7, r: 7 } / 2, Axial { q: -3, r: 3 });
    assert_eq!(Axial { q: 7, r: -1 } / -2, Axial { q: -3, r: 0 });
}

#[test]
fn neg_negates_both_components() {
    assert_eq!(-Axial { q: 3, r: -4 }, Axial { q: -3, r: 4 });
}

#[test]
fn hex_direction_to_i32() {
    for i in 0..6 {
        assert_eq!(i32::from(HexDirection::from(i)), i);
        assert_eq!(i32::from(HexDirection::from(i - 6)), i);
    }
}

#[test]
#[should_panic]
#[allow(unused)]
fn div_by_zero() {
    Axial { q: 41, r: 23 } / 0;
}
