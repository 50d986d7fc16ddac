//! Vertices of hexagonal grids, addressed on the triangular lattice.
use vstd::prelude::*;
use crate::coordinate::{fits, Axial};
use crate::edge::{Edge, EdgeDirection};
use crate::triangle::{
    t_dist, t_is_down, t_sum, tri_neighbor, tri_neighbors_fit, tri_positions, Tri3, TriDirection,
    Triangle,
};

verus! {

/// Which side of a vertex has two of its three hexagons.
#[derive(PartialEq, Eq, Structural, Copy, Clone, Hash, Debug)]
pub enum VertexSpin {
    /// On top of the hex
    Up,
    /// On the bottom of the hex
    Down,
}

/// The direction of a vertex from the centre of a pointy-top hexagon, clockwise from the top.
#[derive(PartialEq, Eq, Structural, Copy, Clone, Hash, Debug)]
pub enum VertexDirection {
    /// The vertex at the top
    Up,
    /// The vertex at the top right
    UpRight,
    /// The vertex at the bottom right
    DownRight,
    /// The vertex at the bottom
    Down,
    /// The vertex at the bottom left
    DownLeft,
    /// The vertex at the top left
    UpLeft,
}

impl VertexDirection {
    /// Position of the direction in clockwise order, `Up` being 0.
    pub open spec fn index(self) -> int {
        match self {
            VertexDirection::Up => 0,
            VertexDirection::UpRight => 1,
            VertexDirection::DownRight => 2,
            VertexDirection::Down => 3,
            VertexDirection::DownLeft => 4,
            VertexDirection::UpLeft => 5,
        }
    }

    /// The direction at position `i` modulo 6.
    pub open spec fn from_index(i: int) -> VertexDirection {
        let m = i % 6;
        if m == 0 {
            VertexDirection::Up
        } else if m == 1 {
            VertexDirection::UpRight
        } else if m == 2 {
            VertexDirection::DownRight
        } else if m == 3 {
            VertexDirection::Down
        } else if m == 4 {
            VertexDirection::DownLeft
        } else {
            VertexDirection::UpLeft
        }
    }

    /// The triangle-lattice offset of the vertex from its hexagon's centre.
    pub open spec fn offset(self) -> Tri3 {
        match self {
            VertexDirection::Up => (1, 0, 1),
            VertexDirection::UpRight => (1, 0, 0),
            VertexDirection::DownRight => (1, 1, 0),
            VertexDirection::Down => (0, 1, 0),
            VertexDirection::DownLeft => (0, 1, 1),
            VertexDirection::UpLeft => (0, 0, 1),
        }
    }
}

impl From<i32> for VertexDirection {
    /// The direction at position `value` modulo 6 (never negative).
    fn from(value: i32) -> (r: VertexDirection)
        ensures
            r == VertexDirection::from_index(value as int),
    {
        let m = value % 6;
        let m = if m < 0 {
            m + 6
        } else {
            m
        };
        if m == 0 {
            VertexDirection::Up
        } else if m == 1 {
            VertexDirection::UpRight
        } else if m == 2 {
            VertexDirection::DownRight
        } else if m == 3 {
            VertexDirection::Down
        } else if m == 4 {
            VertexDirection::DownLeft
        } else {
            VertexDirection::UpLeft
        }
    }
}

impl vstd::std_specs::convert::FromSpecImpl<i32> for VertexDirection {
    open spec fn obeys_from_spec() -> bool {
        true
    }

    open spec fn from_spec(v: i32) -> VertexDirection {
        VertexDirection::from_index(v as int)
    }
}

impl From<VertexDirection> for i32 {
    fn from(value: VertexDirection) -> (r: i32)
        ensures
            r == value.index(),
    {
        match value {
            VertexDirection::Up => 0,
            VertexDirection::UpRight => 1,
            VertexDirection::DownRight => 2,
            VertexDirection::Down => 3,
            VertexDirection::DownLeft => 4,
            VertexDirection::UpLeft => 5,
        }
    }
}

impl vstd::std_specs::convert::FromSpecImpl<VertexDirection> for i32 {
    open spec fn obeys_from_spec() -> bool {
        true
    }

    open spec fn from_spec(v: VertexDirection) -> i32 {
        v.index() as i32
    }
}

/// A vertex of a hexagonal grid, held as a coordinate of the triangular lattice whose
/// origin face `(0, 0, 0)` is vertex `DownRight` of hex `(0, 0)`.
#[derive(PartialEq, Eq, Structural, Copy, Clone, Hash, Debug, Default)]
pub struct Vertex {
    /// Wrapped triangle coordinate used for hex vertices.
    pub coord: Triangle,
}

/// The lattice coordinate of the centre of hex `a`.
pub open spec fn hex_center(a: (int, int)) -> Tri3 {
    (a.0, a.1, -a.0 - a.1)
}

/// The lattice coordinate of the vertex of hex `a` in direction `d`.
pub open spec fn vertex_of(a: (int, int), d: VertexDirection) -> Tri3 {
    let o = d.offset();
    (a.0 + o.0, a.1 + o.1, -a.0 - a.1 + o.2)
}

/// Every vertex of hex `a` has components that fit in `i32`.
pub open spec fn vertices_fit(a: (int, int)) -> bool {
    fits(a.0 + 1) && fits(a.1 + 1) && fits(-a.0 - a.1) && fits(-a.0 - a.1 + 1)
}

/// The hex that owns the vertex at `t`, and its spin; none where `t` is no face (its
/// components sum to 0).
pub open spec fn owner_of(t: Tri3) -> Option<((int, int), VertexSpin)> {
    if t_sum(t) == 0 {
        None
    } else if !t_is_down(t) {
        Some(((t.0 - 1, t.1), VertexSpin::Up))
    } else {
        Some(((t.0, t.1 - 1), VertexSpin::Down))
    }
}

/// The three hexes around a vertex owned by hex `a` with the given spin.
pub open spec fn hexes_around(a: (int, int), spin: VertexSpin) -> Seq<(int, int)> {
    match spin {
        VertexSpin::Up => seq![a, (a.0, a.1 - 1), (a.0 + 1, a.1 - 1)],
        VertexSpin::Down => seq![a, (a.0, a.1 + 1), (a.0 - 1, a.1 + 1)],
    }
}

/// The three edges meeting at a vertex owned by hex `a` with the given spin.
pub open spec fn edges_around(a: (int, int), spin: VertexSpin) -> Seq<(int, int, EdgeDirection)> {
    match spin {
        VertexSpin::Up => seq![
            (a.0 + 1, a.1 - 1, EdgeDirection::West),
            (a.0, a.1, EdgeDirection::NorthEast),
            (a.0, a.1, EdgeDirection::NorthWest),
        ],
        VertexSpin::Down => seq![
            (a.0, a.1 + 1, EdgeDirection::NorthWest),
            (a.0, a.1 + 1, EdgeDirection::West),
            (a.0 - 1, a.1 + 1, EdgeDirection::NorthEast),
        ],
    }
}

/// The owning hex of `t`, and the hexes and edges around it, have coordinates that fit in
/// `i32`.
pub open spec fn owner_fits(t: Tri3) -> bool {
    fits(t.0 - 1) && fits(t.1 - 1)
}

impl Vertex {
    pub open spec fn pos(self) -> Tri3 {
        self.coord.pos()
    }
}

impl From<VertexDirection> for Vertex {
    /// The vertex in direction `value` of hex `(0, 0)`.
    fn from(value: VertexDirection) -> (r: Vertex)
        ensures
            r.pos() == value.offset(),
    {
        let (x, y, z) = match value {
            VertexDirection::Up => (1, 0, 1),
            VertexDirection::UpRight => (1, 0, 0),
            VertexDirection::DownRight => (1, 1, 0),
            VertexDirection::Down => (0, 1, 0),
            VertexDirection::DownLeft => (0, 1, 1),
            VertexDirection::UpLeft => (0, 0, 1),
        };
        Vertex { coord: Triangle { x, y, z } }
    }
}

impl vstd::std_specs::convert::FromSpecImpl<VertexDirection> for Vertex {
    open spec fn obeys_from_spec() -> bool {
        true
    }

    open spec fn from_spec(v: VertexDirection) -> Vertex {
        let o = v.offset();
        Vertex { coord: Triangle { x: o.0 as i32, y: o.1 as i32, z: o.2 as i32 } }
    }
}

impl From<(Axial, VertexDirection)> for Vertex {
    /// The vertex of a hex in a direction. Components that do not fit in `i32` wrap.
    fn from(value: (Axial, VertexDirection)) -> (r: Vertex)
        ensures
            vertices_fit(value.0.pos()) ==> r.pos() == vertex_of(value.0.pos(), value.1),
    {
        let o = Vertex::from(value.1).coord;
        let a = value.0;
        let s = (0i32).wrapping_sub(a.q).wrapping_sub(a.r);
        Vertex {
            coord: Triangle {
                x: a.q.wrapping_add(o.x),
                y: a.r.wrapping_add(o.y),
                z: s.wrapping_add(o.z),
            },
        }
    }
}

impl vstd::std_specs::convert::FromSpecImpl<(Axial, VertexDirection)> for Vertex {
    /// Wrapping on overflow keeps the conversion from being a plain function of the
    /// mathematical coordinates; its own postcondition says what holds.
    open spec fn obeys_from_spec() -> bool {
        false
    }

    open spec fn from_spec(v: (Axial, VertexDirection)) -> Vertex {
        let p = vertex_of(v.0.pos(), v.1);
        Vertex { coord: Triangle { x: p.0 as i32, y: p.1 as i32, z: p.2 as i32 } }
    }
}

impl From<Axial> for Vertex {
    /// The lattice point at the centre of a hex. Components that do not fit in `i32` wrap.
    fn from(value: Axial) -> (r: Vertex)
        ensures
            fits(-value.q - value.r) ==> r.pos() == hex_center(value.pos()),
    {
        Vertex {
            coord: Triangle {
                x: value.q,
                y: value.r,
                z: (0i32).wrapping_sub(value.q).wrapping_sub(value.r),
            },
        }
    }
}

impl vstd::std_specs::convert::FromSpecImpl<Axial> for Vertex {
    /// Wrapping on overflow keeps the conversion from being a plain function of the
    /// mathematical coordinates; its own postcondition says what holds.
    open spec fn obeys_from_spec() -> bool {
        false
    }

    open spec fn from_spec(v: Axial) -> Vertex {
        let p = hex_center(v.pos());
        Vertex { coord: Triangle { x: p.0 as i32, y: p.1 as i32, z: p.2 as i32 } }
    }
}

impl From<Triangle> for Vertex {
    fn from(value: Triangle) -> (r: Vertex)
        ensures
            r.coord == value,
    {
        Vertex { coord: value }
    }
}

impl vstd::std_specs::convert::FromSpecImpl<Triangle> for Vertex {
    open spec fn obeys_from_spec() -> bool {
        true
    }

    open spec fn from_spec(v: Triangle) -> Vertex {
        Vertex { coord: v }
    }
}

impl Vertex {
    /// The three hexes around the vertex, the owning hex first; none where the wrapped
    /// coordinate is no face.
    pub fn adjacent_hexes(&self) -> (res: Option<[Axial; 3]>)
        requires
            owner_fits(self.pos()),
        ensures
            match owner_of(self.pos()) {
                None => res is None,
                Some((a, spin)) => res matches Some(hs) && Seq::new(
                    3,
                    |i: int| hs[i].pos(),
                ) == hexes_around(a, spin),
            },
    {
        match self.try_to_axial() {
            Some((coord, spin)) => {
                let hs = match spin {
                    VertexSpin::Up => [
                        Axial { q: coord.q, r: coord.r },
                        Axial { q: coord.q, r: coord.r - 1 },
                        Axial { q: coord.q + 1, r: coord.r - 1 },
                    ],
                    VertexSpin::Down => [
                        Axial { q: coord.q, r: coord.r },
                        Axial { q: coord.q, r: coord.r + 1 },
                        Axial { q: coord.q - 1, r: coord.r + 1 },
                    ],
                };
                assert(Seq::new(3, |i: int| hs[i].pos()) =~= hexes_around(coord.pos(), spin));
                Some(hs)
            },
            None => None,
        }
    }

    /// The wrapped triangle coordinate.
    pub fn into_inner(&self) -> (t: &Triangle)
        ensures
            *t == self.coord,
    {
        &self.coord
    }

    /// The hex that owns this vertex and the vertex's spin.
    ///
    /// An upward face is vertex `Up` of the hex to its left, a downward face vertex `Down`
    /// of the hex above it. A coordinate whose components sum to 0 is no face and has no
    /// owner.
    pub fn try_to_axial(&self) -> (res: Option<(Axial, VertexSpin)>)
        requires
            owner_fits(self.pos()),
        ensures
            match owner_of(self.pos()) {
                None => res is None,
                Some((a, spin)) => res matches Some((h, s)) && h.pos() == a && s == spin,
            },
    {
        if self.coord.is_tri_face() {
            if self.coord.orientation() == crate::triangle::TriOrientation::Up {
                Some((Axial { q: self.coord.x - 1, r: self.coord.y }, VertexSpin::Up))
            } else {
                Some((Axial { q: self.coord.x, r: self.coord.y - 1 }, VertexSpin::Down))
            }
        } else {
            None
        }
    }

    /// The three vertices joined to this one by an edge; none where the wrapped
    /// coordinate is no face.
    pub fn adjacent_vertices(&self) -> (res: Option<[Vertex; 3]>)
        requires
            tri_neighbors_fit(self.pos()),
        ensures
            t_sum(self.pos()) == 0 ==> res is None,
            t_sum(self.pos()) != 0 ==> (res matches Some(vs) && Seq::new(
                3,
                |i: int| vs[i].pos(),
            ) == seq![
                tri_neighbor(self.pos(), TriDirection::Left),
                tri_neighbor(self.pos(), TriDirection::Right),
                tri_neighbor(self.pos(), TriDirection::Base),
            ]),
    {
        if self.coord.is_tri_face() {
            let neighbors = self.coord.neighbors();
            proof {
                assert(tri_positions(neighbors@)[0] == neighbors[0].pos());
                assert(tri_positions(neighbors@)[1] == neighbors[1].pos());
                assert(tri_positions(neighbors@)[2] == neighbors[2].pos());
            }
            let vs = [
                Vertex::from(neighbors[0]),
                Vertex::from(neighbors[1]),
                Vertex::from(neighbors[2]),
            ];
            assert(Seq::new(3, |i: int| vs[i].pos()) =~= seq![
                tri_neighbor(self.pos(), TriDirection::Left),
                tri_neighbor(self.pos(), TriDirection::Right),
                tri_neighbor(self.pos(), TriDirection::Base),
            ]);
            Some(vs)
        } else {
            None
        }
    }

    /// The three edges that meet at this vertex; none where the wrapped coordinate is no
    /// face.
    pub fn adjacent_edges(&self) -> (res: Option<[Edge; 3]>)
        requires
            owner_fits(self.pos()),
        ensures
            match owner_of(self.pos()) {
                None => res is None,
                Some((a, spin)) => res matches Some(es) && Seq::new(
                    3,
                    |i: int| es[i].pos(),
                ) == edges_around(a, spin),
            },
    {
        match self.try_to_axial() {
            Some((coord, spin)) => {
                let es = match spin {
                    VertexSpin::Up => [
                        Edge { q: coord.q + 1, r: coord.r - 1, dir: EdgeDirection::West },
                        Edge { q: coord.q, r: coord.r, dir: EdgeDirection::NorthEast },
                        Edge { q: coord.q, r: coord.r, dir: EdgeDirection::NorthWest },
                    ],
                    VertexSpin::Down => [
                        Edge { q: coord.q, r: coord.r + 1, dir: EdgeDirection::NorthWest },
                        Edge { q: coord.q, r: coord.r + 1, dir: EdgeDirection::West },
                        Edge { q: coord.q - 1, r: coord.r + 1, dir: EdgeDirection::NorthEast },
                    ],
                };
                assert(Seq::new(3, |i: int| es[i].pos()) =~= edges_around(coord.pos(), spin));
                Some(es)
            },
            None => None,
        }
    }

    /// The L1 distance between the two wrapped coordinates.
    pub fn distance(self, b: Vertex) -> (d: u32)
        requires
            t_dist(self.pos(), b.pos()) <= u32::MAX,
        ensures
            d == t_dist(self.pos(), b.pos()),
    {
        self.coord.distance(b.coord)
    }
}

/// The vertex direction that a spin names on its owning hex.
pub open spec fn spin_direction(spin: VertexSpin) -> VertexDirection {
    match spin {
        VertexSpin::Up => VertexDirection::Up,
        VertexSpin::Down => VertexDirection::Down,
    }
}

/// Every vertex of every hex has an owner, which is the hex the vertex lies on in the
/// direction of its spin; the `Up` and `Down` vertices of a hex are owned by that hex.
pub proof fn lemma_vertex_owner_round_trip(a: Axial, d: VertexDirection)
    ensures
        owner_of(vertex_of(a.pos(), d)) matches Some((h, spin)) && vertex_of(h, spin_direction(spin))
            == vertex_of(a.pos(), d),
        d == VertexDirection::Up ==> owner_of(vertex_of(a.pos(), d)) == Some((a.pos(), VertexSpin::Up)),
        d == VertexDirection::Down ==> owner_of(vertex_of(a.pos(), d)) == Some(
            (a.pos(), VertexSpin::Down),
        ),
{
}

} // verus!
