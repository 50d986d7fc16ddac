//! Edges of hexagonal grids.
use vstd::prelude::*;
use crate::coordinate::{fits, Axial, HexDirection};
use crate::triangle::t_dist;
use crate::vertex::{vertex_of, vertices_fit, Vertex, VertexDirection};

verus! {

/// Which of the three canonical edges of a hex an edge is.
#[derive(PartialEq, Eq, Structural, Copy, Clone, Hash, Debug)]
pub enum EdgeDirection {
    /// West of the hex.
    West,
    /// North West of the hex
    NorthWest,
    /// North East of the hex
    NorthEast,
}

/// An edge of a hexagonal grid: the edge of hex `(q, r)` in direction `dir`.
///
/// Each edge has exactly one such address, since only three of a hex's six edges are
/// named from it; the other three belong to its neighbours.
#[derive(PartialEq, Eq, Structural, Copy, Clone, Hash, Debug)]
pub struct Edge {
    /// q (x) coordinate
    pub q: i32,
    /// r (y) coordinate
    pub r: i32,
    /// Edge direction
    pub dir: EdgeDirection,
}

impl Edge {
    pub open spec fn pos(self) -> (int, int, EdgeDirection) {
        (self.q as int, self.r as int, self.dir)
    }

    /// The hex the edge is named from.
    pub open spec fn hex(self) -> (int, int) {
        (self.q as int, self.r as int)
    }
}

/// The two hexes on either side of edge `e`, its own hex first.
pub open spec fn hexes_beside(e: (int, int, EdgeDirection)) -> Seq<(int, int)> {
    match e.2 {
        EdgeDirection::West => seq![(e.0, e.1), (e.0 - 1, e.1)],
        EdgeDirection::NorthWest => seq![(e.0, e.1), (e.0, e.1 - 1)],
        EdgeDirection::NorthEast => seq![(e.0, e.1), (e.0 + 1, e.1 - 1)],
    }
}

/// The four edges that share an endpoint with edge `e`.
pub open spec fn edges_beside(e: (int, int, EdgeDirection)) -> Seq<(int, int, EdgeDirection)> {
    let (q, r) = (e.0, e.1);
    match e.2 {
        EdgeDirection::West => seq![
            (q - 1, r + 1, EdgeDirection::NorthEast),
            (q, r, EdgeDirection::NorthWest),
            (q - 1, r + 1, EdgeDirection::NorthWest),
            (q - 1, r, EdgeDirection::NorthEast),
        ],
        EdgeDirection::NorthWest => seq![
            (q + 1, r - 1, EdgeDirection::West),
            (q, r, EdgeDirection::NorthEast),
            (q, r, EdgeDirection::West),
            (q - 1, r, EdgeDirection::NorthEast),
        ],
        EdgeDirection::NorthEast => seq![
            (q + 1, r, EdgeDirection::NorthWest),
            (q + 1, r, EdgeDirection::West),
            (q, r, EdgeDirection::NorthWest),
            (q + 1, r - 1, EdgeDirection::West),
        ],
    }
}

/// The vertex directions, on the edge's own hex, of the two ends of an edge in
/// direction `d`, clockwise.
pub open spec fn end_directions(d: EdgeDirection) -> (VertexDirection, VertexDirection) {
    match d {
        EdgeDirection::West => (VertexDirection::DownLeft, VertexDirection::UpLeft),
        EdgeDirection::NorthWest => (VertexDirection::UpLeft, VertexDirection::Up),
        EdgeDirection::NorthEast => (VertexDirection::Up, VertexDirection::UpRight),
    }
}

/// The canonical address of the edge of hex `(0, 0)` in hex direction `d`.
pub open spec fn edge_toward(d: HexDirection) -> (int, int, EdgeDirection) {
    match d {
        HexDirection::Front => (1, 0, EdgeDirection::West),
        HexDirection::FrontRight => (0, 1, EdgeDirection::NorthWest),
        HexDirection::BackRight => (-1, 1, EdgeDirection::NorthEast),
        HexDirection::Back => (0, 0, EdgeDirection::West),
        HexDirection::BackLeft => (0, 0, EdgeDirection::NorthWest),
        HexDirection::FrontLeft => (0, 0, EdgeDirection::NorthEast),
    }
}

/// The two hexes beside edge `e` have coordinates that fit in `i32`.
pub open spec fn hexes_beside_fit(e: (int, int, EdgeDirection)) -> bool {
    match e.2 {
        EdgeDirection::West => fits(e.0 - 1),
        EdgeDirection::NorthWest => fits(e.1 - 1),
        EdgeDirection::NorthEast => fits(e.0 + 1) && fits(e.1 - 1),
    }
}

/// The four edges beside edge `e` have coordinates that fit in `i32`.
pub open spec fn edges_beside_fit(e: (int, int, EdgeDirection)) -> bool {
    match e.2 {
        EdgeDirection::West => fits(e.0 - 1) && fits(e.1 + 1),
        EdgeDirection::NorthWest => fits(e.0 + 1) && fits(e.0 - 1) && fits(e.1 - 1),
        EdgeDirection::NorthEast => fits(e.0 + 1) && fits(e.1 - 1),
    }
}

impl Default for Edge {
    /// The west edge of hex `(0, 0)`.
    fn default() -> (r: Edge)
        ensures
            r == (Edge { q: 0, r: 0, dir: EdgeDirection::West }),
    {
        Edge { q: 0, r: 0, dir: EdgeDirection::West }
    }
}

impl From<HexDirection> for Edge {
    /// The edge of hex `(0, 0)` that faces the given direction.
    fn from(value: HexDirection) -> (r: Edge)
        ensures
            r.pos() == edge_toward(value),
    {
        match value {
            HexDirection::Front => Edge { q: 1, r: 0, dir: EdgeDirection::West },
            HexDirection::FrontRight => Edge { q: 0, r: 1, dir: EdgeDirection::NorthWest },
            HexDirection::BackRight => Edge { q: -1, r: 1, dir: EdgeDirection::NorthEast },
            HexDirection::Back => Edge { q: 0, r: 0, dir: EdgeDirection::West },
            HexDirection::BackLeft => Edge { q: 0, r: 0, dir: EdgeDirection::NorthWest },
            HexDirection::FrontLeft => Edge { q: 0, r: 0, dir: EdgeDirection::NorthEast },
        }
    }
}

impl vstd::std_specs::convert::FromSpecImpl<HexDirection> for Edge {
    open spec fn obeys_from_spec() -> bool {
        true
    }

    open spec fn from_spec(v: HexDirection) -> Edge {
        let e = edge_toward(v);
        Edge { q: e.0 as i32, r: e.1 as i32, dir: e.2 }
    }
}

impl Edge {
    /// The two hexes that share this edge, the edge's own hex first.
    pub fn adjacent_hexes(&self) -> (res: [Axial; 2])
        requires
            hexes_beside_fit(self.pos()),
        ensures
            Seq::new(2, |i: int| res[i].pos()) == hexes_beside(self.pos()),
    {
        let res = match self.dir {
            EdgeDirection::West => [Axial { q: self.q, r: self.r }, Axial { q: self.q - 1, r: self.r }],
            EdgeDirection::NorthWest => [
                Axial { q: self.q, r: self.r },
                Axial { q: self.q, r: self.r - 1 },
            ],
            EdgeDirection::NorthEast => [
                Axial { q: self.q, r: self.r },
                Axial { q: self.q + 1, r: self.r - 1 },
            ],
        };
        assert(Seq::new(2, |i: int| res[i].pos()) =~= hexes_beside(self.pos()));
        res
    }

    /// The four edges that share an endpoint with this one.
    pub fn adjacent_edges(&self) -> (res: [Edge; 4])
        requires
            edges_beside_fit(self.pos()),
        ensures
            Seq::new(4, |i: int| res[i].pos()) == edges_beside(self.pos()),
    {
        let (q, r) = (self.q, self.r);
        let res = match self.dir {
            EdgeDirection::West => [
                Edge { q: q - 1, r: r + 1, dir: EdgeDirection::NorthEast },
                Edge { q, r, dir: EdgeDirection::NorthWest },
                Edge { q: q - 1, r: r + 1, dir: EdgeDirection::NorthWest },
                Edge { q: q - 1, r, dir: EdgeDirection::NorthEast },
            ],
            EdgeDirection::NorthWest => [
                Edge { q: q + 1, r: r - 1, dir: EdgeDirection::West },
                Edge { q, r, dir: EdgeDirection::NorthEast },
                Edge { q, r, dir: EdgeDirection::West },
                Edge { q: q - 1, r, dir: EdgeDirection::NorthEast },
            ],
            EdgeDirection::NorthEast => [
                Edge { q: q + 1, r, dir: EdgeDirection::NorthWest },
                Edge { q: q + 1, r, dir: EdgeDirection::West },
                Edge { q, r, dir: EdgeDirection::NorthWest },
                Edge { q: q + 1, r: r - 1, dir: EdgeDirection::West },
            ],
        };
        assert(Seq::new(4, |i: int| res[i].pos()) =~= edges_beside(self.pos()));
        res
    }

    /// The two ends of the edge, leftmost first going clockwise.
    pub fn endpoints(&self) -> (res: [Vertex; 2])
        requires
            vertices_fit(self.hex()),
        ensures
            res[0].pos() == vertex_of(self.hex(), end_directions(self.dir).0),
            res[1].pos() == vertex_of(self.hex(), end_directions(self.dir).1),
    {
        let h = Axial { q: self.q, r: self.r };
        match self.dir {
            EdgeDirection::West => [h.vertex(VertexDirection::DownLeft), h.vertex(VertexDirection::UpLeft)],
            EdgeDirection::NorthWest => [h.vertex(VertexDirection::UpLeft), h.vertex(VertexDirection::Up)],
            EdgeDirection::NorthEast => [h.vertex(VertexDirection::Up), h.vertex(VertexDirection::UpRight)],
        }
    }

    /// The distance between the first ends of the two edges: an approximation of the
    /// distance between the edges.
    pub fn distance(&self, b: Edge) -> (d: u32)
        requires
            vertices_fit(self.hex()),
            vertices_fit(b.hex()),
            t_dist(
                vertex_of(self.hex(), end_directions(self.dir).0),
                vertex_of(b.hex(), end_directions(b.dir).0),
            ) <= u32::MAX,
        ensures
            d == t_dist(
                vertex_of(self.hex(), end_directions(self.dir).0),
                vertex_of(b.hex(), end_directions(b.dir).0),
            ),
    {
        let a_end = self.endpoints();
        let b_end = b.endpoints();
        a_end[0].distance(b_end[0])
    }
}

} // verus!
