//! Coordinates for triangular grids.
use vstd::prelude::*;
use crate::coordinate::{abs, fits, max, min, trunc_div};

verus! {

/// A triangle coordinate as three mathematical integers.
pub type Tri3 = (int, int, int);

pub open spec fn t_add(a: Tri3, b: Tri3) -> Tri3 {
    (a.0 + b.0, a.1 + b.1, a.2 + b.2)
}

pub open spec fn t_sub(a: Tri3, b: Tri3) -> Tri3 {
    (a.0 - b.0, a.1 - b.1, a.2 - b.2)
}

pub open spec fn t_scale(a: Tri3, k: int) -> Tri3 {
    (a.0 * k, a.1 * k, a.2 * k)
}

pub open spec fn t_sum(a: Tri3) -> int {
    a.0 + a.1 + a.2
}

/// The L1 distance between two coordinates.
pub open spec fn t_dist(a: Tri3, b: Tri3) -> int {
    abs(a.0 - b.0) + abs(a.1 - b.1) + abs(a.2 - b.2)
}

/// A face whose component sum is odd points down.
pub open spec fn t_is_down(a: Tri3) -> bool {
    t_sum(a) % 2 == 1
}

/// All three components fit in `i32`.
pub open spec fn tri_fits(a: Tri3) -> bool {
    fits(a.0) && fits(a.1) && fits(a.2)
}

/// Every coordinate within `d` of `a` in each component fits in `i32`.
pub open spec fn box_fits(a: Tri3, d: int) -> bool {
    tri_fits((a.0 - d, a.1 - d, a.2 - d)) && tri_fits((a.0 + d, a.1 + d, a.2 + d))
}

/// A coordinate for a triangular grid: a face when `x + y + z` is 1 or 2, a vertex when 0.
#[derive(PartialEq, Eq, Structural, Copy, Clone, Hash, Debug, Default)]
pub struct Triangle {
    /// X coordinate
    pub x: i32,
    /// Y coordinate
    pub y: i32,
    /// Z coordinate
    pub z: i32,
}

impl Triangle {
    pub open spec fn pos(self) -> Tri3 {
        (self.x as int, self.y as int, self.z as int)
    }
}

/// The coordinates of a sequence of triangles.
pub open spec fn tri_positions(s: Seq<Triangle>) -> Seq<Tri3> {
    s.map_values(|t: Triangle| t.pos())
}

pub proof fn lemma_tri_positions_push(s: Seq<Triangle>, t: Triangle)
    ensures
        tri_positions(s.push(t)) == tri_positions(s).push(t.pos()),
{
    assert(tri_positions(s.push(t)) =~= tri_positions(s).push(t.pos()));
}

/// Orientation of a triangular face.
#[derive(PartialEq, Eq, Structural, Copy, Clone, Hash, Debug)]
pub enum TriOrientation {
    /// Upwards orientated triangle, its base facing down
    Up,
    /// Downwards orientated triangle, its base facing up
    Down,
}

/// The orientation that the parity of the component sum gives.
pub open spec fn orientation_of(a: Tri3) -> TriOrientation {
    if t_is_down(a) {
        TriOrientation::Down
    } else {
        TriOrientation::Up
    }
}

impl From<Triangle> for TriOrientation {
    fn from(value: Triangle) -> (r: TriOrientation)
        ensures
            r == orientation_of(value.pos()),
    {
        let sum = value.x as i64 + value.y as i64 + value.z as i64;
        if sum % 2 != 0 {
            TriOrientation::Down
        } else {
            TriOrientation::Up
        }
    }
}

impl vstd::std_specs::convert::FromSpecImpl<Triangle> for TriOrientation {
    open spec fn obeys_from_spec() -> bool {
        true
    }

    open spec fn from_spec(v: Triangle) -> TriOrientation {
        orientation_of(v.pos())
    }
}

/// Primary directions of travel on a triangular grid.
#[derive(PartialEq, Eq, Structural, Copy, Clone, Hash, Debug)]
pub enum TriDirection {
    /// Left direction, correlates to negative x
    Left,
    /// Right direction, correlates to positive x
    Right,
    /// Base of the triangle, the third leg after the left and right
    Base,
}

/// The three axes of a triangular grid.
#[derive(PartialEq, Eq, Structural, Copy, Clone, Hash, Debug)]
pub enum Axes3D {
    /// X axis
    X,
    /// Y Axis
    Y,
    /// Z Axis
    Z,
}

impl core::ops::Add for Triangle {
    type Output = Triangle;

    fn add(self, rhs: Triangle) -> (res: Triangle)
        ensures
            res.pos() == t_add(self.pos(), rhs.pos()),
    {
        Triangle { x: self.x + rhs.x, y: self.y + rhs.y, z: self.z + rhs.z }
    }
}

impl vstd::std_specs::ops::AddSpecImpl for Triangle {
    open spec fn obeys_add_spec() -> bool {
        true
    }

    open spec fn add_req(self, rhs: Triangle) -> bool {
        tri_fits(t_add(self.pos(), rhs.pos()))
    }

    open spec fn add_spec(self, rhs: Triangle) -> Triangle {
        Triangle {
            x: (self.x + rhs.x) as i32,
            y: (self.y + rhs.y) as i32,
            z: (self.z + rhs.z) as i32,
        }
    }
}

impl core::ops::Sub for Triangle {
    type Output = Triangle;

    fn sub(self, rhs: Triangle) -> (res: Triangle)
        ensures
            res.pos() == t_sub(self.pos(), rhs.pos()),
    {
        Triangle { x: self.x - rhs.x, y: self.y - rhs.y, z: self.z - rhs.z }
    }
}

impl vstd::std_specs::ops::SubSpecImpl for Triangle {
    open spec fn obeys_sub_spec() -> bool {
        true
    }

    open spec fn sub_req(self, rhs: Triangle) -> bool {
        tri_fits(t_sub(self.pos(), rhs.pos()))
    }

    open spec fn sub_spec(self, rhs: Triangle) -> Triangle {
        Triangle {
            x: (self.x - rhs.x) as i32,
            y: (self.y - rhs.y) as i32,
            z: (self.z - rhs.z) as i32,
        }
    }
}

impl core::ops::Mul<i32> for Triangle {
    type Output = Triangle;

    fn mul(self, rhs: i32) -> (res: Triangle)
        ensures
            res.pos() == t_scale(self.pos(), rhs as int),
    {
        Triangle { x: self.x * rhs, y: self.y * rhs, z: self.z * rhs }
    }
}

impl vstd::std_specs::ops::MulSpecImpl<i32> for Triangle {
    open spec fn obeys_mul_spec() -> bool {
        true
    }

    open spec fn mul_req(self, rhs: i32) -> bool {
        tri_fits(t_scale(self.pos(), rhs as int))
    }

    open spec fn mul_spec(self, rhs: i32) -> Triangle {
        Triangle {
            x: (self.x * rhs) as i32,
            y: (self.y * rhs) as i32,
            z: (self.z * rhs) as i32,
        }
    }
}

/// The missing component of a face with components `a` and `b` and the given orientation.
pub open spec fn solve_coord_of(a: int, b: int, orientation: TriOrientation) -> int {
    match orientation {
        TriOrientation::Up => 2 - a - b,
        TriOrientation::Down => 1 - a - b,
    }
}

/// `t` turned `k` times by 60° clockwise about the origin vertex.
pub open spec fn tri_rotate(t: Tri3, k: int) -> Tri3 {
    let m = k % 6;
    if m == 0 {
        t
    } else if m == 1 {
        (1 - t.2, 1 - t.0, 1 - t.1)
    } else if m == 2 {
        (t.1, t.2, t.0)
    } else if m == 3 {
        (1 - t.0, 1 - t.1, 1 - t.2)
    } else if m == 4 {
        (t.2, t.0, t.1)
    } else {
        (1 - t.1, 1 - t.2, 1 - t.0)
    }
}

/// Projection of `t` onto the lane of the given value along one axis.
///
/// `own` is the component on that axis, `target` the lane; `lut` is the unit step that
/// moves away from the lane.
pub open spec fn project(t: Tri3, own: int, target: int, lut: Tri3, on_lane: Tri3) -> Tri3 {
    if own == target {
        t
    } else {
        let d = own - target;
        let sign = d < 0;
        let offset: int = if sign == !t_is_down(t) {
            1
        } else {
            0
        };
        let k = (abs(d) + offset) / 2;
        if sign {
            t_sub(on_lane, t_scale(lut, k))
        } else {
            t_add(on_lane, t_scale(lut, k))
        }
    }
}

pub open spec fn projection_x_of(t: Tri3, x: int) -> Tri3 {
    project(t, t.0, x, (0, 1, 1), (x, t.1, t.2))
}

pub open spec fn projection_y_of(t: Tri3, y: int) -> Tri3 {
    project(t, t.1, y, (1, 0, 1), (t.0, y, t.2))
}

pub open spec fn projection_z_of(t: Tri3, z: int) -> Tri3 {
    project(t, t.2, z, (1, 1, 0), (t.0, t.1, z))
}

/// Whether the slope between `a` and `b`, as truncated integer division of the x and y
/// differences, is zero or negative.
pub open spec fn slope_nonpositive(a: Tri3, b: Tri3) -> bool {
    trunc_div(a.0 - b.0, a.1 - b.1) <= 0
}

/// The two faces of the lane crossing between `a` and `b`.
pub open spec fn intersection_points(a: Tri3, b: Tri3) -> (Tri3, Tri3) {
    if slope_nonpositive(a, b) {
        let (x, z) = if a.0 < b.0 {
            (b.0, a.2)
        } else {
            (a.0, b.2)
        };
        (
            (x, solve_coord_of(x, z, TriOrientation::Down), z),
            (x, solve_coord_of(x, z, TriOrientation::Up), z),
        )
    } else {
        let (x, y) = if a.0 < b.0 {
            (b.0, a.1)
        } else {
            (a.0, b.1)
        };
        (
            (x, y, solve_coord_of(x, y, TriOrientation::Up)),
            (x, y, solve_coord_of(x, y, TriOrientation::Down)),
        )
    }
}

/// The offsets that turn the crossing faces into the faces that bridge the two lanes.
pub open spec fn intersection_offsets(a: Tri3, b: Tri3) -> (Tri3, Tri3) {
    if slope_nonpositive(a, b) {
        ((-1, 1, 1), (-1, -1, 1))
    } else {
        ((-1, 1, -1), (-1, 1, 1))
    }
}

/// The first axis on which `a` and `b` agree.
pub open spec fn shared_axis_of(a: Tri3, b: Tri3) -> Option<Axes3D> {
    if a.0 == b.0 {
        Some(Axes3D::X)
    } else if a.1 == b.1 {
        Some(Axes3D::Y)
    } else if a.2 == b.2 {
        Some(Axes3D::Z)
    } else {
        None
    }
}

/// Lexicographic order on coordinates.
pub open spec fn lex_le(a: Tri3, b: Tri3) -> bool {
    a.0 < b.0 || (a.0 == b.0 && (a.1 < b.1 || (a.1 == b.1 && a.2 <= b.2)))
}

/// The face one step from face `c` toward face `b`.
///
/// An upward face can only lower one of its components and a downward face only raise
/// one; the step moves the component with the most distance left to cover in that
/// direction, the later axis on a tie.
pub open spec fn next_face(c: Tri3, b: Tri3) -> Tri3 {
    let d = t_sub(b, c);
    if !t_is_down(c) {
        if d.2 < 0 && d.2 <= d.0 && d.2 <= d.1 {
            (c.0, c.1, c.2 - 1)
        } else if d.1 < 0 && d.1 <= d.0 {
            (c.0, c.1 - 1, c.2)
        } else {
            (c.0 - 1, c.1, c.2)
        }
    } else {
        if d.2 > 0 && d.2 >= d.0 && d.2 >= d.1 {
            (c.0, c.1, c.2 + 1)
        } else if d.1 > 0 && d.1 >= d.0 {
            (c.0, c.1 + 1, c.2)
        } else {
            (c.0 + 1, c.1, c.2)
        }
    }
}

/// A face: its components sum to 1 or 2.
pub open spec fn is_face(t: Tri3) -> bool {
    t_sum(t) == 1 || t_sum(t) == 2
}

/// The walk from face `c` to face `b` by repeated `next_face` steps, both ends included.
pub open spec fn walk(c: Tri3, b: Tri3) -> Seq<Tri3>
    decreases t_dist(c, b),
{
    if c != b && is_face(c) && is_face(b) {
        seq![c] + walk(next_face(c, b), b)
    } else {
        seq![c]
    }
}

/// The line from `a` to `b`: the walk from the lexicographically smaller end to the
/// other, read from `a`.
pub open spec fn tri_line(a: Tri3, b: Tri3) -> Seq<Tri3> {
    if lex_le(a, b) {
        walk(a, b)
    } else {
        walk(b, a).reverse()
    }
}

/// `s` is a shortest path of faces from `a` to `b`: it holds one face per step, starts at
/// `a`, ends at `b`, and each face is a neighbour of the one before it.
pub open spec fn shortest_path(s: Seq<Tri3>, a: Tri3, b: Tri3) -> bool {
    &&& s.len() == t_dist(a, b) + 1
    &&& s[0] == a
    &&& s[s.len() - 1] == b
    &&& forall|i: int| 0 <= i < s.len() - 1 ==> t_dist(#[trigger] s[i], s[i + 1]) == 1
}

/// Every face of `s` keeps each component on which `a` and `b` agree.
pub open spec fn keeps_shared(s: Seq<Tri3>, a: Tri3, b: Tri3) -> bool {
    forall|i: int|
        0 <= i < s.len() ==> {
            &&& (a.0 == b.0 ==> (#[trigger] s[i]).0 == a.0)
            &&& (a.1 == b.1 ==> s[i].1 == a.1)
            &&& (a.2 == b.2 ==> s[i].2 == a.2)
        }
}

/// Each component of `t` lies between the same components of `a` and `b`.
pub open spec fn between(t: Tri3, a: Tri3, b: Tri3) -> bool {
    &&& min(a.0, b.0) <= t.0 <= max(a.0, b.0)
    &&& min(a.1, b.1) <= t.1 <= max(a.1, b.1)
    &&& min(a.2, b.2) <= t.2 <= max(a.2, b.2)
}

/// The neighbouring face across the given side.
pub open spec fn tri_neighbor(a: Tri3, d: TriDirection) -> Tri3 {
    if !t_is_down(a) {
        match d {
            TriDirection::Left => (a.0 - 1, a.1, a.2),
            TriDirection::Base => (a.0, a.1 - 1, a.2),
            TriDirection::Right => (a.0, a.1, a.2 - 1),
        }
    } else {
        match d {
            TriDirection::Left => (a.0, a.1, a.2 + 1),
            TriDirection::Base => (a.0, a.1 + 1, a.2),
            TriDirection::Right => (a.0 + 1, a.1, a.2),
        }
    }
}

/// The three neighbours of `a` have components that fit in `i32`.
pub open spec fn tri_neighbors_fit(a: Tri3) -> bool {
    &&& tri_fits(tri_neighbor(a, TriDirection::Left))
    &&& tri_fits(tri_neighbor(a, TriDirection::Right))
    &&& tri_fits(tri_neighbor(a, TriDirection::Base))
}

/// The neighbours of `a`, in the order left, right, base.
pub open spec fn tri_neighbors(a: Tri3) -> Seq<Tri3> {
    seq![
        tri_neighbor(a, TriDirection::Left),
        tri_neighbor(a, TriDirection::Right),
        tri_neighbor(a, TriDirection::Base),
    ]
}

fn abs_i64(v: i64) -> (r: i64)
    requires
        v > i64::MIN,
    ensures
        r == abs(v as int),
{
    if v < 0 {
        -v
    } else {
        v
    }
}

impl Triangle {
    /// Sets `z` so that the coordinate is a vertex (the components sum to 0).
    pub fn compute_z_vert(self) -> (res: Triangle)
        requires
            fits(-self.x - self.y),
        ensures
            res.pos() == (self.x as int, self.y as int, -self.x - self.y),
    {
        Triangle { z: (-(self.x as i64) - self.y as i64) as i32, ..self }
    }

    /// The third component of the face with the two given ones and the given orientation.
    pub fn solve_coord(partial: (i32, i32), orientation: TriOrientation) -> (c: i32)
        requires
            fits(solve_coord_of(partial.0 as int, partial.1 as int, orientation)),
        ensures
            c == solve_coord_of(partial.0 as int, partial.1 as int, orientation),
    {
        let s = partial.0 as i64 + partial.1 as i64;
        match orientation {
            TriOrientation::Up => (2 - s) as i32,
            TriOrientation::Down => (1 - s) as i32,
        }
    }

    /// Sets `z` so that the coordinate is the face with the given orientation.
    pub fn compute_z(self, orientation: TriOrientation) -> (res: Triangle)
        requires
            fits(solve_coord_of(self.x as int, self.y as int, orientation)),
        ensures
            res.pos() == (
                self.x as int,
                self.y as int,
                solve_coord_of(self.x as int, self.y as int, orientation),
            ),
    {
        Triangle { z: Self::solve_coord((self.x, self.y), orientation), ..self }
    }

    /// Whether the coordinate is a face rather than a vertex.
    pub fn is_tri_face(self) -> (res: bool)
        ensures
            res == (t_sum(self.pos()) != 0),
    {
        self.x as i64 + self.y as i64 + self.z as i64 != 0
    }

    /// The orientation given by the parity of the component sum.
    pub fn orientation(self) -> (res: TriOrientation)
        ensures
            res == orientation_of(self.pos()),
    {
        self.into()
    }

    /// Turns the coordinate `rot_dir` times by 60° about the origin vertex.
    ///
    /// Positive `rot_dir` turns clockwise, negative counter-clockwise.
    pub fn rotate(self, rot_dir: i32) -> (res: Triangle)
        requires
            tri_fits(tri_rotate(self.pos(), rot_dir as int)),
        ensures
            res.pos() == tri_rotate(self.pos(), rot_dir as int),
    {
        let m = rot_dir % 6;
        let m = if m < 0 {
            m + 6
        } else {
            m
        };
        let (x, y, z) = (self.x as i64, self.y as i64, self.z as i64);
        let (rx, ry, rz) = if m == 0 {
            (x, y, z)
        } else if m == 1 {
            (1 - z, 1 - x, 1 - y)
        } else if m == 2 {
            (y, z, x)
        } else if m == 3 {
            (1 - x, 1 - y, 1 - z)
        } else if m == 4 {
            (z, x, y)
        } else {
            (1 - y, 1 - z, 1 - x)
        };
        Triangle { x: rx as i32, y: ry as i32, z: rz as i32 }
    }

    /// Turns the coordinate `rot_dir` times by 60° about `about_b`.
    pub fn rotate_about(self, about_b: Triangle, rot_dir: i32) -> (res: Triangle)
        requires
            tri_fits(t_sub(self.pos(), about_b.pos())),
            tri_fits(tri_rotate(t_sub(self.pos(), about_b.pos()), rot_dir as int)),
            tri_fits(
                t_add(about_b.pos(), tri_rotate(t_sub(self.pos(), about_b.pos()), rot_dir as int)),
            ),
        ensures
            res.pos() == t_add(
                about_b.pos(),
                tri_rotate(t_sub(self.pos(), about_b.pos()), rot_dir as int),
            ),
    {
        about_b + (self - about_b).rotate(rot_dir)
    }

    /// Mirrors the coordinate across the cartesian x-axis.
    pub fn reflect_x(self) -> (res: Triangle)
        ensures
            res.pos() == (self.z as int, self.y as int, self.x as int),
    {
        Triangle { x: self.z, y: self.y, z: self.x }
    }

    /// Mirrors the coordinate across the cartesian y-axis.
    pub fn reflect_y(self) -> (res: Triangle)
        requires
            tri_fits((1 - self.z, 1 - self.y, 1 - self.x)),
        ensures
            res.pos() == (1 - self.z, 1 - self.y, 1 - self.x),
    {
        Triangle { x: 1 - self.z, y: 1 - self.y, z: 1 - self.x }
    }

    /// Projects the coordinate onto the lane where the x component is `x`.
    pub fn projection_x(self, x: i32) -> (res: Triangle)
        requires
            tri_fits(projection_x_of(self.pos(), x as int)),
        ensures
            res.pos() == projection_x_of(self.pos(), x as int),
    {
        if self.x == x {
            self
        } else {
            let d = self.x as i64 - x as i64;
            let k = Self::projection_steps(self, d);
            if d < 0 {
                Triangle { x, y: (self.y as i64 - k) as i32, z: (self.z as i64 - k) as i32 }
            } else {
                Triangle { x, y: (self.y as i64 + k) as i32, z: (self.z as i64 + k) as i32 }
            }
        }
    }

    /// Projects the coordinate onto the lane where the y component is `y`.
    pub fn projection_y(self, y: i32) -> (res: Triangle)
        requires
            tri_fits(projection_y_of(self.pos(), y as int)),
        ensures
            res.pos() == projection_y_of(self.pos(), y as int),
    {
        if self.y == y {
            self
        } else {
            let d = self.y as i64 - y as i64;
            let k = Self::projection_steps(self, d);
            if d < 0 {
                Triangle { x: (self.x as i64 - k) as i32, y, z: (self.z as i64 - k) as i32 }
            } else {
                Triangle { x: (self.x as i64 + k) as i32, y, z: (self.z as i64 + k) as i32 }
            }
        }
    }

    /// Projects the coordinate onto the lane where the z component is `z`.
    pub fn projection_z(self, z: i32) -> (res: Triangle)
        requires
            tri_fits(projection_z_of(self.pos(), z as int)),
        ensures
            res.pos() == projection_z_of(self.pos(), z as int),
    {
        if self.z == z {
            self
        } else {
            let d = self.z as i64 - z as i64;
            let k = Self::projection_steps(self, d);
            if d < 0 {
                Triangle { x: (self.x as i64 - k) as i32, y: (self.y as i64 - k) as i32, z }
            } else {
                Triangle { x: (self.x as i64 + k) as i32, y: (self.y as i64 + k) as i32, z }
            }
        }
    }

    /// How many double steps a projection across `d` lanes takes from this face.
    fn projection_steps(self, d: i64) -> (k: i64)
        requires
            d != 0,
            -0x1_0000_0000 <= d <= 0x1_0000_0000,
        ensures
            k == (abs(d as int) + (if (d < 0) == !t_is_down(self.pos()) {
                1int
            } else {
                0int
            })) / 2,
            0 <= k <= 0x1_0000_0000,
    {
        let sign = d < 0;
        let up = self.orientation() == TriOrientation::Up;
        let offset: i64 = if sign == up {
            1
        } else {
            0
        };
        (abs_i64(d) + offset) / 2
    }

    /// The faces where the segment from `self` to `b` crosses into the lane nearest each
    /// end, and the offsets that bridge the two lanes there.
    pub fn intersection(self, b: Triangle) -> (res: ([Triangle; 2], [Triangle; 2]))
        requires
            self.y != b.y,
            tri_fits(intersection_points(self.pos(), b.pos()).0),
            tri_fits(intersection_points(self.pos(), b.pos()).1),
        ensures
            res.0[0].pos() == intersection_points(self.pos(), b.pos()).0,
            res.0[1].pos() == intersection_points(self.pos(), b.pos()).1,
            res.1[0].pos() == intersection_offsets(self.pos(), b.pos()).0,
            res.1[1].pos() == intersection_offsets(self.pos(), b.pos()).1,
    {
        let dx = self.x as i64 - b.x as i64;
        let dy = self.y as i64 - b.y as i64;
        let ax = abs_i64(dx);
        let ay = abs_i64(dy);
        // The truncated quotient dx / dy is zero or negative exactly when |dx| < |dy| or
        // the signs differ.
        let nonpositive = ax < ay || dx == 0 || ((dx >= 0) != (dy > 0));
        proof {
            assert(nonpositive == slope_nonpositive(self.pos(), b.pos())) by {
                if ax < ay {
                    vstd::arithmetic::div_mod::lemma_basic_div(ax as int, ay as int);
                }
                if ax >= ay && ay > 0 {
                    vstd::arithmetic::div_mod::lemma_div_non_zero(ax as int, ay as int);
                }
            }
        }
        if nonpositive {
            let (x, z) = if self.x < b.x {
                (b.x, self.z)
            } else {
                (self.x, b.z)
            };
            (
                [
                    Triangle { x, y: Self::solve_coord((x, z), TriOrientation::Down), z },
                    Triangle { x, y: Self::solve_coord((x, z), TriOrientation::Up), z },
                ],
                [Triangle { x: -1, y: 1, z: 1 }, Triangle { x: -1, y: -1, z: 1 }],
            )
        } else {
            let (x, y) = if self.x < b.x {
                (b.x, self.y)
            } else {
                (self.x, b.y)
            };
            (
                [
                    Triangle { x, y, z: Self::solve_coord((x, y), TriOrientation::Up) },
                    Triangle { x, y, z: Self::solve_coord((x, y), TriOrientation::Down) },
                ],
                [Triangle { x: -1, y: 1, z: -1 }, Triangle { x: -1, y: 1, z: 1 }],
            )
        }
    }

    /// The first axis, if any, on which the two coordinates agree.
    pub fn shared_axis(self, b: Triangle) -> (res: Option<Axes3D>)
        ensures
            res == shared_axis_of(self.pos(), b.pos()),
    {
        if self.x == b.x {
            Some(Axes3D::X)
        } else if self.y == b.y {
            Some(Axes3D::Y)
        } else if self.z == b.z {
            Some(Axes3D::Z)
        } else {
            None
        }
    }

    /// The L1 distance between the two coordinates.
    pub fn distance(self, b: Triangle) -> (d: u32)
        requires
            t_dist(self.pos(), b.pos()) <= u32::MAX,
        ensures
            d == t_dist(self.pos(), b.pos()),
    {
        let dx = abs_i64(self.x as i64 - b.x as i64);
        let dy = abs_i64(self.y as i64 - b.y as i64);
        let dz = abs_i64(self.z as i64 - b.z as i64);
        (dx + dy + dz) as u32
    }

    /// The neighbouring face across the given side.
    pub fn neighbor(self, direction: TriDirection) -> (res: Triangle)
        requires
            tri_fits(tri_neighbor(self.pos(), direction)),
        ensures
            res.pos() == tri_neighbor(self.pos(), direction),
    {
        match (direction, self.orientation()) {
            (TriDirection::Left, TriOrientation::Up) => Triangle { x: self.x - 1, ..self },
            (TriDirection::Base, TriOrientation::Up) => Triangle { y: self.y - 1, ..self },
            (TriDirection::Right, TriOrientation::Up) => Triangle { z: self.z - 1, ..self },
            (TriDirection::Left, TriOrientation::Down) => Triangle { z: self.z + 1, ..self },
            (TriDirection::Base, TriOrientation::Down) => Triangle { y: self.y + 1, ..self },
            (TriDirection::Right, TriOrientation::Down) => Triangle { x: self.x + 1, ..self },
        }
    }

    /// The three neighbouring faces: left, right, base.
    pub fn neighbors(self) -> (res: [Triangle; 3])
        requires
            tri_neighbors_fit(self.pos()),
        ensures
            tri_positions(res@) == tri_neighbors(self.pos()),
    {
        let res = [
            self.neighbor(TriDirection::Left),
            self.neighbor(TriDirection::Right),
            self.neighbor(TriDirection::Base),
        ];
        assert(tri_positions(res@) =~= tri_neighbors(self.pos()));
        res
    }

    /// Whether every one of `coords` is a neighbour of `self`.
    pub fn are_neighbors(self, coords: &[Triangle]) -> (res: bool)
        requires
            tri_neighbors_fit(self.pos()),
        ensures
            res == forall|j: int|
                0 <= j < coords@.len() ==> tri_neighbors(self.pos()).contains(
                    #[trigger] coords@[j].pos(),
                ),
    {
        let neighbors = self.neighbors();
        let ghost ns = tri_neighbors(self.pos());
        let mut k: usize = 0;
        while k < coords.len()
            invariant
                k <= coords@.len(),
                ns == tri_neighbors(self.pos()),
                tri_positions(neighbors@) == ns,
                forall|j: int| 0 <= j < k ==> ns.contains(#[trigger] coords@[j].pos()),
            decreases coords@.len() - k,
        {
            let c = coords[k];
            assert(ns[0] == neighbors[0].pos() && ns[1] == neighbors[1].pos() && ns[2]
                == neighbors[2].pos());
            if !(neighbors[0] == c || neighbors[1] == c || neighbors[2] == c) {
                assert(!ns.contains(c.pos())) by {
                    if ns.contains(c.pos()) {
                        let m = choose|m: int| 0 <= m < 3 && ns[m] == c.pos();
                        assert(neighbors[m] == c);
                    }
                }
                return false;
            }
            assert(ns.contains(c.pos())) by {
                if neighbors[0] == c {
                    assert(ns[0] == c.pos());
                } else if neighbors[1] == c {
                    assert(ns[1] == c.pos());
                } else {
                    assert(ns[2] == c.pos());
                }
            }
            k = k + 1;
        }
        true
    }
}

proof fn lemma_next_face(c: Tri3, b: Tri3)
    requires
        is_face(c),
        is_face(b),
        c != b,
    ensures
        is_face(next_face(c, b)),
        t_dist(next_face(c, b), b) == t_dist(c, b) - 1,
        t_dist(c, next_face(c, b)) == 1,
        between(next_face(c, b), c, b),
        c.0 == b.0 ==> next_face(c, b).0 == b.0,
        c.1 == b.1 ==> next_face(c, b).1 == b.1,
        c.2 == b.2 ==> next_face(c, b).2 == b.2,
{
    assert(t_sum(c) % 2 == 1 <==> t_sum(c) == 1);
}

/// The walk from `c` to `b` is a shortest path of faces that stays in the box they span
/// and keeps every component on which they agree.
proof fn lemma_walk(c: Tri3, b: Tri3)
    requires
        is_face(c),
        is_face(b),
    ensures
        shortest_path(walk(c, b), c, b),
        keeps_shared(walk(c, b), c, b),
        forall|i: int| 0 <= i < walk(c, b).len() ==> is_face(#[trigger] walk(c, b)[i]),
        forall|i: int| 0 <= i < walk(c, b).len() ==> between(#[trigger] walk(c, b)[i], c, b),
    decreases t_dist(c, b),
{
    let w = walk(c, b);
    if c != b {
        lemma_next_face(c, b);
        let n = next_face(c, b);
        lemma_walk(n, b);
        let rest = walk(n, b);
        assert(w == seq![c] + rest);
        assert forall|i: int| 0 <= i < w.len() - 1 implies t_dist(#[trigger] w[i], w[i + 1]) == 1 by {
            if i > 0 {
                assert(w[i] == rest[i - 1] && w[i + 1] == rest[i]);
            }
        }
        assert forall|i: int| 1 <= i < w.len() implies #[trigger] w[i] == rest[i - 1] by {}
        assert(w[w.len() - 1] == rest[rest.len() - 1]);
    }
}

/// The line between two faces is a shortest path from `a` to `b`, its faces keep every
/// component on which the ends agree and lie in the box they span, and it is the line
/// from `b` to `a` read backwards.
pub proof fn lemma_tri_line(a: Triangle, b: Triangle)
    requires
        is_face(a.pos()),
        is_face(b.pos()),
    ensures
        shortest_path(tri_line(a.pos(), b.pos()), a.pos(), b.pos()),
        keeps_shared(tri_line(a.pos(), b.pos()), a.pos(), b.pos()),
        tri_line(a.pos(), b.pos()) == tri_line(b.pos(), a.pos()).reverse(),
        forall|i: int|
            0 <= i < tri_line(a.pos(), b.pos()).len() ==> is_face(
                #[trigger] tri_line(a.pos(), b.pos())[i],
            ) && between(tri_line(a.pos(), b.pos())[i], a.pos(), b.pos()),
{
    lemma_tri_line_spec(a.pos(), b.pos());
}

proof fn lemma_tri_line_spec(a: Tri3, b: Tri3)
    requires
        is_face(a),
        is_face(b),
    ensures
        shortest_path(tri_line(a, b), a, b),
        keeps_shared(tri_line(a, b), a, b),
        tri_line(a, b) == tri_line(b, a).reverse(),
        forall|i: int|
            0 <= i < tri_line(a, b).len() ==> is_face(#[trigger] tri_line(a, b)[i]) && between(
                tri_line(a, b)[i],
                a,
                b,
            ),
{
    lemma_walk(a, b);
    lemma_walk(b, a);
    let l = tri_line(a, b);
    if a == b {
        assert(walk(a, a) =~= seq![a]);
        assert(l =~= tri_line(b, a).reverse());
    } else if lex_le(a, b) {
        assert(!lex_le(b, a));
        assert(tri_line(b, a).reverse() =~= walk(a, b).reverse().reverse());
        assert(l =~= tri_line(b, a).reverse());
    } else {
        let w = walk(b, a);
        assert(lex_le(b, a));
        assert(l =~= tri_line(b, a).reverse());
        assert(t_dist(a, b) == t_dist(b, a));
        assert forall|i: int| 0 <= i < l.len() - 1 implies t_dist(#[trigger] l[i], l[i + 1]) == 1 by {
            let j = w.len() - 2 - i;
            assert(l[i] == w[j + 1] && l[i + 1] == w[j]);
            assert(t_dist(w[j], w[j + 1]) == 1);
        }
        assert forall|i: int| 0 <= i < l.len() implies #[trigger] l[i] == w[w.len() - 1 - i] by {}
    }
}

fn next_face_exec(c: Triangle, b: Triangle) -> (n: Triangle)
    requires
        is_face(c.pos()),
        is_face(b.pos()),
        c != b,
    ensures
        n.pos() == next_face(c.pos(), b.pos()),
{
    proof {
        lemma_next_face(c.pos(), b.pos());
    }
    let dx = b.x as i64 - c.x as i64;
    let dy = b.y as i64 - c.y as i64;
    let dz = b.z as i64 - c.z as i64;
    if c.orientation() == TriOrientation::Up {
        if dz < 0 && dz <= dx && dz <= dy {
            Triangle { z: c.z - 1, ..c }
        } else if dy < 0 && dy <= dx {
            Triangle { y: c.y - 1, ..c }
        } else {
            Triangle { x: c.x - 1, ..c }
        }
    } else {
        if dz > 0 && dz >= dx && dz >= dy {
            Triangle { z: c.z + 1, ..c }
        } else if dy > 0 && dy >= dx {
            Triangle { y: c.y + 1, ..c }
        } else {
            Triangle { x: c.x + 1, ..c }
        }
    }
}

/// The walk from `a` to `b`.
fn walk_exec(a: Triangle, b: Triangle) -> (res: Vec<Triangle>)
    requires
        is_face(a.pos()),
        is_face(b.pos()),
    ensures
        tri_positions(res@) == walk(a.pos(), b.pos()),
{
    let mut ret: Vec<Triangle> = Vec::new();
    let mut c = a;
    while c != b
        invariant
            is_face(c.pos()),
            is_face(b.pos()),
            tri_positions(ret@) + walk(c.pos(), b.pos()) == walk(a.pos(), b.pos()),
        decreases t_dist(c.pos(), b.pos()),
    {
        proof {
            lemma_next_face(c.pos(), b.pos());
            lemma_tri_positions_push(ret@, c);
            assert(walk(c.pos(), b.pos()) == seq![c.pos()] + walk(next_face(c.pos(), b.pos()), b.pos()));
            assert(tri_positions(ret@.push(c)) + walk(next_face(c.pos(), b.pos()), b.pos()) =~= tri_positions(ret@) + walk(c.pos(), b.pos()));
        }
        ret.push(c);
        c = next_face_exec(c, b);
    }
    proof {
        lemma_tri_positions_push(ret@, b);
        assert(walk(b.pos(), b.pos()) == seq![b.pos()]);
    }
    ret.push(b);
    assert(tri_positions(ret@) =~= walk(a.pos(), b.pos()));
    ret
}

/// `v` read backwards.
fn reversed(v: &Vec<Triangle>) -> (r: Vec<Triangle>)
    ensures
        tri_positions(r@) == tri_positions(v@).reverse(),
{
    let mut r: Vec<Triangle> = Vec::new();
    let ghost p = tri_positions(v@);
    let mut j: usize = v.len();
    while j > 0
        invariant
            j <= v@.len(),
            p == tri_positions(v@),
            tri_positions(r@) == p.reverse().take(v@.len() - j),
        decreases j,
    {
        j = j - 1;
        proof {
            lemma_tri_positions_push(r@, v@[j as int]);
        }
        r.push(v[j]);
        assert(tri_positions(r@) =~= p.reverse().take(v@.len() - j));
    }
    assert(p.reverse().take(v@.len() as int) =~= p.reverse());
    r
}

/// The two coordinates agree on the component of `axis`.
pub open spec fn agree_on(a: Tri3, b: Tri3, axis: Axes3D) -> bool {
    match axis {
        Axes3D::X => a.0 == b.0,
        Axes3D::Y => a.1 == b.1,
        Axes3D::Z => a.2 == b.2,
    }
}

impl Triangle {
    /// The faces from `self` to `b`, one per step, both ends included.
    ///
    /// The line walks from the lexicographically smaller end, so that the line from `b`
    /// to `self` is this one read backwards.
    pub fn line(self, b: Triangle) -> (res: Vec<Triangle>)
        requires
            is_face(self.pos()),
            is_face(b.pos()),
        ensures
            tri_positions(res@) == tri_line(self.pos(), b.pos()),
            shortest_path(tri_positions(res@), self.pos(), b.pos()),
            tri_positions(res@) == tri_line(b.pos(), self.pos()).reverse(),
            forall|i: int| 0 <= i < res@.len() ==> is_face(#[trigger] tri_positions(res@)[i]),
    {
        proof {
            lemma_tri_line_spec(self.pos(), b.pos());
        }
        if self == b {
            let res = vec![self];
            assert(tri_positions(res@) =~= tri_line(self.pos(), b.pos()));
            res
        } else {
            match self.shared_axis(b) {
                Some(axis) => self.line_along_axis(b, axis, true),
                None => self.sub_line(b),
            }
        }
    }

    /// The line from `self` toward `b` along the lane of `axis`, on which both agree;
    /// `b` itself is included only when `inclusive`.
    ///
    /// Each face of it keeps the component of `axis`.
    pub fn line_along_axis(self, b: Triangle, axis: Axes3D, inclusive: bool) -> (res: Vec<
        Triangle,
    >)
        requires
            is_face(self.pos()),
            is_face(b.pos()),
            agree_on(self.pos(), b.pos(), axis),
            inclusive || self != b,
        ensures
            inclusive ==> tri_positions(res@) == tri_line(self.pos(), b.pos()),
            !inclusive ==> tri_positions(res@) == tri_line(self.pos(), b.pos()).drop_last(),
            res@.len() == t_dist(self.pos(), b.pos()) + if inclusive {
                1int
            } else {
                0int
            },
            inclusive ==> shortest_path(tri_positions(res@), self.pos(), b.pos()),
            tri_positions(res@)[0] == self.pos(),
            forall|i: int|
                0 <= i < res@.len() - 1 ==> t_dist(
                    #[trigger] tri_positions(res@)[i],
                    tri_positions(res@)[i + 1],
                ) == 1,
            forall|i: int|
                0 <= i < res@.len() ==> agree_on(#[trigger] tri_positions(res@)[i], b.pos(), axis),
    {
        proof {
            lemma_tri_line_spec(self.pos(), b.pos());
        }
        let full = if self.x < b.x || (self.x == b.x && (self.y < b.y || (self.y == b.y
            && self.z <= b.z))) {
            walk_exec(self, b)
        } else {
            let w = walk_exec(b, self);
            reversed(&w)
        };
        let ghost l = tri_line(self.pos(), b.pos());
        assert(tri_positions(full@) == l);
        if inclusive {
            full
        } else {
            let mut full = full;
            proof {
                assert(tri_positions(full@.drop_last()) =~= l.drop_last());
            }
            full.pop();
            full
        }
    }

    /// The line between two faces that share no axis.
    fn sub_line(self, b: Triangle) -> (res: Vec<Triangle>)
        requires
            is_face(self.pos()),
            is_face(b.pos()),
            shared_axis_of(self.pos(), b.pos()) is None,
        ensures
            tri_positions(res@) == tri_line(self.pos(), b.pos()),
            shortest_path(tri_positions(res@), self.pos(), b.pos()),
    {
        proof {
            lemma_tri_line_spec(self.pos(), b.pos());
        }
        if self.x < b.x || (self.x == b.x && (self.y < b.y || (self.y == b.y && self.z <= b.z))) {
            walk_exec(self, b)
        } else {
            let w = walk_exec(b, self);
            reversed(&w)
        }
    }
}

/// The faces at offset `(dx, dy)` from `t` that lie within `n` of it: the one whose
/// components sum to 1 first, then the one whose components sum to 2.
pub open spec fn range_cell(t: Tri3, n: int, dx: int, dy: int) -> Seq<Tri3> {
    let dz0 = 1 - (t_sum(t) + dx + dy);
    let dz1 = dz0 + 1;
    let c0 = if abs(dx) + abs(dy) + abs(dz0) <= n {
        seq![(t.0 + dx, t.1 + dy, t.2 + dz0)]
    } else {
        Seq::empty()
    };
    let c1 = if abs(dx) + abs(dy) + abs(dz1) <= n {
        seq![(t.0 + dx, t.1 + dy, t.2 + dz1)]
    } else {
        Seq::empty()
    };
    c0 + c1
}

/// The smallest `dy` offset visited in row `dx` of a range of radius `n`.
pub open spec fn row_low(n: int, dx: int) -> int {
    max(-n - dx, -n)
}

/// The largest `dy` offset visited in row `dx` of a range of radius `n`.
pub open spec fn row_high(n: int, dx: int) -> int {
    min(n - dx, n)
}

/// The first `k` cells of row `dx`.
pub open spec fn range_row(t: Tri3, n: int, dx: int, k: nat) -> Seq<Tri3>
    decreases k,
{
    if k == 0 {
        Seq::empty()
    } else {
        range_row(t, n, dx, (k - 1) as nat) + range_cell(t, n, dx, row_low(n, dx) + k - 1)
    }
}

/// The first `k` rows, `dx` running from `-n`.
pub open spec fn range_rows(t: Tri3, n: int, k: nat) -> Seq<Tri3>
    decreases k,
{
    if k == 0 {
        Seq::empty()
    } else {
        let dx = -n + k - 1;
        range_rows(t, n, (k - 1) as nat) + range_row(
            t,
            n,
            dx,
            (row_high(n, dx) - row_low(n, dx) + 1) as nat,
        )
    }
}

/// The faces within L1 distance `n` of `t`, by increasing x offset, then y offset.
pub open spec fn tri_range(t: Tri3, n: int) -> Seq<Tri3> {
    if n < 0 {
        Seq::empty()
    } else {
        range_rows(t, n, (2 * n + 1) as nat)
    }
}

impl Triangle {
    /// The faces within L1 distance `dist` of this coordinate.
    #[verifier::rlimit(60)]
    pub fn range(self, dist: i32) -> (res: Vec<Triangle>)
        requires
            dist >= 0 ==> box_fits(self.pos(), dist as int),
        ensures
            tri_positions(res@) == tri_range(self.pos(), dist as int),
    {
        let mut ret: Vec<Triangle> = Vec::new();
        if dist < 0 {
            assert(tri_positions(ret@) =~= Seq::<Tri3>::empty());
            return ret;
        }
        let n = dist as i64;
        let sum = self.x as i64 + self.y as i64 + self.z as i64;
        let ghost t = self.pos();
        let mut dx: i64 = -n;
        while dx <= n
            invariant
                n == dist,
                dist >= 0,
                t == self.pos(),
                sum == t_sum(t),
                box_fits(t, n as int),
                -n <= dx <= n + 1,
                tri_positions(ret@) == range_rows(t, n as int, (dx + n) as nat),
            decreases n + 1 - dx,
        {
            let lo = if -n - dx > -n {
                -n - dx
            } else {
                -n
            };
            let hi = if n - dx < n {
                n - dx
            } else {
                n
            };
            let ghost before = tri_positions(ret@);
            let mut dy: i64 = lo;
            while dy <= hi
                invariant
                    n == dist,
                    t == self.pos(),
                    sum == t_sum(t),
                    box_fits(t, n as int),
                    -n <= dx <= n,
                    lo == row_low(n as int, dx as int),
                    hi == row_high(n as int, dx as int),
                    lo <= dy <= hi + 1,
                    tri_positions(ret@) == before + range_row(t, n as int, dx as int, (dy - lo) as nat),
                decreases hi + 1 - dy,
            {
                let ghost row = tri_positions(ret@);
                let dz0 = 1 - (sum + dx + dy);
                let dz1 = dz0 + 1;
                let ghost cell = range_cell(t, n as int, dx as int, dy as int);
                let d0 = abs_i64(dx) + abs_i64(dy) + abs_i64(dz0);
                let d1 = abs_i64(dx) + abs_i64(dy) + abs_i64(dz1);
                if d0 <= n {
                    let f = Triangle {
                        x: (self.x as i64 + dx) as i32,
                        y: (self.y as i64 + dy) as i32,
                        z: (self.z as i64 + dz0) as i32,
                    };
                    proof {
                        lemma_tri_positions_push(ret@, f);
                    }
                    ret.push(f);
                }
                if d1 <= n {
                    let f = Triangle {
                        x: (self.x as i64 + dx) as i32,
                        y: (self.y as i64 + dy) as i32,
                        z: (self.z as i64 + dz1) as i32,
                    };
                    proof {
                        lemma_tri_positions_push(ret@, f);
                    }
                    ret.push(f);
                }
                assert(tri_positions(ret@) =~= row + cell);
                assert(range_row(t, n as int, dx as int, (dy + 1 - lo) as nat) =~= range_row(
                    t,
                    n as int,
                    dx as int,
                    (dy - lo) as nat,
                ) + cell);
                dy = dy + 1;
            }
            assert(tri_positions(ret@) =~= range_rows(t, n as int, (dx + 1 + n) as nat));
            dx = dx + 1;
        }
        ret
    }
}

/// Six turns bring every coordinate back; turning by `k` then `-k` undoes the turn.
pub proof fn lemma_tri_rotate_back(t: Triangle, k: i32)
    ensures
        tri_rotate(t.pos(), 6) == t.pos(),
        tri_rotate(tri_rotate(t.pos(), k as int), -k) == t.pos(),
{
    let m = k as int % 6;
    assert(m == 0 ==> (-k) as int % 6 == 0);
    assert(m == 1 ==> (-k) as int % 6 == 5);
    assert(m == 2 ==> (-k) as int % 6 == 4);
    assert(m == 3 ==> (-k) as int % 6 == 3);
    assert(m == 4 ==> (-k) as int % 6 == 2);
    assert(m == 5 ==> (-k) as int % 6 == 1);
}

/// Each of the three neighbours of a face is one step away from it.
pub proof fn lemma_tri_neighbors_at_distance_one(a: Triangle)
    ensures
        forall|i: int| 0 <= i < 3 ==> t_dist(a.pos(), #[trigger] tri_neighbors(a.pos())[i]) == 1,
{
}

/// The three lane values of a coordinate, each three times the signed distance of its
/// centre from a family of grid lines.
pub open spec fn lanes(t: Tri3) -> Tri3 {
    (2 * t.0 - t.1 - t.2, 2 * t.1 - t.0 - t.2, 2 * t.2 - t.0 - t.1)
}

/// `a / d` rounded down (for `d > 0`).
pub open spec fn floor_div(a: int, d: int) -> int {
    a / d
}

/// `a / d` rounded up (for `d > 0`).
pub open spec fn ceil_div(a: int, d: int) -> int {
    -((-a) / d)
}

/// The face that contains the point `m / n` of the way from the centre of `a` to the
/// centre of `b` (for `n > 0`).
///
/// A point of the plane lies in the face whose x and z components are the ceilings, and
/// whose y component is the floor plus one, of its lane values over 3.
pub open spec fn face_at(a: Tri3, b: Tri3, m: int, n: int) -> Tri3 {
    let la = lanes(a);
    let lb = lanes(b);
    (
        ceil_div(la.0 * (n - m) + lb.0 * m, 3 * n),
        floor_div(la.1 * (n - m) + lb.1 * m, 3 * n) + 1,
        ceil_div(la.2 * (n - m) + lb.2 * m, 3 * n),
    )
}

/// The face at each centre is that face itself.
pub proof fn lemma_face_at_center(t: Triangle, b: Triangle, n: int)
    requires
        is_face(t.pos()),
        n > 0,
    ensures
        face_at(t.pos(), b.pos(), 0, n) == t.pos(),
{
    let a = t.pos();
    let s = t_sum(a);
    let la = lanes(a);
    assert(la.0 == 3 * a.0 - s && la.1 == 3 * a.1 - s && la.2 == 3 * a.2 - s);
    let lb = lanes(b.pos());
    lemma_lane_center(la.0, lb.0, n, a.0, s);
    lemma_lane_center(la.1, lb.1, n, a.1, s);
    lemma_lane_center(la.2, lb.2, n, a.2, s);
}

/// For a lane value `3c - s` of a face, the ceiling of its third is `c` and the floor
/// of its third is `c - 1`, at any scale `n`.
proof fn lemma_lane_center(l: int, other: int, n: int, c: int, s: int)
    requires
        n > 0,
        s == 1 || s == 2,
        l == 3 * c - s,
    ensures
        ceil_div(l * (n - 0) + other * 0, 3 * n) == c,
        floor_div(l * (n - 0) + other * 0, 3 * n) == c - 1,
{
    let v = l * (n - 0) + other * 0;
    assert(v == 3 * c * n - s * n) by (nonlinear_arith)
        requires
            v == l * (n - 0) + other * 0,
            l == 3 * c - s,
    ;
    vstd::arithmetic::div_mod::lemma_fundamental_div_mod(v, 3 * n);
    vstd::arithmetic::div_mod::lemma_fundamental_div_mod(-v, 3 * n);
    let q1 = v / (3 * n);
    let r1 = v % (3 * n);
    let q2 = (-v) / (3 * n);
    let r2 = (-v) % (3 * n);
    assert(q1 == c - 1) by (nonlinear_arith)
        requires
            n > 0,
            s == 1 || s == 2,
            v == 3 * c * n - s * n,
            v == 3 * n * q1 + r1,
            0 <= r1 < 3 * n,
    ;
    assert(q2 == -c) by (nonlinear_arith)
        requires
            n > 0,
            s == 1 || s == 2,
            v == 3 * c * n - s * n,
            -v == 3 * n * q2 + r2,
            0 <= r2 < 3 * n,
    ;
}

/// Each component of the face at a point between two faces lies between the same
/// components of the two faces.
proof fn lemma_lane_between(la: int, lb: int, m: int, n: int, lo: int, hi: int)
    requires
        n > 0,
        0 <= m <= n,
        3 * lo - 2 <= la <= 3 * hi - 1,
        3 * lo - 2 <= lb <= 3 * hi - 1,
    ensures
        lo <= ceil_div(la * (n - m) + lb * m, 3 * n) <= hi,
        lo <= floor_div(la * (n - m) + lb * m, 3 * n) + 1 <= hi,
{
    let v = la * (n - m) + lb * m;
    assert((3 * lo - 2) * n <= v <= (3 * hi - 1) * n) by (nonlinear_arith)
        requires
            n > 0,
            0 <= m <= n,
            v == la * (n - m) + lb * m,
            3 * lo - 2 <= la <= 3 * hi - 1,
            3 * lo - 2 <= lb <= 3 * hi - 1,
    ;
    vstd::arithmetic::div_mod::lemma_fundamental_div_mod(v, 3 * n);
    vstd::arithmetic::div_mod::lemma_fundamental_div_mod(-v, 3 * n);
    let q1 = v / (3 * n);
    let r1 = v % (3 * n);
    let q2 = (-v) / (3 * n);
    let r2 = (-v) % (3 * n);
    assert(lo - 1 <= q1 <= hi - 1) by (nonlinear_arith)
        requires
            n > 0,
            (3 * lo - 2) * n <= v <= (3 * hi - 1) * n,
            v == 3 * n * q1 + r1,
            0 <= r1 < 3 * n,
    ;
    assert(-hi <= q2 <= -lo) by (nonlinear_arith)
        requires
            n > 0,
            (3 * lo - 2) * n <= v <= (3 * hi - 1) * n,
            -v == 3 * n * q2 + r2,
            0 <= r2 < 3 * n,
    ;
}

/// The face at any point between two faces lies in the box the two faces span.
proof fn lemma_face_at_between(a: Tri3, b: Tri3, m: int, n: int)
    requires
        is_face(a),
        is_face(b),
        n > 0,
        0 <= m <= n,
    ensures
        min(a.0, b.0) <= face_at(a, b, m, n).0 <= max(a.0, b.0),
        min(a.1, b.1) <= face_at(a, b, m, n).1 <= max(a.1, b.1),
        min(a.2, b.2) <= face_at(a, b, m, n).2 <= max(a.2, b.2),
{
    let (la, lb) = (lanes(a), lanes(b));
    lemma_lane_between(la.0, lb.0, m, n, min(a.0, b.0), max(a.0, b.0));
    lemma_lane_between(la.1, lb.1, m, n, min(a.1, b.1), max(a.1, b.1));
    lemma_lane_between(la.2, lb.2, m, n, min(a.2, b.2), max(a.2, b.2));
}

fn floor_div_exec(v: i128, d: i128) -> (q: i128)
    requires
        d > 0,
        -0x1_0000_0000_0000_0000_0000 <= v <= 0x1_0000_0000_0000_0000_0000,
    ensures
        q == floor_div(v as int, d as int),
        -0x1_0000_0000_0000_0000_0001 <= q <= 0x1_0000_0000_0000_0000_0000,
{
    if v >= 0 {
        let q = v / d;
        assert(q <= v) by (nonlinear_arith)
            requires
                d > 0,
                v >= 0,
                q == v / d,
        ;
        q
    } else {
        let w = -v;
        let q = w / d;
        let r = w % d;
        proof {
            vstd::arithmetic::div_mod::lemma_fundamental_div_mod(w as int, d as int);
        }
        assert(q <= w) by (nonlinear_arith)
            requires
                d > 0,
                w >= 0,
                q == w / d,
        ;
        assert(w == q * d + r) by (nonlinear_arith)
            requires
                w == d * q + r,
        ;
        if r == 0 {
            assert(v == (-q) * d + 0) by (nonlinear_arith)
                requires
                    v == -w,
                    w == q * d + r,
                    r == 0,
            ;
            proof {
                vstd::arithmetic::div_mod::lemma_fundamental_div_mod_converse(
                    v as int,
                    d as int,
                    -q as int,
                    0,
                );
            }
            -q
        } else {
            assert(v == (-q - 1) * d + (d - r)) by (nonlinear_arith)
                requires
                    v == -w,
                    w == q * d + r,
            ;
            proof {
                vstd::arithmetic::div_mod::lemma_fundamental_div_mod_converse(
                    v as int,
                    d as int,
                    -q - 1,
                    d - r,
                );
            }
            -q - 1
        }
    }
}

/// The face at any point between two centres is a face.
proof fn lemma_face_at_is_face(a: Tri3, b: Tri3, m: int, n: int)
    requires
        n > 0,
    ensures
        is_face(face_at(a, b, m, n)),
{
    let (la, lb) = (lanes(a), lanes(b));
    let v0 = la.0 * (n - m) + lb.0 * m;
    let v1 = la.1 * (n - m) + lb.1 * m;
    let v2 = la.2 * (n - m) + lb.2 * m;
    assert(v0 + v1 + v2 == 0) by (nonlinear_arith)
        requires
            v0 == la.0 * (n - m) + lb.0 * m,
            v1 == la.1 * (n - m) + lb.1 * m,
            v2 == la.2 * (n - m) + lb.2 * m,
            la.0 + la.1 + la.2 == 0,
            lb.0 + lb.1 + lb.2 == 0,
    ;
    let d = 3 * n;
    vstd::arithmetic::div_mod::lemma_fundamental_div_mod(-v0, d);
    vstd::arithmetic::div_mod::lemma_fundamental_div_mod(v1, d);
    vstd::arithmetic::div_mod::lemma_fundamental_div_mod(-v2, d);
    let (qa, qb, qc) = ((-v0) / d, v1 / d, (-v2) / d);
    let (ra, rb, rc) = ((-v0) % d, v1 % d, (-v2) % d);
    assert(-qa + qb + 1 - qc == 1 || -qa + qb + 1 - qc == 2) by (nonlinear_arith)
        requires
            d > 0,
            -v0 == d * qa + ra,
            v1 == d * qb + rb,
            -v2 == d * qc + rc,
            0 <= ra < d,
            0 <= rb < d,
            0 <= rc < d,
            v0 + v1 + v2 == 0,
    ;
}

/// The face at the far end of the segment is the far face itself.
proof fn lemma_face_at_end(a: Tri3, b: Tri3, n: int)
    requires
        is_face(b),
        n > 0,
    ensures
        face_at(a, b, n, n) == b,
{
    let s = t_sum(b);
    let (la, lb) = (lanes(a), lanes(b));
    lemma_lane_end(la.0, lb.0, n, b.0, s);
    lemma_lane_end(la.1, lb.1, n, b.1, s);
    lemma_lane_end(la.2, lb.2, n, b.2, s);
}

proof fn lemma_lane_end(other: int, l: int, n: int, c: int, s: int)
    requires
        n > 0,
        s == 1 || s == 2,
        l == 3 * c - s,
    ensures
        ceil_div(other * (n - n) + l * n, 3 * n) == c,
        floor_div(other * (n - n) + l * n, 3 * n) == c - 1,
{
    assert(other * (n - n) + l * n == l * (n - 0) + other * 0) by (nonlinear_arith);
    lemma_lane_center(l, other, n, c, s);
}

/// The face at the point `m / n` of the way from the centre of `a` to that of `b`.
fn face_at_exec(a: Triangle, b: Triangle, m: i64, n: i64) -> (f: Triangle)
    requires
        n > 0,
        0 <= m <= n <= u32::MAX,
        is_face(a.pos()),
        is_face(b.pos()),
    ensures
        f.pos() == face_at(a.pos(), b.pos(), m as int, n as int),
        is_face(f.pos()),
        between(f.pos(), a.pos(), b.pos()),
{
    proof {
        lemma_face_at_between(a.pos(), b.pos(), m as int, n as int);
        lemma_face_at_is_face(a.pos(), b.pos(), m as int, n as int);
    }
    let (ax, ay, az) = (a.x as i128, a.y as i128, a.z as i128);
    let (bx, by, bz) = (b.x as i128, b.y as i128, b.z as i128);
    let (m, n) = (m as i128, n as i128);
    let rest = n - m;
    assert(forall|l: int, k: int|
        -0x4_0000_0000 <= l <= 0x4_0000_0000 && 0 <= k <= 0x1_0000_0000 ==> -0x4_0000_0000_0000_0000
            <= #[trigger] (l * k) <= 0x4_0000_0000_0000_0000) by {
        assert forall|l: int, k: int|
            -0x4_0000_0000 <= l <= 0x4_0000_0000 && 0 <= k <= 0x1_0000_0000 implies -0x4_0000_0000_0000_0000
            <= #[trigger] (l * k) <= 0x4_0000_0000_0000_0000 by {
            assert(-0x4_0000_0000_0000_0000 <= l * k <= 0x4_0000_0000_0000_0000)
                by (nonlinear_arith)
                requires
                    -0x4_0000_0000 <= l <= 0x4_0000_0000,
                    0 <= k <= 0x1_0000_0000,
            ;
        }
    }
    let vx = (2 * ax - ay - az) * rest + (2 * bx - by - bz) * m;
    let vy = (2 * ay - ax - az) * rest + (2 * by - bx - bz) * m;
    let vz = (2 * az - ax - ay) * rest + (2 * bz - bx - by) * m;
    let d = 3 * n;
    let x = -floor_div_exec(-vx, d);
    let y = floor_div_exec(vy, d) + 1;
    let z = -floor_div_exec(-vz, d);
    Triangle { x: x as i32, y: y as i32, z: z as i32 }
}

/// The ends of the chords of a smooth line from `a` to `b` whose chords span `step`
/// steps: the faces every `step` steps along the way, then `b` itself where the distance
/// leaves a remainder.
pub open spec fn chord_ends(a: Tri3, b: Tri3, step: int) -> Seq<Tri3> {
    let d = t_dist(a, b);
    let ends = Seq::new((d / step) as nat, |i: int| face_at(a, b, step * (i + 1), d));
    if d % step > 0 {
        ends.push(b)
    } else {
        ends
    }
}

/// `a`, then the lines from `a` to the first end and from each end to the next, the first
/// `k` of them, each without the face it starts from (the end of the one before).
pub open spec fn chord_lines(a: Tri3, ends: Seq<Tri3>, k: nat) -> Seq<Tri3>
    decreases k,
{
    if k == 0 {
        seq![a]
    } else {
        let start = if k == 1 {
            a
        } else {
            ends[k - 2]
        };
        let l = tri_line(start, ends[k - 1]);
        chord_lines(a, ends, (k - 1) as nat) + l.subrange(1, l.len() as int)
    }
}

/// A line from `a` to `b` made of chords of `step` steps, each drawn with `tri_line`.
pub open spec fn smooth_line_of(a: Tri3, b: Tri3, step: int) -> Seq<Tri3> {
    let ends = chord_ends(a, b, step);
    chord_lines(a, ends, ends.len())
}

/// Joined chords run from `a` to the last end reached, each face a neighbour of the one
/// before it.
proof fn lemma_chord_lines(a: Tri3, ends: Seq<Tri3>, k: nat)
    requires
        is_face(a),
        forall|j: int| 0 <= j < ends.len() ==> is_face(#[trigger] ends[j]),
        k <= ends.len(),
    ensures
        chord_lines(a, ends, k).len() >= 1,
        chord_lines(a, ends, k)[0] == a,
        chord_lines(a, ends, k)[chord_lines(a, ends, k).len() - 1] == if k == 0 {
            a
        } else {
            ends[k - 1]
        },
        forall|i: int|
            0 <= i < chord_lines(a, ends, k).len() - 1 ==> t_dist(
                #[trigger] chord_lines(a, ends, k)[i],
                chord_lines(a, ends, k)[i + 1],
            ) == 1,
        forall|i: int|
            0 <= i < chord_lines(a, ends, k).len() ==> is_face(#[trigger] chord_lines(a, ends, k)[i]),
    decreases k,
{
    if k > 0 {
        lemma_chord_lines(a, ends, (k - 1) as nat);
        let prev = chord_lines(a, ends, (k - 1) as nat);
        let start = if k == 1 {
            a
        } else {
            ends[k - 2]
        };
        let e = ends[k - 1];
        lemma_tri_line_spec(start, e);
        let l = tri_line(start, e);
        let tail = l.subrange(1, l.len() as int);
        let s = chord_lines(a, ends, k);
        assert(s == prev + tail);
        let p = prev.len();
        assert forall|i: int| 0 <= i < s.len() - 1 implies t_dist(#[trigger] s[i], s[i + 1]) == 1 by {
            if i + 1 < p {
                assert(s[i] == prev[i] && s[i + 1] == prev[i + 1]);
            } else if i + 1 == p {
                assert(s[i] == l[0] && s[i + 1] == l[1]);
            } else {
                assert(s[i] == l[i - p + 1] && s[i + 1] == l[i - p + 2]);
            }
        }
        assert forall|i: int| 0 <= i < s.len() implies is_face(#[trigger] s[i]) by {
            if i < p {
                assert(s[i] == prev[i]);
            } else {
                assert(s[i] == l[i - p + 1]);
            }
        }
        if l.len() == 1 {
            assert(start == e);
            assert(s =~= prev);
        } else {
            assert(s[s.len() - 1] == l[l.len() - 1]);
        }
        assert(s[0] == prev[0]);
    }
}

impl Triangle {
    /// A line from `self` to `b` drawn as chords of `step_size` steps between faces picked
    /// on the straight segment, each chord drawn with `line` and joined at its ends.
    #[verifier::rlimit(100)]
    pub fn smooth_line(self, b: Triangle, step_size: u32) -> (res: Vec<Triangle>)
        requires
            step_size > 0,
            is_face(self.pos()),
            is_face(b.pos()),
            t_dist(self.pos(), b.pos()) <= u32::MAX,
        ensures
            tri_positions(res@) == smooth_line_of(self.pos(), b.pos(), step_size as int),
            res@.len() >= 1,
            res@[0] == self,
            res@[res@.len() - 1] == b,
            forall|i: int|
                0 <= i < res@.len() - 1 ==> t_dist(
                    #[trigger] tri_positions(res@)[i],
                    tri_positions(res@)[i + 1],
                ) == 1,
            forall|i: int| 0 <= i < res@.len() ==> is_face(#[trigger] tri_positions(res@)[i]),
    {
        let ghost (a, bp) = (self.pos(), b.pos());
        let dist = self.distance(b);
        let num = dist / step_size;
        let ghost ends = chord_ends(a, bp, step_size as int);
        let mut endpoints: Vec<Triangle> = Vec::new();
        let mut i: u32 = 0;
        while i < num
            invariant
                a == self.pos(),
                bp == b.pos(),
                is_face(a),
                is_face(bp),
                step_size > 0,
                dist == t_dist(a, bp),
                num == dist / step_size,
                i <= num,
                tri_positions(endpoints@) == Seq::new(
                    i as nat,
                    |j: int| face_at(a, bp, step_size * (j + 1), dist as int),
                ),
            decreases num - i,
        {
            assert(step_size * (i + 1) <= dist) by (nonlinear_arith)
                requires
                    step_size > 0,
                    i < num,
                    num == dist / step_size,
            ;
            let m = step_size as i64 * (i as i64 + 1);
            let f = face_at_exec(self, b, m, dist as i64);
            proof {
                lemma_tri_positions_push(endpoints@, f);
            }
            endpoints.push(f);
            assert(tri_positions(endpoints@) =~= Seq::new(
                (i + 1) as nat,
                |j: int| face_at(a, bp, step_size * (j + 1), dist as int),
            ));
            i = i + 1;
        }
        if dist % step_size > 0 {
            proof {
                lemma_tri_positions_push(endpoints@, b);
            }
            endpoints.push(b);
        }
        assert(tri_positions(endpoints@) =~= ends);
        proof {
            assert forall|j: int| 0 <= j < ends.len() implies is_face(#[trigger] ends[j]) by {
                if j < num {
                    lemma_face_at_is_face(a, bp, step_size * (j + 1), dist as int);
                }
            }
            lemma_chord_lines(a, ends, ends.len());
            let d = dist as int;
            let st = step_size as int;
            vstd::arithmetic::div_mod::lemma_fundamental_div_mod(d, st);
            if ends.len() == 0 {
                assert(d == 0);
            } else if d % st == 0 {
                assert(st * ((ends.len() - 1) + 1) == d) by (nonlinear_arith)
                    requires
                        ends.len() == d / st,
                        d == st * (d / st) + d % st,
                        d % st == 0,
                ;
                lemma_face_at_end(a, bp, d);
            }
        }
        let mut ret: Vec<Triangle> = Vec::new();
        ret.push(self);
        assert(tri_positions(ret@) =~= chord_lines(a, ends, 0));
        let mut start = self;
        let mut k: usize = 0;
        while k < endpoints.len()
            invariant
                a == self.pos(),
                is_face(a),
                ends == chord_ends(a, bp, step_size as int),
                tri_positions(endpoints@) == ends,
                forall|j: int| 0 <= j < ends.len() ==> is_face(#[trigger] ends[j]),
                k <= endpoints@.len(),
                start.pos() == if k == 0 {
                    a
                } else {
                    ends[k - 1]
                },
                tri_positions(ret@) == chord_lines(a, ends, k as nat),
            decreases endpoints@.len() - k,
        {
            let e = endpoints[k];
            assert(e.pos() == ends[k as int]);
            let seg = start.line(e);
            let ghost before = tri_positions(ret@);
            let ghost l = tri_positions(seg@);
            let mut j: usize = 1;
            while j < seg.len()
                invariant
                    1 <= j <= seg@.len(),
                    l == tri_positions(seg@),
                    tri_positions(ret@) == before + l.subrange(1, j as int),
                decreases seg@.len() - j,
            {
                proof {
                    lemma_tri_positions_push(ret@, seg@[j as int]);
                }
                ret.push(seg[j]);
                assert(tri_positions(ret@) =~= before + l.subrange(1, j + 1));
                j = j + 1;
            }
            assert(tri_positions(ret@) =~= chord_lines(a, ends, (k + 1) as nat));
            start = e;
            k = k + 1;
        }
        proof {
            let r = tri_positions(ret@);
            assert(r[0] == ret@[0].pos());
            assert(r[r.len() - 1] == ret@[ret@.len() - 1].pos());
        }
        ret
    }
}

} // verus!
