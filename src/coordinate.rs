//! Axial coordinates for hexagonal grids.
use vstd::prelude::*;
use crate::edge::{Edge, EdgeDirection};
use crate::vertex::{vertex_of, vertices_fit, Vertex, VertexDirection};

verus! {

/// A mathematical integer that an `i32` can hold.
pub open spec fn fits(x: int) -> bool {
    i32::MIN <= x <= i32::MAX
}

/// Both components of a pair fit in `i32`.
pub open spec fn pair_fits(p: (int, int)) -> bool {
    fits(p.0) && fits(p.1)
}

pub open spec fn abs(x: int) -> int {
    if x < 0 {
        -x
    } else {
        x
    }
}

pub open spec fn pair_add(a: (int, int), b: (int, int)) -> (int, int) {
    (a.0 + b.0, a.1 + b.1)
}

pub open spec fn pair_sub(a: (int, int), b: (int, int)) -> (int, int) {
    (a.0 - b.0, a.1 - b.1)
}

pub open spec fn pair_scale(a: (int, int), k: int) -> (int, int) {
    (a.0 * k, a.1 * k)
}

/// The derived third cube component `s = -q - r`.
pub open spec fn cube_s(p: (int, int)) -> int {
    -p.0 - p.1
}

/// The number of unit steps between two hex tiles.
pub open spec fn hex_distance(a: (int, int), b: (int, int)) -> int {
    (abs(a.0 - b.0) + abs(a.0 - b.0 + a.1 - b.1) + abs(a.1 - b.1)) / 2
}

/// Axial based coordinates for hexagon grids.
///
/// Only `q` and `r` are stored; `s` is derived so that `q + r + s = 0`.
#[derive(PartialEq, Eq, Structural, Copy, Clone, Hash, Debug, Default)]
pub struct Axial {
    /// q (x) coordinate
    pub q: i32,
    /// r (y) coordinate
    pub r: i32,
}

impl Axial {
    /// The coordinate as a pair of mathematical integers.
    pub open spec fn pos(self) -> (int, int) {
        (self.q as int, self.r as int)
    }
}

impl From<Axial> for (i32, i32) {
    fn from(value: Axial) -> (r: (i32, i32))
        ensures
            r == (value.q, value.r),
    {
        (value.q, value.r)
    }
}

impl vstd::std_specs::convert::FromSpecImpl<Axial> for (i32, i32) {
    open spec fn obeys_from_spec() -> bool {
        true
    }

    open spec fn from_spec(v: Axial) -> (i32, i32) {
        (v.q, v.r)
    }
}

/// Describes one of the six directions from a hex tile, clockwise from positive q.
#[derive(PartialEq, Eq, Structural, Copy, Clone, Hash, Debug)]
pub enum HexDirection {
    /// Direction denoting positive q (x) axis
    Front,
    /// Direction 60° CW from `Front`; the positive r (y) axis
    FrontRight,
    /// Direction 120° CW from `Front`
    BackRight,
    /// Direction 180° CW from `Front`
    Back,
    /// Direction 240° CW from `Front`
    BackLeft,
    /// Direction 300° CW from `Front`
    FrontLeft,
}

impl HexDirection {
    /// Position of the direction in clockwise order, `Front` being 0.
    pub open spec fn index(self) -> int {
        match self {
            HexDirection::Front => 0,
            HexDirection::FrontRight => 1,
            HexDirection::BackRight => 2,
            HexDirection::Back => 3,
            HexDirection::BackLeft => 4,
            HexDirection::FrontLeft => 5,
        }
    }

    /// The direction at position `i` modulo 6.
    pub open spec fn from_index(i: int) -> HexDirection {
        let m = i % 6;
        if m == 0 {
            HexDirection::Front
        } else if m == 1 {
            HexDirection::FrontRight
        } else if m == 2 {
            HexDirection::BackRight
        } else if m == 3 {
            HexDirection::Back
        } else if m == 4 {
            HexDirection::BackLeft
        } else {
            HexDirection::FrontLeft
        }
    }

    /// The unit offset of the direction.
    pub open spec fn unit(self) -> (int, int) {
        match self {
            HexDirection::Front => (1, 0),
            HexDirection::FrontRight => (0, 1),
            HexDirection::BackRight => (-1, 1),
            HexDirection::Back => (-1, 0),
            HexDirection::BackLeft => (0, -1),
            HexDirection::FrontLeft => (1, -1),
        }
    }

    /// Converts the direction to an `Axial` unit vector.
    pub fn to_movement_vector(&self) -> (r: Axial)
        ensures
            r.pos() == self.unit(),
    {
        match self {
            HexDirection::Front => Axial { q: 1, r: 0 },
            HexDirection::FrontRight => Axial { q: 0, r: 1 },
            HexDirection::BackRight => Axial { q: -1, r: 1 },
            HexDirection::Back => Axial { q: -1, r: 0 },
            HexDirection::BackLeft => Axial { q: 0, r: -1 },
            HexDirection::FrontLeft => Axial { q: 1, r: -1 },
        }
    }
}

impl From<i32> for HexDirection {
    /// The direction at position `value` modulo 6 (never negative).
    fn from(value: i32) -> (r: HexDirection)
        ensures
            r == HexDirection::from_index(value as int),
    {
        let m = value % 6;
        let m = if m < 0 {
            m + 6
        } else {
            m
        };
        if m == 0 {
            HexDirection::Front
        } else if m == 1 {
            HexDirection::FrontRight
        } else if m == 2 {
            HexDirection::BackRight
        } else if m == 3 {
            HexDirection::Back
        } else if m == 4 {
            HexDirection::BackLeft
        } else {
            HexDirection::FrontLeft
        }
    }
}

impl vstd::std_specs::convert::FromSpecImpl<i32> for HexDirection {
    open spec fn obeys_from_spec() -> bool {
        true
    }

    open spec fn from_spec(v: i32) -> HexDirection {
        HexDirection::from_index(v as int)
    }
}

impl From<HexDirection> for i32 {
    fn from(value: HexDirection) -> (r: i32)
        ensures
            r == value.index(),
    {
        match value {
            HexDirection::Front => 0,
            HexDirection::FrontRight => 1,
            HexDirection::BackRight => 2,
            HexDirection::Back => 3,
            HexDirection::BackLeft => 4,
            HexDirection::FrontLeft => 5,
        }
    }
}

impl vstd::std_specs::convert::FromSpecImpl<HexDirection> for i32 {
    open spec fn obeys_from_spec() -> bool {
        true
    }

    open spec fn from_spec(v: HexDirection) -> i32 {
        v.index() as i32
    }
}

/// The three axes of symmetry of a hexagon.
#[derive(PartialEq, Eq, Structural, Copy, Clone, Hash, Debug)]
pub enum Axes {
    /// q axis of a hexagonal grid
    Q,
    /// r axis of a hexagonal grid
    R,
    /// s axis of a hexagonal grid
    S,
}

/// The offset `magnitude` steps away in direction `rot_dir` (taken modulo 6).
pub open spec fn vector_of(magnitude: int, rot_dir: int) -> (int, int) {
    pair_scale(HexDirection::from_index(rot_dir).unit(), magnitude)
}

/// Whether `b` is one of the six tiles around `a`.
pub open spec fn adjacent(a: (int, int), b: (int, int)) -> bool {
    exists|i: int| 0 <= i < 6 && b == pair_add(a, HexDirection::from_index(i).unit())
}

/// The coordinates of the six neighbours of `a` fit in `i32`.
pub open spec fn neighbors_fit(a: (int, int)) -> bool {
    fits(a.0 - 1) && fits(a.0 + 1) && fits(a.1 - 1) && fits(a.1 + 1)
}

impl core::ops::Add for Axial {
    type Output = Axial;

    fn add(self, rhs: Axial) -> (res: Axial)
        ensures
            res.pos() == pair_add(self.pos(), rhs.pos()),
    {
        Axial { q: self.q + rhs.q, r: self.r + rhs.r }
    }
}

impl vstd::std_specs::ops::AddSpecImpl for Axial {
    open spec fn obeys_add_spec() -> bool {
        true
    }

    open spec fn add_req(self, rhs: Axial) -> bool {
        pair_fits(pair_add(self.pos(), rhs.pos()))
    }

    open spec fn add_spec(self, rhs: Axial) -> Axial {
        Axial { q: (self.q + rhs.q) as i32, r: (self.r + rhs.r) as i32 }
    }
}

impl core::ops::Sub for Axial {
    type Output = Axial;

    fn sub(self, rhs: Axial) -> (res: Axial)
        ensures
            res.pos() == pair_sub(self.pos(), rhs.pos()),
    {
        Axial { q: self.q - rhs.q, r: self.r - rhs.r }
    }
}

impl vstd::std_specs::ops::SubSpecImpl for Axial {
    open spec fn obeys_sub_spec() -> bool {
        true
    }

    open spec fn sub_req(self, rhs: Axial) -> bool {
        pair_fits(pair_sub(self.pos(), rhs.pos()))
    }

    open spec fn sub_spec(self, rhs: Axial) -> Axial {
        Axial { q: (self.q - rhs.q) as i32, r: (self.r - rhs.r) as i32 }
    }
}

impl core::ops::Mul<i32> for Axial {
    type Output = Axial;

    fn mul(self, rhs: i32) -> (res: Axial)
        ensures
            res.pos() == pair_scale(self.pos(), rhs as int),
    {
        Axial { q: self.q * rhs, r: self.r * rhs }
    }
}

impl vstd::std_specs::ops::MulSpecImpl<i32> for Axial {
    open spec fn obeys_mul_spec() -> bool {
        true
    }

    open spec fn mul_req(self, rhs: i32) -> bool {
        pair_fits(pair_scale(self.pos(), rhs as int))
    }

    open spec fn mul_spec(self, rhs: i32) -> Axial {
        Axial { q: (self.q * rhs) as i32, r: (self.r * rhs) as i32 }
    }
}

impl core::ops::Div<i32> for Axial {
    type Output = Axial;

    /// Divides each component, truncating toward zero.
    fn div(self, rhs: i32) -> (res: Axial)
        ensures
            res.q as int == trunc_div(self.q as int, rhs as int),
            res.r as int == trunc_div(self.r as int, rhs as int),
    {
        Axial { q: div_toward_zero(self.q, rhs), r: div_toward_zero(self.r, rhs) }
    }
}

fn div_toward_zero(a: i32, b: i32) -> (c: i32)
    requires
        b != 0,
        !(b == -1 && a == i32::MIN),
    ensures
        c as int == trunc_div(a as int, b as int),
{
    let ua: i64 = if a < 0 {
        -(a as i64)
    } else {
        a as i64
    };
    let ub: i64 = if b < 0 {
        -(b as i64)
    } else {
        b as i64
    };
    let m = ua / ub;
    assert(m <= ua && (ub >= 2 ==> 2 * m <= ua)) by (nonlinear_arith)
        requires
            ub >= 1,
            ua >= 0,
            m == ua / ub,
    ;
    assert(m == abs(a as int) / abs(b as int));
    if (a >= 0) == (b > 0) {
        m as i32
    } else {
        -m as i32
    }
}

/// Integer division rounding toward zero, as Rust's `/` does.
pub open spec fn trunc_div(a: int, b: int) -> int {
    if (a >= 0) == (b > 0) {
        abs(a) / abs(b)
    } else {
        -(abs(a) / abs(b))
    }
}

impl vstd::std_specs::ops::DivSpecImpl<i32> for Axial {
    open spec fn obeys_div_spec() -> bool {
        true
    }

    open spec fn div_req(self, rhs: i32) -> bool {
        rhs != 0 && !(rhs == -1 && (self.q == i32::MIN || self.r == i32::MIN))
    }

    open spec fn div_spec(self, rhs: i32) -> Axial {
        Axial {
            q: trunc_div(self.q as int, rhs as int) as i32,
            r: trunc_div(self.r as int, rhs as int) as i32,
        }
    }
}

impl core::ops::Neg for Axial {
    type Output = Axial;

    fn neg(self) -> (res: Axial)
        ensures
            res.pos() == (-self.q, -self.r),
    {
        Axial { q: -self.q, r: -self.r }
    }
}

impl vstd::std_specs::ops::NegSpecImpl for Axial {
    open spec fn obeys_neg_spec() -> bool {
        true
    }

    open spec fn neg_req(self) -> bool {
        self.q > i32::MIN && self.r > i32::MIN
    }

    open spec fn neg_spec(self) -> Axial {
        Axial { q: (-self.q) as i32, r: (-self.r) as i32 }
    }
}

impl Axial {
    /// Computes the s component, following `q + r + s = 0`.
    pub fn compute_s(&self) -> (s: i32)
        requires
            fits(cube_s(self.pos())),
        ensures
            s == cube_s(self.pos()),
    {
        -(self.q as i64 + self.r as i64) as i32
    }

    /// Shifts the cube components left: `(q, r, s)` becomes `(r, s, q)`.
    pub fn swizzle_l(&self) -> (res: Axial)
        requires
            fits(cube_s(self.pos())),
        ensures
            res.pos() == (self.r as int, cube_s(self.pos())),
    {
        Axial { q: self.r, r: self.compute_s() }
    }

    /// Shifts the cube components right: `(q, r, s)` becomes `(s, q, r)`.
    pub fn swizzle_r(&self) -> (res: Axial)
        requires
            fits(cube_s(self.pos())),
        ensures
            res.pos() == (cube_s(self.pos()), self.q as int),
    {
        Axial { q: self.compute_s(), r: self.q }
    }

    /// The coordinate `magnitude` steps away in direction `rot_dir`.
    ///
    /// `rot_dir` counts 60° turns clockwise from `Front`; negative turns go counter-clockwise.
    pub fn make_vector(&self, magnitude: i32, rot_dir: i32) -> (res: Axial)
        requires
            pair_fits(pair_add(self.pos(), vector_of(magnitude as int, rot_dir as int))),
        ensures
            res.pos() == pair_add(self.pos(), vector_of(magnitude as int, rot_dir as int)),
    {
        let unit = HexDirection::from(rot_dir).to_movement_vector();
        let q = self.q as i64 + unit.q as i64 * magnitude as i64;
        let r = self.r as i64 + unit.r as i64 * magnitude as i64;
        Axial { q: q as i32, r: r as i32 }
    }

    /// The neighbouring tile in the given direction.
    pub fn neighbor(&self, direction: HexDirection) -> (res: Axial)
        requires
            neighbors_fit(self.pos()),
        ensures
            res.pos() == pair_add(self.pos(), direction.unit()),
    {
        self.make_vector(1, direction.into())
    }

    /// All six neighbours, clockwise from `Front`.
    pub fn neighbors(&self) -> (res: [Axial; 6])
        requires
            neighbors_fit(self.pos()),
        ensures
            forall|i: int|
                0 <= i < 6 ==> #[trigger] res[i].pos() == pair_add(
                    self.pos(),
                    HexDirection::from_index(i).unit(),
                ),
    {
        [
            self.neighbor(HexDirection::Front),
            self.neighbor(HexDirection::FrontRight),
            self.neighbor(HexDirection::BackRight),
            self.neighbor(HexDirection::Back),
            self.neighbor(HexDirection::BackLeft),
            self.neighbor(HexDirection::FrontLeft),
        ]
    }

    /// Whether every one of `coords` is a neighbour of `self`.
    pub fn are_neighbors(&self, coords: &[Axial]) -> (res: bool)
        requires
            neighbors_fit(self.pos()),
        ensures
            res == forall|j: int| 0 <= j < coords@.len() ==> adjacent(self.pos(), #[trigger] coords@[j].pos()),
    {
        let neighbors = self.neighbors();
        let mut k: usize = 0;
        while k < coords.len()
            invariant
                k <= coords@.len(),
                forall|j: int| 0 <= j < k ==> adjacent(self.pos(), #[trigger] coords@[j].pos()),
                forall|i: int|
                    0 <= i < 6 ==> #[trigger] neighbors[i].pos() == pair_add(
                        self.pos(),
                        HexDirection::from_index(i).unit(),
                    ),
            decreases coords@.len() - k,
        {
            let c = coords[k];
            let mut found = false;
            let mut i: usize = 0;
            while i < 6
                invariant
                    i <= 6,
                    found ==> adjacent(self.pos(), c.pos()),
                    !found ==> forall|m: int| 0 <= m < i ==> neighbors[m] != c,
                    forall|m: int|
                        0 <= m < 6 ==> #[trigger] neighbors[m].pos() == pair_add(
                            self.pos(),
                            HexDirection::from_index(m).unit(),
                        ),
                decreases 6 - i,
            {
                if neighbors[i] == c {
                    found = true;
                    assert(c.pos() == pair_add(self.pos(), HexDirection::from_index(i as int).unit()));
                }
                i = i + 1;
            }
            if !found {
                assert(!adjacent(self.pos(), c.pos())) by {
                    if adjacent(self.pos(), c.pos()) {
                        let m = choose|m: int|
                            0 <= m < 6 && c.pos() == pair_add(
                                self.pos(),
                                HexDirection::from_index(m).unit(),
                            );
                        assert(neighbors[m].pos() == c.pos());
                    }
                }
                return false;
            }
            k = k + 1;
        }
        true
    }

    /// The number of unit steps between `self` and `b`.
    pub fn distance(&self, b: Axial) -> (d: i32)
        requires
            hex_distance(self.pos(), b.pos()) <= i32::MAX,
        ensures
            d == hex_distance(self.pos(), b.pos()),
    {
        let dq = self.q as i64 - b.q as i64;
        let dr = self.r as i64 - b.r as i64;
        let ds = dq + dr;
        let aq = if dq < 0 {
            -dq
        } else {
            dq
        };
        let ar = if dr < 0 {
            -dr
        } else {
            dr
        };
        let as_ = if ds < 0 {
            -ds
        } else {
            ds
        };
        ((aq + as_ + ar) / 2) as i32
    }
}

/// One clockwise 60° turn about the origin.
pub open spec fn rot_cw(p: (int, int)) -> (int, int) {
    (-p.1, p.0 + p.1)
}

/// One counter-clockwise 60° turn about the origin.
pub open spec fn rot_ccw(p: (int, int)) -> (int, int) {
    (p.0 + p.1, -p.0)
}

/// `n` clockwise 60° turns about the origin.
pub open spec fn rot_cw_n(p: (int, int), n: nat) -> (int, int)
    decreases n,
{
    if n == 0 {
        p
    } else {
        rot_cw_n(rot_cw(p), (n - 1) as nat)
    }
}

/// `n` counter-clockwise 60° turns about the origin.
pub open spec fn rot_ccw_n(p: (int, int), n: nat) -> (int, int)
    decreases n,
{
    if n == 0 {
        p
    } else {
        rot_ccw_n(rot_ccw(p), (n - 1) as nat)
    }
}

/// `p` turned `k` times 60° clockwise about `center` (counter-clockwise for negative `k`).
pub open spec fn rotate_about(p: (int, int), center: (int, int), k: int) -> (int, int) {
    pair_add(center, rot_cw_n(pair_sub(p, center), (k % 6) as nat))
}

/// Every cube component of `p`, and its negation, fits in `i32`.
pub open spec fn cube_fits(p: (int, int)) -> bool {
    &&& -i32::MAX <= p.0 <= i32::MAX
    &&& -i32::MAX <= p.1 <= i32::MAX
    &&& -i32::MAX <= p.0 + p.1 <= i32::MAX
}

/// `p` mirrored across an axis of symmetry through `center`.
pub open spec fn reflect_about(p: (int, int), center: (int, int), axes: Axes) -> (int, int) {
    let c = pair_sub(p, center);
    let m = match axes {
        Axes::Q => (c.0, cube_s(c)),
        Axes::R => (cube_s(c), c.1),
        Axes::S => (c.1, c.0),
    };
    pair_add(m, center)
}

/// The point chosen for `center`, the origin where none is given.
pub open spec fn center_or_origin(center: Option<Axial>) -> (int, int) {
    match center {
        Some(c) => c.pos(),
        None => (0, 0),
    }
}

/// Six clockwise turns make a full revolution.
pub proof fn lemma_rot_cw_six(p: (int, int))
    ensures
        rot_cw_n(p, 6) == p,
{
    reveal_with_fuel(rot_cw_n, 7);
}

/// Turning `a` times and then `b` times is turning `a + b` times.
pub proof fn lemma_rot_cw_n_add(p: (int, int), a: nat, b: nat)
    ensures
        rot_cw_n(rot_cw_n(p, a), b) == rot_cw_n(p, a + b),
    decreases a,
{
    if a > 0 {
        lemma_rot_cw_n_add(rot_cw(p), (a - 1) as nat, b);
    }
}

proof fn lemma_rot_ccw_is_cw(p: (int, int), n: nat)
    requires
        n < 6,
    ensures
        rot_ccw_n(p, n) == rot_cw_n(p, ((6 - n) % 6) as nat),
{
    reveal_with_fuel(rot_cw_n, 7);
    reveal_with_fuel(rot_ccw_n, 7);
}

proof fn lemma_rot_keeps_cube_fits(p: (int, int), n: nat)
    requires
        cube_fits(p),
    ensures
        cube_fits(rot_cw_n(p, n)),
        cube_fits(rot_ccw_n(p, n)),
    decreases n,
{
    if n > 0 {
        lemma_rot_keeps_cube_fits(rot_cw(p), (n - 1) as nat);
        lemma_rot_keeps_cube_fits(rot_ccw(p), (n - 1) as nat);
    }
}

impl Axial {
    /// Mirrors the coordinate across an axis of symmetry through `center` (the origin if `None`).
    pub fn reflect(&self, center: Option<Axial>, axes: Axes) -> (res: Axial)
        requires
            pair_fits(reflect_about(self.pos(), center_or_origin(center), axes)),
        ensures
            res.pos() == reflect_about(self.pos(), center_or_origin(center), axes),
    {
        let (cq, cr): (i64, i64) = match center {
            Some(c) => (c.q as i64, c.r as i64),
            None => (0, 0),
        };
        let q = self.q as i64 - cq;
        let r = self.r as i64 - cr;
        let s = -q - r;
        let (mq, mr): (i64, i64) = match axes {
            Axes::Q => (q, s),
            Axes::R => (s, r),
            Axes::S => (r, q),
        };
        Axial { q: (mq + cq) as i32, r: (mr + cr) as i32 }
    }

    /// Turns the coordinate `iter` times by 60° about the origin, clockwise when `cw`.
    fn rotate_recursive(&self, iter: usize, cw: bool) -> (res: Axial)
        requires
            cube_fits(self.pos()),
        ensures
            cw ==> res.pos() == rot_cw_n(self.pos(), iter as nat),
            !cw ==> res.pos() == rot_ccw_n(self.pos(), iter as nat),
            cube_fits(res.pos()),
        decreases iter,
    {
        if iter == 0 {
            *self
        } else {
            let input = if cw {
                core::ops::Neg::neg(self.swizzle_l())
            } else {
                core::ops::Neg::neg(self.swizzle_r())
            };
            proof {
                lemma_rot_keeps_cube_fits(self.pos(), 1);
                reveal_with_fuel(rot_cw_n, 2);
                reveal_with_fuel(rot_ccw_n, 2);
            }
            input.rotate_recursive(iter - 1, cw)
        }
    }

    /// Turns the coordinate by `rot_dir` 60° steps about `center` (the origin if `None`).
    ///
    /// Positive `rot_dir` turns clockwise, negative counter-clockwise.
    pub fn rotate(&self, center: Option<Axial>, rot_dir: i32) -> (res: Axial)
        requires
            cube_fits(pair_sub(self.pos(), center_or_origin(center))),
            pair_fits(rotate_about(self.pos(), center_or_origin(center), rot_dir as int)),
        ensures
            res.pos() == rotate_about(self.pos(), center_or_origin(center), rot_dir as int),
    {
        let center = match center {
            Some(c) => c,
            None => Axial { q: 0, r: 0 },
        };
        let centered = *self - center;
        let turned = if rot_dir < 0 {
            let steps = (-(rot_dir % 6)) as usize;
            proof {
                lemma_rot_ccw_is_cw(centered.pos(), steps as nat);
            }
            centered.rotate_recursive(steps, false)
        } else {
            centered.rotate_recursive((rot_dir % 6) as usize, true)
        };
        turned + center
    }
}

pub open spec fn min(a: int, b: int) -> int {
    if a < b {
        a
    } else {
        b
    }
}

pub open spec fn max(a: int, b: int) -> int {
    if a < b {
        b
    } else {
        a
    }
}

/// The tiles of column `c.0 + dq` that lie within `n` steps of `c`, by increasing `r`.
pub open spec fn range_column(c: (int, int), n: int, dq: int) -> Seq<(int, int)> {
    let lo = max(-n, -dq - n);
    let hi = min(n, -dq + n);
    Seq::new((hi - lo + 1) as nat, |j: int| (c.0 + dq, c.1 + lo + j))
}

/// The first `k` columns of `hex_range(c, n)`.
pub open spec fn range_columns(c: (int, int), n: int, k: nat) -> Seq<(int, int)>
    decreases k,
{
    if k == 0 {
        Seq::empty()
    } else {
        range_columns(c, n, (k - 1) as nat) + range_column(c, n, -n + k - 1)
    }
}

/// The tiles within `n` steps of `c`, by increasing `q`, then increasing `r`.
pub open spec fn hex_range(c: (int, int), n: int) -> Seq<(int, int)> {
    if n < 0 {
        Seq::empty()
    } else {
        range_columns(c, n, (2 * n + 1) as nat)
    }
}

/// The coordinates of a sequence of tiles.
pub open spec fn positions(s: Seq<Axial>) -> Seq<(int, int)> {
    s.map_values(|a: Axial| a.pos())
}

/// `n / d` rounded to the nearest integer, halves away from zero (for `d > 0`).
pub open spec fn round_div(n: int, d: int) -> int {
    if n >= 0 {
        (2 * n + d) / (2 * d)
    } else {
        -((-2 * n + d) / (2 * d))
    }
}

/// The tile nearest to the fractional point `(nq / d, nr / d)`.
///
/// Each component is rounded on its own; the one with the larger remainder is then
/// corrected by half the other's remainder, which keeps `q + r + s = 0`.
pub open spec fn hex_round(nq: int, nr: int, d: int) -> (int, int) {
    let qg = round_div(nq, d);
    let rg = round_div(nr, d);
    let q_rem = nq - qg * d;
    let r_rem = nr - rg * d;
    if abs(q_rem) >= abs(r_rem) {
        (qg + round_div(2 * q_rem + r_rem, 2 * d), rg)
    } else {
        (qg, rg + round_div(2 * r_rem + q_rem, 2 * d))
    }
}

/// The tile at the point `i / n` of the way from `a` to `b`.
pub open spec fn line_point(a: (int, int), b: (int, int), i: int, n: int) -> (int, int) {
    hex_round(a.0 * n + (b.0 - a.0) * i, a.1 * n + (b.1 - a.1) * i, n)
}

/// The tiles on the straight line from `a` to `b`, one per step, both ends included.
pub open spec fn hex_line(a: (int, int), b: (int, int)) -> Seq<(int, int)> {
    let n = hex_distance(a, b);
    if n == 0 {
        seq![a]
    } else {
        Seq::new((n + 1) as nat, |i: int| line_point(a, b, i, n))
    }
}

proof fn lemma_round_div_bounds(n: int, d: int, lo: int, hi: int)
    requires
        d > 0,
        lo * d <= n <= hi * d,
    ensures
        lo <= round_div(n, d) <= hi,
        -d <= 2 * (n - round_div(n, d) * d) <= d,
{
    if n >= 0 {
        let t = (2 * n + d) / (2 * d);
        vstd::arithmetic::div_mod::lemma_fundamental_div_mod(2 * n + d, 2 * d);
        let m = (2 * n + d) % (2 * d);
        assert(0 <= m < 2 * d);
        assert(2 * n + d == 2 * d * t + m);
        assert(lo <= t <= hi) by (nonlinear_arith)
            requires
                d > 0,
                lo * d <= n <= hi * d,
                0 <= m < 2 * d,
                2 * n + d == 2 * d * t + m,
        ;
        assert(-d <= 2 * (n - t * d) <= d) by (nonlinear_arith)
            requires
                0 <= m < 2 * d,
                2 * n + d == 2 * d * t + m,
        ;
    } else {
        let t = (-2 * n + d) / (2 * d);
        vstd::arithmetic::div_mod::lemma_fundamental_div_mod(-2 * n + d, 2 * d);
        let m = (-2 * n + d) % (2 * d);
        assert(0 <= m < 2 * d);
        assert(-2 * n + d == 2 * d * t + m);
        assert(lo <= -t <= hi) by (nonlinear_arith)
            requires
                d > 0,
                lo * d <= n <= hi * d,
                0 <= m < 2 * d,
                -2 * n + d == 2 * d * t + m,
        ;
        assert(-d <= 2 * (n - (-t) * d) <= d) by (nonlinear_arith)
            requires
                0 <= m < 2 * d,
                -2 * n + d == 2 * d * t + m,
        ;
    }
}

/// Rounding the grid guess's remainder never leaves the range the point lies in.
proof fn lemma_round_correction(g: int, rem: int, other: int, d: int, lo: int, hi: int)
    requires
        d > 0,
        lo <= g <= hi,
        -d <= 2 * rem <= d,
        abs(other) <= abs(rem),
        lo * d <= g * d + rem <= hi * d,
    ensures
        lo <= g + round_div(2 * rem + other, 2 * d) <= hi,
{
    let x = 2 * rem + other;
    let l: int = if g > lo {
        -1
    } else {
        0
    };
    let h: int = if g < hi {
        1
    } else {
        0
    };
    if g == hi {
        assert(rem <= 0) by (nonlinear_arith)
            requires
                g * d + rem <= hi * d,
                g == hi,
        ;
    }
    if g == lo {
        assert(rem >= 0) by (nonlinear_arith)
            requires
                lo * d <= g * d + rem,
                g == lo,
        ;
    }
    assert(l * (2 * d) <= x <= h * (2 * d)) by (nonlinear_arith)
        requires
            d > 0,
            x == 2 * rem + other,
            -d <= 2 * rem <= d,
            abs(other) <= abs(rem),
            h == 1 || (h == 0 && rem <= 0),
            l == -1 || (l == 0 && rem >= 0),
    ;
    lemma_round_div_bounds(x, 2 * d, l, h);
}

/// A rounded point of a line lies in the bounding box of its two ends.
proof fn lemma_line_point_bounds(a: (int, int), b: (int, int), i: int, n: int)
    requires
        0 <= i <= n,
        n > 0,
    ensures
        min(a.0, b.0) <= line_point(a, b, i, n).0 <= max(a.0, b.0),
        min(a.1, b.1) <= line_point(a, b, i, n).1 <= max(a.1, b.1),
        ({
            let nq = a.0 * n + (b.0 - a.0) * i;
            let nr = a.1 * n + (b.1 - a.1) * i;
            &&& min(a.0, b.0) <= round_div(nq, n) <= max(a.0, b.0)
            &&& min(a.1, b.1) <= round_div(nr, n) <= max(a.1, b.1)
            &&& -n <= 2 * (nq - round_div(nq, n) * n) <= n
            &&& -n <= 2 * (nr - round_div(nr, n) * n) <= n
        }),
{
    let nq = a.0 * n + (b.0 - a.0) * i;
    let nr = a.1 * n + (b.1 - a.1) * i;
    assert(min(a.0, b.0) * n <= nq <= max(a.0, b.0) * n) by (nonlinear_arith)
        requires
            0 <= i <= n,
            nq == a.0 * n + (b.0 - a.0) * i,
    ;
    assert(min(a.1, b.1) * n <= nr <= max(a.1, b.1) * n) by (nonlinear_arith)
        requires
            0 <= i <= n,
            nr == a.1 * n + (b.1 - a.1) * i,
    ;
    lemma_round_div_bounds(nq, n, min(a.0, b.0), max(a.0, b.0));
    lemma_round_div_bounds(nr, n, min(a.1, b.1), max(a.1, b.1));
    let qg = round_div(nq, n);
    let rg = round_div(nr, n);
    let q_rem = nq - qg * n;
    let r_rem = nr - rg * n;
    if abs(q_rem) >= abs(r_rem) {
        lemma_round_correction(qg, q_rem, r_rem, n, min(a.0, b.0), max(a.0, b.0));
    } else {
        lemma_round_correction(rg, r_rem, q_rem, n, min(a.1, b.1), max(a.1, b.1));
    }
}

proof fn lemma_positions_push(s: Seq<Axial>, a: Axial)
    ensures
        positions(s.push(a)) == positions(s).push(a.pos()),
{
    assert(positions(s.push(a)) =~= positions(s).push(a.pos()));
}

fn round_div_exec(n: i128, d: i128) -> (r: i128)
    requires
        d > 0,
        -0x1000_0000_0000_0000_0000_0000 <= n <= 0x1000_0000_0000_0000_0000_0000,
        d <= 0x1000_0000_0000_0000_0000_0000,
    ensures
        r == round_div(n as int, d as int),
{
    if n >= 0 {
        (2 * n + d) / (2 * d)
    } else {
        let m = -n;
        -((2 * m + d) / (2 * d))
    }
}

impl Axial {
    /// All tiles within `range` steps, by increasing `q`, then increasing `r`.
    pub fn range(&self, range: i32) -> (res: Vec<Axial>)
        requires
            range >= 0 ==> pair_fits((self.q - range, self.r - range)) && pair_fits(
                (self.q + range, self.r + range),
            ),
        ensures
            positions(res@) == hex_range(self.pos(), range as int),
            range >= 0 ==> res@.len() == 3 * range * range + 3 * range + 1,
    {
        let mut ret: Vec<Axial> = Vec::new();
        if range < 0 {
            assert(positions(ret@) =~= Seq::empty());
            return ret;
        }
        let n = range as i64;
        let c = *self;
        let mut dq: i64 = -n;
        while dq <= n
            invariant
                n == range,
                c == *self,
                -n <= dq <= n + 1,
                range >= 0,
                pair_fits((self.q - range, self.r - range)),
                pair_fits((self.q + range, self.r + range)),
                positions(ret@) == range_columns(self.pos(), n as int, (dq + n) as nat),
            decreases n + 1 - dq,
        {
            let lo = if -n > -dq - n {
                -n
            } else {
                -dq - n
            };
            let hi = if n < -dq + n {
                n
            } else {
                -dq + n
            };
            let ghost col = range_column(self.pos(), n as int, dq as int);
            let ghost before = positions(ret@);
            let mut dr: i64 = lo;
            while dr <= hi
                invariant
                    n == range,
                    c == *self,
                    -n <= dq <= n,
                    lo == max(-n as int, -dq - n),
                    hi == min(n as int, -dq + n),
                    lo <= dr <= hi + 1,
                    pair_fits((self.q - range, self.r - range)),
                    pair_fits((self.q + range, self.r + range)),
                    col == range_column(self.pos(), n as int, dq as int),
                    positions(ret@) == before + col.take(dr - lo),
                decreases hi + 1 - dr,
            {
                assert(-n <= dr <= n);
                let a = Axial { q: (c.q as i64 + dq) as i32, r: (c.r as i64 + dr) as i32 };
                assert(a.pos() == col[dr - lo]);
                proof {
                    lemma_positions_push(ret@, a);
                }
                ret.push(a);
                assert(col.take(dr + 1 - lo) =~= col.take(dr - lo).push(col[dr - lo]));
                assert(positions(ret@) =~= before + col.take(dr + 1 - lo));
                dr = dr + 1;
            }
            assert(col.take(hi + 1 - lo) =~= col);
            assert(positions(ret@) =~= range_columns(self.pos(), n as int, (dq + 1 + n) as nat));
            dq = dq + 1;
        }
        proof {
            lemma_range_len(self.pos(), range as int);
        }
        ret
    }

    /// The tiles on the straight line from `self` to `b`, both ends included.
    ///
    /// The `i`-th tile is the one nearest to the point `i / distance` of the way.
    pub fn line(&self, b: Axial) -> (res: Vec<Axial>)
        requires
            hex_distance(self.pos(), b.pos()) <= i32::MAX,
        ensures
            positions(res@) == hex_line(self.pos(), b.pos()),
    {
        let dist = self.distance(b);
        let mut ret: Vec<Axial> = Vec::new();
        if dist == 0 {
            ret.push(*self);
            assert(positions(ret@) =~= hex_line(self.pos(), b.pos()));
            return ret;
        }
        let n = dist as i128;
        let aq = self.q as i128;
        let ar = self.r as i128;
        let dq = b.q as i128 - aq;
        let dr = b.r as i128 - ar;
        let mut i: i128 = 0;
        while i <= n
            invariant
                n == hex_distance(self.pos(), b.pos()),
                0 < n <= i32::MAX,
                0 <= i <= n + 1,
                aq == self.q,
                ar == self.r,
                dq == b.q - self.q,
                dr == b.r - self.r,
                positions(ret@) == Seq::new(
                    i as nat,
                    |j: int| line_point(self.pos(), b.pos(), j, n as int),
                ),
            decreases n + 1 - i,
        {
            assert(-0x4000_0000_0000_0000 <= aq * n <= 0x4000_0000_0000_0000) by (nonlinear_arith)
                requires
                    0 <= n <= 0x7fff_ffff,
                    -0x8000_0000 <= aq < 0x8000_0000,
            ;
            assert(-0x4000_0000_0000_0000 <= ar * n <= 0x4000_0000_0000_0000) by (nonlinear_arith)
                requires
                    0 <= n <= 0x7fff_ffff,
                    -0x8000_0000 <= ar < 0x8000_0000,
            ;
            assert(-0x8000_0000_0000_0000 <= dq * i <= 0x8000_0000_0000_0000) by (nonlinear_arith)
                requires
                    0 <= i <= 0x8000_0000,
                    -0x1_0000_0000 <= dq <= 0x1_0000_0000,
            ;
            assert(-0x8000_0000_0000_0000 <= dr * i <= 0x8000_0000_0000_0000) by (nonlinear_arith)
                requires
                    0 <= i <= 0x8000_0000,
                    -0x1_0000_0000 <= dr <= 0x1_0000_0000,
            ;
            let nq = aq * n + dq * i;
            let nr = ar * n + dr * i;
            let qg = round_div_exec(nq, n);
            let rg = round_div_exec(nr, n);
            proof {
                lemma_line_point_bounds(self.pos(), b.pos(), i as int, n as int);
            }
            let q_rem = nq - qg * n;
            let r_rem = nr - rg * n;
            let abs_q = if q_rem < 0 { -q_rem } else { q_rem };
            let abs_r = if r_rem < 0 { -r_rem } else { r_rem };
            let (q, r) = if abs_q >= abs_r {
                (qg + round_div_exec(2 * q_rem + r_rem, 2 * n), rg)
            } else {
                (qg, rg + round_div_exec(2 * r_rem + q_rem, 2 * n))
            };
            let p = Axial { q: q as i32, r: r as i32 };
            assert(p.pos() == line_point(self.pos(), b.pos(), i as int, n as int));
            proof {
                lemma_positions_push(ret@, p);
            }
            ret.push(p);
            assert(positions(ret@) =~= Seq::new(
                (i + 1) as nat,
                |j: int| line_point(self.pos(), b.pos(), j, n as int),
            ));
            i = i + 1;
        }
        assert(positions(ret@) =~= hex_line(self.pos(), b.pos()));
        ret
    }
}

/// The six edges of hex `a`, clockwise from the north-east one.
pub open spec fn edges_of(a: (int, int)) -> Seq<(int, int, EdgeDirection)> {
    seq![
        (a.0, a.1, EdgeDirection::NorthEast),
        (a.0 + 1, a.1, EdgeDirection::West),
        (a.0, a.1 + 1, EdgeDirection::NorthWest),
        (a.0 - 1, a.1 + 1, EdgeDirection::NorthEast),
        (a.0, a.1, EdgeDirection::West),
        (a.0, a.1, EdgeDirection::NorthWest),
    ]
}

/// The directions, seen from `a`, of the two vertices that hex `a` shares with its
/// neighbour `b`; none where `b` is no neighbour of `a`.
pub open spec fn shared_two_dirs(a: (int, int), b: (int, int)) -> Option<
    (VertexDirection, VertexDirection),
> {
    if b == pair_add(a, HexDirection::Front.unit()) {
        Some((VertexDirection::UpRight, VertexDirection::DownRight))
    } else if b == pair_add(a, HexDirection::FrontRight.unit()) {
        Some((VertexDirection::DownRight, VertexDirection::Down))
    } else if b == pair_add(a, HexDirection::BackRight.unit()) {
        Some((VertexDirection::Down, VertexDirection::DownLeft))
    } else if b == pair_add(a, HexDirection::Back.unit()) {
        Some((VertexDirection::DownLeft, VertexDirection::UpLeft))
    } else if b == pair_add(a, HexDirection::BackLeft.unit()) {
        Some((VertexDirection::UpLeft, VertexDirection::Up))
    } else if b == pair_add(a, HexDirection::FrontLeft.unit()) {
        Some((VertexDirection::Up, VertexDirection::UpRight))
    } else {
        None
    }
}

/// Whether the lattice point `v` is one of the six vertices of hex `c`.
pub open spec fn hex_has_vertex(c: (int, int), v: (int, int, int)) -> bool {
    exists|i: int| 0 <= i < 6 && vertex_of(c, VertexDirection::from_index(i)) == v
}

/// The vertex shared by hexes `a`, `b` and `c`, if they meet at one.
pub open spec fn shared_three(a: (int, int), b: (int, int), c: (int, int)) -> Option<(int, int, int)> {
    match shared_two_dirs(a, b) {
        None => None,
        Some((d0, d1)) => if hex_has_vertex(c, vertex_of(a, d0)) {
            Some(vertex_of(a, d0))
        } else if hex_has_vertex(c, vertex_of(a, d1)) {
            Some(vertex_of(a, d1))
        } else {
            None
        },
    }
}

impl Axial {
    /// The vertex of this hex in the given direction.
    pub fn vertex(&self, vert_dir: VertexDirection) -> (res: Vertex)
        requires
            vertices_fit(self.pos()),
        ensures
            res.pos() == vertex_of(self.pos(), vert_dir),
    {
        Vertex::from((*self, vert_dir))
    }

    /// The six vertices of this hex, clockwise from the top.
    pub fn vertices(&self) -> (res: [Vertex; 6])
        requires
            vertices_fit(self.pos()),
        ensures
            forall|i: int|
                0 <= i < 6 ==> #[trigger] res[i].pos() == vertex_of(
                    self.pos(),
                    VertexDirection::from_index(i),
                ),
    {
        [
            self.vertex(VertexDirection::Up),
            self.vertex(VertexDirection::UpRight),
            self.vertex(VertexDirection::DownRight),
            self.vertex(VertexDirection::Down),
            self.vertex(VertexDirection::DownLeft),
            self.vertex(VertexDirection::UpLeft),
        ]
    }

    /// The six edges of this hex, clockwise from the north-east one.
    pub fn edges(&self) -> (res: [Edge; 6])
        requires
            fits(self.q - 1) && fits(self.q + 1) && fits(self.r + 1),
        ensures
            Seq::new(6, |i: int| res[i].pos()) == edges_of(self.pos()),
    {
        let res = [
            Edge { q: self.q, r: self.r, dir: EdgeDirection::NorthEast },
            Edge { q: self.q + 1, r: self.r, dir: EdgeDirection::West },
            Edge { q: self.q, r: self.r + 1, dir: EdgeDirection::NorthWest },
            Edge { q: self.q - 1, r: self.r + 1, dir: EdgeDirection::NorthEast },
            Edge { q: self.q, r: self.r, dir: EdgeDirection::West },
            Edge { q: self.q, r: self.r, dir: EdgeDirection::NorthWest },
        ];
        assert(Seq::new(6, |i: int| res[i].pos()) =~= edges_of(self.pos()));
        res
    }

    /// The two vertices this hex shares with its neighbour `b`, clockwise as seen from
    /// this hex; none where `b` is no neighbour.
    pub fn shared_vert_two(&self, b: Axial) -> (res: Option<[Vertex; 2]>)
        requires
            vertices_fit(self.pos()),
            neighbors_fit(self.pos()),
        ensures
            match shared_two_dirs(self.pos(), b.pos()) {
                None => res is None,
                Some((d0, d1)) => res matches Some(vs) && vs[0].pos() == vertex_of(self.pos(), d0)
                    && vs[1].pos() == vertex_of(self.pos(), d1),
            },
    {
        let mut i: i32 = 0;
        while i <= 5
            invariant
                0 <= i <= 6,
                vertices_fit(self.pos()),
                neighbors_fit(self.pos()),
                forall|m: int|
                    0 <= m < i ==> b.pos() != pair_add(
                        self.pos(),
                        #[trigger] HexDirection::from_index(m).unit(),
                    ),
            decreases 6 - i,
        {
            let dir = HexDirection::from(i);
            let vec = dir.to_movement_vector();
            if b == vec + *self {
                return match dir {
                    HexDirection::Front => Some(
                        [self.vertex(VertexDirection::UpRight), self.vertex(VertexDirection::DownRight)],
                    ),
                    HexDirection::FrontRight => Some(
                        [self.vertex(VertexDirection::DownRight), self.vertex(VertexDirection::Down)],
                    ),
                    HexDirection::BackRight => Some(
                        [self.vertex(VertexDirection::Down), self.vertex(VertexDirection::DownLeft)],
                    ),
                    HexDirection::Back => Some(
                        [self.vertex(VertexDirection::DownLeft), self.vertex(VertexDirection::UpLeft)],
                    ),
                    HexDirection::BackLeft => Some(
                        [self.vertex(VertexDirection::UpLeft), self.vertex(VertexDirection::Up)],
                    ),
                    HexDirection::FrontLeft => Some(
                        [self.vertex(VertexDirection::Up), self.vertex(VertexDirection::UpRight)],
                    ),
                };
            }
            i = i + 1;
        }
        assert(b.pos() != pair_add(self.pos(), HexDirection::from_index(0).unit()));
        assert(b.pos() != pair_add(self.pos(), HexDirection::from_index(1).unit()));
        assert(b.pos() != pair_add(self.pos(), HexDirection::from_index(2).unit()));
        assert(b.pos() != pair_add(self.pos(), HexDirection::from_index(3).unit()));
        assert(b.pos() != pair_add(self.pos(), HexDirection::from_index(4).unit()));
        assert(b.pos() != pair_add(self.pos(), HexDirection::from_index(5).unit()));
        None
    }

    /// The vertex shared by this hex and the hexes `b` and `c`, if the three meet at one.
    pub fn shared_vert_three(&self, b: Axial, c: Axial) -> (res: Option<Vertex>)
        requires
            vertices_fit(self.pos()),
            neighbors_fit(self.pos()),
            vertices_fit(c.pos()),
        ensures
            match shared_three(self.pos(), b.pos(), c.pos()) {
                None => res is None,
                Some(v) => res matches Some(w) && w.pos() == v,
            },
    {
        let ab_vertices = match self.shared_vert_two(b) {
            Some(vs) => vs,
            None => return None,
        };
        let c_vertices = c.vertices();
        if contains_vertex(&c_vertices, ab_vertices[0], c) {
            Some(ab_vertices[0])
        } else if contains_vertex(&c_vertices, ab_vertices[1], c) {
            Some(ab_vertices[1])
        } else {
            None
        }
    }
}

/// Whether `v` is among the six vertices of hex `c`, held in `vs`.
fn contains_vertex(vs: &[Vertex; 6], v: Vertex, c: Axial) -> (res: bool)
    requires
        forall|i: int|
            0 <= i < 6 ==> #[trigger] vs[i].pos() == vertex_of(c.pos(), VertexDirection::from_index(i)),
    ensures
        res == hex_has_vertex(c.pos(), v.pos()),
{
    let mut i: usize = 0;
    while i < 6
        invariant
            i <= 6,
            forall|m: int|
                0 <= m < 6 ==> #[trigger] vs[m].pos() == vertex_of(
                    c.pos(),
                    VertexDirection::from_index(m),
                ),
            forall|m: int| 0 <= m < i ==> vs[m] != v,
        decreases 6 - i,
    {
        if vs[i] == v {
            assert(vertex_of(c.pos(), VertexDirection::from_index(i as int)) == v.pos());
            return true;
        }
        i = i + 1;
    }
    assert(!hex_has_vertex(c.pos(), v.pos())) by {
        if hex_has_vertex(c.pos(), v.pos()) {
            let m = choose|m: int| 0 <= m < 6 && vertex_of(c.pos(), VertexDirection::from_index(m)) == v.pos();
            assert(vs[m].pos() == v.pos());
        }
    }
    false
}

/// Six turns bring every tile back to where it started, about any centre.
pub proof fn lemma_rotate_six(a: Axial, center: Option<Axial>)
    ensures
        rotate_about(a.pos(), center_or_origin(center), 6) == a.pos(),
{
    let c = center_or_origin(center);
    lemma_rot_cw_six(pair_sub(a.pos(), c));
}

/// Turning by `k` and then by `-k` about the same centre gives back the tile.
pub proof fn lemma_rotate_back(a: Axial, center: Option<Axial>, k: i32)
    ensures
        rotate_about(rotate_about(a.pos(), center_or_origin(center), k as int), center_or_origin(center), -k) == a.pos(),
{
    let c = center_or_origin(center);
    let p = pair_sub(a.pos(), c);
    let m = (k as int % 6) as nat;
    let back = ((-k) as int % 6) as nat;
    let once = rot_cw_n(p, m);
    assert(pair_sub(pair_add(c, once), c) == once);
    lemma_rot_cw_n_add(p, m, back);
    assert(m + back == 0 || m + back == 6);
    if m + back == 6 {
        lemma_rot_cw_six(p);
    }
}

/// A line has one tile per step, both ends included.
pub proof fn lemma_line_length(a: Axial, b: Axial)
    ensures
        hex_line(a.pos(), b.pos()).len() == hex_distance(a.pos(), b.pos()) + 1,
        hex_line(a.pos(), b.pos())[0] == a.pos(),
        hex_line(a.pos(), b.pos())[hex_distance(a.pos(), b.pos())] == b.pos(),
{
    let (pa, pb) = (a.pos(), b.pos());
    let n = hex_distance(pa, pb);
    lemma_distance_symmetric(pa, pb);
    if n > 0 {
        lemma_round_exact(pa.0, n);
        lemma_round_exact(pa.1, n);
        lemma_round_exact(pb.0, n);
        lemma_round_exact(pb.1, n);
        assert(pa.0 * n + (pb.0 - pa.0) * 0 == pa.0 * n) by (nonlinear_arith);
        assert(pa.1 * n + (pb.1 - pa.1) * 0 == pa.1 * n) by (nonlinear_arith);
        assert(pa.0 * n + (pb.0 - pa.0) * n == pb.0 * n) by (nonlinear_arith);
        assert(pa.1 * n + (pb.1 - pa.1) * n == pb.1 * n) by (nonlinear_arith);
    }
}

/// An integer point needs no rounding.
proof fn lemma_round_exact(v: int, n: int)
    requires
        n > 0,
    ensures
        round_div(v * n, n) == v,
        v * n - round_div(v * n, n) * n == 0,
        round_div(0, 2 * n) == 0,
{
    lemma_round_div_bounds(v * n, n, v, v);
    assert(v * n - v * n == 0);
    vstd::arithmetic::div_mod::lemma_fundamental_div_mod(n, 2 * n);
    assert((2 * 0 + 2 * n) / (2 * (2 * n)) == 0) by {
        vstd::arithmetic::div_mod::lemma_basic_div(2 * n, 4 * n);
    }
}

/// Distance does not depend on the order of its arguments, and is zero only between equal tiles.
pub proof fn lemma_distance_symmetric(a: (int, int), b: (int, int))
    ensures
        hex_distance(a, b) == hex_distance(b, a),
        hex_distance(a, b) >= 0,
        hex_distance(a, b) == 0 <==> a == b,
{
}

/// The line from `a` to `b` is the line from `b` to `a`, read backwards.
pub proof fn lemma_line_reverse(a: Axial, b: Axial)
    ensures
        hex_line(a.pos(), b.pos()) == hex_line(b.pos(), a.pos()).reverse(),
{
    let (pa, pb) = (a.pos(), b.pos());
    lemma_distance_symmetric(pa, pb);
    let n = hex_distance(pa, pb);
    if n == 0 {
        assert(hex_line(pa, pb) =~= hex_line(pb, pa).reverse());
    } else {
        assert forall|i: int| 0 <= i <= n implies line_point(pa, pb, i, n) == line_point(
            pb,
            pa,
            n - i,
            n,
        ) by {
            assert(pa.0 * n + (pb.0 - pa.0) * i == pb.0 * n + (pa.0 - pb.0) * (n - i))
                by (nonlinear_arith);
            assert(pa.1 * n + (pb.1 - pa.1) * i == pb.1 * n + (pa.1 - pb.1) * (n - i))
                by (nonlinear_arith);
        }
        assert(hex_line(pa, pb) =~= hex_line(pb, pa).reverse());
    }
}

/// Each of the six neighbours of a tile is one step away from it.
pub proof fn lemma_neighbors_at_distance_one(a: Axial)
    ensures
        forall|i: int|
            0 <= i < 6 ==> hex_distance(a.pos(), #[trigger] pair_add(a.pos(), HexDirection::from_index(i).unit()))
                == 1,
{
}

/// Twice the number of tiles in the first `k` columns of a range of radius `n`.
spec fn twice_columns_len(n: int, k: int) -> int {
    if k <= n + 1 {
        2 * k * (n + 1) + k * (k - 1)
    } else {
        let m = k - (n + 1);
        2 * (n + 1) * (n + 1) + (n + 1) * n + 4 * n * m - m * (m - 1)
    }
}

proof fn lemma_range_columns_len(c: (int, int), n: int, k: nat)
    requires
        n >= 0,
        k <= 2 * n + 1,
    ensures
        2 * range_columns(c, n, k).len() == twice_columns_len(n, k as int),
    decreases k,
{
    if k > 0 {
        lemma_range_columns_len(c, n, (k - 1) as nat);
        let dq = -n + k - 1;
        let col = range_column(c, n, dq);
        assert(col.len() == 2 * n + 1 - abs(dq));
        assert(range_columns(c, n, k).len() == range_columns(c, n, (k - 1) as nat).len() + col.len());
        let j = k - 1;
        let prev = 2 * range_columns(c, n, (k - 1) as nat).len();
        if k <= n + 1 {
            assert(prev == 2 * j * (n + 1) + j * (j - 1));
            assert(col.len() == n + 1 + j);
            assert(2 * k * (n + 1) + k * (k - 1) == 2 * j * (n + 1) + j * (j - 1) + 2 * (n + 1 + j))
                by (nonlinear_arith)
                requires
                    j == k - 1,
            ;
            assert(twice_columns_len(n, k as int) == 2 * k * (n + 1) + k * (k - 1));
        } else if k == n + 2 {
            assert(prev == 2 * j * (n + 1) + j * (j - 1));
            assert(col.len() == 2 * n);
            assert(2 * (n + 1) * (n + 1) + (n + 1) * n + 4 * n * 1 - 1 * 0 == 2 * j * (n + 1) + j * (
            j - 1) + 2 * (2 * n)) by (nonlinear_arith)
                requires
                    j == n + 1,
            ;
            assert(twice_columns_len(n, k as int) == 2 * (n + 1) * (n + 1) + (n + 1) * n + 4 * n * 1
                - 1 * 0);
        } else {
            let m = k - (n + 1);
            assert(prev == 2 * (n + 1) * (n + 1) + (n + 1) * n + 4 * n * (m - 1) - (m - 1) * (m - 2));
            assert(col.len() == 2 * n + 1 - m);
            assert(2 * (n + 1) * (n + 1) + (n + 1) * n + 4 * n * m - m * (m - 1) == 2 * (n + 1) * (n
                + 1) + (n + 1) * n + 4 * n * (m - 1) - (m - 1) * (m - 2) + 2 * (2 * n + 1 - m))
                by (nonlinear_arith);
            assert(twice_columns_len(n, k as int) == 2 * (n + 1) * (n + 1) + (n + 1) * n + 4 * n * m
                - m * (m - 1));
        }
    } else {
        assert(2 * 0 * (n + 1) + 0 * (0 - 1) == 0) by (nonlinear_arith);
        assert(twice_columns_len(n, 0) == 0);
    }
}

/// A range of radius `n` holds `3n² + 3n + 1` tiles.
pub proof fn lemma_range_len(c: (int, int), n: int)
    requires
        n >= 0,
    ensures
        hex_range(c, n).len() == 3 * n * n + 3 * n + 1,
{
    lemma_range_columns_len(c, n, (2 * n + 1) as nat);
    assert(twice_columns_len(n, 2 * n + 1) == 2 * (3 * n * n + 3 * n + 1)) by (nonlinear_arith)
        requires
            n >= 0,
    ;
}

/// `p` lies in column `dq` of a range of radius `n` about `c`.
spec fn in_column(c: (int, int), n: int, dq: int, p: (int, int)) -> bool {
    p.0 == c.0 + dq && max(-n, -dq - n) <= p.1 - c.1 <= min(n, -dq + n)
}

proof fn lemma_range_columns_contains(c: (int, int), n: int, k: nat, p: (int, int))
    requires
        n >= 0,
        k <= 2 * n + 1,
    ensures
        range_columns(c, n, k).contains(p) <==> (-n <= p.0 - c.0 < -n + k && in_column(
            c,
            n,
            p.0 - c.0,
            p,
        )),
    decreases k,
{
    if k > 0 {
        lemma_range_columns_contains(c, n, (k - 1) as nat, p);
        let prev = range_columns(c, n, (k - 1) as nat);
        let dq = -n + k - 1;
        let col = range_column(c, n, dq);
        let all = range_columns(c, n, k);
        assert(all == prev + col);
        if col.contains(p) {
            let j = choose|j: int| 0 <= j < col.len() && col[j] == p;
            assert(all[prev.len() + j] == p);
        }
        if prev.contains(p) {
            let j = choose|j: int| 0 <= j < prev.len() && prev[j] == p;
            assert(all[j] == p);
        }
        if all.contains(p) {
            let j = choose|j: int| 0 <= j < all.len() && all[j] == p;
            if j < prev.len() {
                assert(prev[j] == p);
            } else {
                assert(col[j - prev.len()] == p);
            }
        }
        if p.0 - c.0 == dq && in_column(c, n, dq, p) {
            let lo = max(-n, -dq - n);
            assert(col[p.1 - c.1 - lo] == p);
        }
    }
}

/// A range of radius `n` about `c` holds exactly the tiles at most `n` steps from `c`.
pub proof fn lemma_range_members(c: Axial, n: int, p: (int, int))
    requires
        n >= 0,
    ensures
        hex_range(c.pos(), n).contains(p) <==> hex_distance(c.pos(), p) <= n,
{
    lemma_range_columns_contains(c.pos(), n, (2 * n + 1) as nat, p);
}

} // verus!
