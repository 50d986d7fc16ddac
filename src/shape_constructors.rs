//! Systems of linear inequalities over axial coordinates, which describe hex shapes.
use vstd::prelude::*;
use crate::coordinate::{cube_s, fits, max, min, positions, Axial};

verus! {

/// Why an `Inequality` could not be built.
#[derive(PartialEq, Eq, Structural, Copy, Clone, Debug)]
pub enum InequalityError {
    /// No points were given.
    EmptyInputArray,
}

impl InequalityError {
    /// A description of the error.
    pub fn message(&self) -> (m: &'static str)
        ensures
            m@ == "Cannot create an Inequality with an empty array"@,
    {
        match self {
            InequalityError::EmptyInputArray => "Cannot create an Inequality with an empty array",
        }
    }
}

/// Bounds on `q`, `r` and `s` that together describe a convex hex shape.
#[derive(PartialEq, Eq, Structural, Copy, Clone, Debug)]
pub struct Inequality {
    pub q_min: i32,
    pub q_max: i32,
    pub r_min: i32,
    pub r_max: i32,
    pub s_min: i32,
    pub s_max: i32,
}

/// Arguments to the shape constructors: a size and a direction, in 60° clockwise turns.
#[derive(PartialEq, Eq, Structural, Copy, Clone, Debug)]
pub struct ShapeArgs {
    pub size: u32,
    pub rot_dir: i32,
}

/// `lo` is the least of the values `f(i)` for `i` in `0..n`.
pub open spec fn is_min_of(lo: int, n: int, f: spec_fn(int) -> int) -> bool {
    (forall|i: int| 0 <= i < n ==> lo <= #[trigger] f(i)) && (exists|i: int| 0 <= i < n && lo == #[trigger] f(i))
}

/// `hi` is the greatest of the values `f(i)` for `i` in `0..n`.
pub open spec fn is_max_of(hi: int, n: int, f: spec_fn(int) -> int) -> bool {
    (forall|i: int| 0 <= i < n ==> #[trigger] f(i) <= hi) && (exists|i: int| 0 <= i < n && hi == #[trigger] f(i))
}

/// `ineq` holds the tightest bounds on the points' `q`, `r` and `s`.
pub open spec fn bounds_points(ineq: Inequality, points: Seq<Axial>) -> bool {
    let n = points.len() as int;
    &&& is_min_of(ineq.q_min as int, n, |i: int| points[i].q as int)
    &&& is_max_of(ineq.q_max as int, n, |i: int| points[i].q as int)
    &&& is_min_of(ineq.r_min as int, n, |i: int| points[i].r as int)
    &&& is_max_of(ineq.r_max as int, n, |i: int| points[i].r as int)
    &&& is_min_of(ineq.s_min as int, n, |i: int| cube_s(points[i].pos()))
    &&& is_max_of(ineq.s_max as int, n, |i: int| cube_s(points[i].pos()))
}

/// The solutions with `q` in column `q`, shifted so that `(q_min, r_min)` is the origin.
pub open spec fn solve_column(e: Inequality, q: int) -> Seq<(int, int)> {
    let lo = max(e.r_min as int, -q - e.s_max);
    let hi = min(e.r_max as int, -q - e.s_min);
    let len: int = if hi >= lo {
        hi - lo + 1
    } else {
        0
    };
    Seq::new(len as nat, |j: int| (q - e.q_min, lo + j - e.r_min))
}

/// The solutions of the first `k` columns, `q` running from `q_min`.
pub open spec fn solve_columns(e: Inequality, k: nat) -> Seq<(int, int)>
    decreases k,
{
    if k == 0 {
        Seq::empty()
    } else {
        solve_columns(e, (k - 1) as nat) + solve_column(e, e.q_min + k - 1)
    }
}

/// All solutions, by increasing `q`, then increasing `r`.
pub open spec fn solutions(e: Inequality) -> Seq<(int, int)> {
    if e.q_max < e.q_min {
        Seq::empty()
    } else {
        solve_columns(e, (e.q_max - e.q_min + 1) as nat)
    }
}

impl Inequality {
    /// The tightest bounds on `q`, `r` and `s` over the given points.
    pub fn new(points: &[Axial]) -> (res: Result<Inequality, InequalityError>)
        requires
            forall|i: int| 0 <= i < points@.len() ==> fits(#[trigger] cube_s(points@[i].pos())),
        ensures
            points@.len() == 0 <==> res == Err::<Inequality, InequalityError>(
                InequalityError::EmptyInputArray,
            ),
            res matches Ok(e) ==> bounds_points(e, points@),
    {
        if points.len() == 0 {
            return Err(InequalityError::EmptyInputArray);
        }
        let mut q_min = i32::MAX;
        let mut q_max = i32::MIN;
        let mut r_min = i32::MAX;
        let mut r_max = i32::MIN;
        let mut s_min = i32::MAX;
        let mut s_max = i32::MIN;
        let ghost ps = points@;
        let mut k: usize = 0;
        while k < points.len()
            invariant
                ps == points@,
                0 < ps.len(),
                k <= ps.len(),
                forall|i: int| 0 <= i < ps.len() ==> fits(#[trigger] cube_s(ps[i].pos())),
                forall|i: int|
                    #![trigger ps[i]]
                    0 <= i < k ==> q_min <= ps[i].q <= q_max && r_min <= ps[i].r <= r_max
                        && s_min <= cube_s(ps[i].pos()) <= s_max,
                k == 0 ==> q_min == i32::MAX && q_max == i32::MIN && r_min == i32::MAX && r_max
                    == i32::MIN && s_min == i32::MAX && s_max == i32::MIN,
                k > 0 ==> (exists|i: int| 0 <= i < k && q_min == ps[i].q),
                k > 0 ==> (exists|i: int| 0 <= i < k && q_max == ps[i].q),
                k > 0 ==> (exists|i: int| 0 <= i < k && r_min == ps[i].r),
                k > 0 ==> (exists|i: int| 0 <= i < k && r_max == ps[i].r),
                k > 0 ==> (exists|i: int| 0 <= i < k && s_min == cube_s(ps[i].pos())),
                k > 0 ==> (exists|i: int| 0 <= i < k && s_max == cube_s(ps[i].pos())),
            decreases ps.len() - k,
        {
            let point = points[k];
            let s = point.compute_s();
            if k == 0 || point.q < q_min {
                q_min = point.q;
            }
            if k == 0 || point.q > q_max {
                q_max = point.q;
            }
            if k == 0 || point.r < r_min {
                r_min = point.r;
            }
            if k == 0 || point.r > r_max {
                r_max = point.r;
            }
            if k == 0 || s < s_min {
                s_min = s;
            }
            if k == 0 || s > s_max {
                s_max = s;
            }
            k = k + 1;
        }
        let res = Inequality { q_min, q_max, r_min, r_max, s_min, s_max };
        proof {
            let n = ps.len() as int;
            let i0 = choose|i: int| 0 <= i < n && q_min == ps[i].q;
            let i1 = choose|i: int| 0 <= i < n && q_max == ps[i].q;
            let i2 = choose|i: int| 0 <= i < n && r_min == ps[i].r;
            let i3 = choose|i: int| 0 <= i < n && r_max == ps[i].r;
            let i4 = choose|i: int| 0 <= i < n && s_min == cube_s(ps[i].pos());
            let i5 = choose|i: int| 0 <= i < n && s_max == cube_s(ps[i].pos());
            assert(is_min_of(q_min as int, n, |i: int| ps[i].q as int)) by {
                assert((|i: int| ps[i].q as int)(i0) == q_min);
            }
            assert(is_max_of(q_max as int, n, |i: int| ps[i].q as int)) by {
                assert((|i: int| ps[i].q as int)(i1) == q_max);
            }
            assert(is_min_of(r_min as int, n, |i: int| ps[i].r as int)) by {
                assert((|i: int| ps[i].r as int)(i2) == r_min);
            }
            assert(is_max_of(r_max as int, n, |i: int| ps[i].r as int)) by {
                assert((|i: int| ps[i].r as int)(i3) == r_max);
            }
            assert(is_min_of(s_min as int, n, |i: int| cube_s(ps[i].pos()))) by {
                assert((|i: int| cube_s(ps[i].pos()))(i4) == s_min);
            }
            assert(is_max_of(s_max as int, n, |i: int| cube_s(ps[i].pos()))) by {
                assert((|i: int| cube_s(ps[i].pos()))(i5) == s_max);
            }
        }
        Ok(res)
    }

    /// The coordinates that satisfy all the bounds, shifted so that `(q_min, r_min)` is
    /// the origin, by increasing `q`, then increasing `r`.
    pub fn solve(&self) -> (res: Vec<Axial>)
        requires
            fits(self.q_max - self.q_min),
            fits(self.r_max - self.r_min),
        ensures
            positions(res@) == solutions(*self),
    {
        let mut ret: Vec<Axial> = Vec::new();
        if self.q_max < self.q_min {
            assert(positions(ret@) =~= solutions(*self));
            return ret;
        }
        let e = *self;
        let mut q: i64 = self.q_min as i64;
        while q <= self.q_max as i64
            invariant
                e == *self,
                e.q_min <= e.q_max,
                fits(e.q_max - e.q_min),
                fits(e.r_max - e.r_min),
                e.q_min <= q <= e.q_max + 1,
                positions(ret@) == solve_columns(e, (q - e.q_min) as nat),
            decreases e.q_max + 1 - q,
        {
            let lo = if (e.r_min as i64) > -q - e.s_max as i64 {
                e.r_min as i64
            } else {
                -q - e.s_max as i64
            };
            let hi = if (e.r_max as i64) < -q - e.s_min as i64 {
                e.r_max as i64
            } else {
                -q - e.s_min as i64
            };
            let ghost col = solve_column(e, q as int);
            let ghost before = positions(ret@);
            let mut r: i64 = lo;
            while r <= hi
                invariant
                    e == *self,
                    fits(e.q_max - e.q_min),
                    fits(e.r_max - e.r_min),
                    e.q_min <= q <= e.q_max,
                    lo == max(e.r_min as int, -q - e.s_max),
                    hi == min(e.r_max as int, -q - e.s_min),
                    lo <= r,
                    hi >= lo ==> r <= hi + 1,
                    hi < lo ==> r == lo,
                    col == solve_column(e, q as int),
                    positions(ret@) == before + col.take(r - lo),
                decreases hi + 1 - r,
            {
                let a = Axial { q: (q - e.q_min as i64) as i32, r: (r - e.r_min as i64) as i32 };
                assert(a.pos() == col[r - lo]);
                let ghost old_ret = ret@;
                ret.push(a);
                assert(positions(ret@) =~= positions(old_ret).push(a.pos()));
                assert(col.take(r + 1 - lo) =~= col.take(r - lo).push(col[r - lo]));
                r = r + 1;
            }
            assert(col.take(r - lo) =~= col);
            assert(positions(ret@) =~= solve_columns(e, (q + 1 - e.q_min) as nat));
            q = q + 1;
        }
        ret
    }

    /// The width of the shape along `q`.
    pub fn q_stride(&self) -> (n: usize)
        ensures
            n == if self.q_max >= self.q_min {
                self.q_max - self.q_min
            } else {
                self.q_min - self.q_max
            },
    {
        let d = self.q_max as i64 - self.q_min as i64;
        (if d < 0 {
            -d
        } else {
            d
        }) as usize
    }

    /// The width of the shape along `r`.
    pub fn r_stride(&self) -> (n: usize)
        ensures
            n == if self.r_max >= self.r_min {
                self.r_max - self.r_min
            } else {
                self.r_min - self.r_max
            },
    {
        let d = self.r_max as i64 - self.r_min as i64;
        (if d < 0 {
            -d
        } else {
            d
        }) as usize
    }

    /// The larger of the two widths.
    pub fn largest_stride(&self) -> (n: usize)
        ensures
            n == max(self.q_stride_spec(), self.r_stride_spec()),
    {
        let q = self.q_stride();
        let r = self.r_stride();
        if q > r {
            q
        } else {
            r
        }
    }

    pub open spec fn q_stride_spec(&self) -> int {
        if self.q_max >= self.q_min {
            self.q_max - self.q_min
        } else {
            self.q_min - self.q_max
        }
    }

    pub open spec fn r_stride_spec(&self) -> int {
        if self.r_max >= self.r_min {
            self.r_max - self.r_min
        } else {
            self.r_min - self.r_max
        }
    }
}

} // verus!
