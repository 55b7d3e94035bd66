//! Fixed-point vector and exact rational arithmetic.
//!
//! All scene geometry lives on an integer grid: coordinates are `i64` values
//! bounded by [`COORD_BOUND`]. Ray parameters and hit points are exact
//! rationals (`i128` numerator / positive denominator), so every intersection
//! predicate in this crate is decided exactly, with no rounding error.

use vstd::prelude::*;

verus! {

/// Every coordinate of a scene point, ray origin, ray direction or surface
/// normal is bounded by this value (2^16 grid units).
pub const COORD_BOUND: i64 = 65536;

/// Bound on the numerator and denominator of a ray-parameter rational.
pub const T_BOUND: i128 = 1152921504606846976;

/// Bound on the numerator of a rational point coordinate.
pub const P_NUM_BOUND: i128 = 1208925819614629174706176;

/// A point or vector on the integer grid.
#[derive(Clone, Copy, PartialEq, Eq, Structural, Debug)]
pub struct Vec3 {
    pub x: i64,
    pub y: i64,
    pub z: i64,
}

/// An exact rational, used for ray parameters (distances along a ray).
/// `den` is always positive; the represented value is `num / den`.
#[derive(Clone, Copy, PartialEq, Eq, Structural, Debug)]
pub struct Rat {
    pub num: i128,
    pub den: i128,
}

/// A point with exact rational coordinates: `(nx/den, ny/den, nz/den)`.
/// Hit points along a ray are of this form.
#[derive(Clone, Copy, PartialEq, Eq, Structural, Debug)]
pub struct QVec {
    pub nx: i128,
    pub ny: i128,
    pub nz: i128,
    pub den: i128,
}

impl Vec3 {
    /// All coordinates within the grid bound.
    pub open spec fn wf(self) -> bool {
        &&& -COORD_BOUND <= self.x <= COORD_BOUND
        &&& -COORD_BOUND <= self.y <= COORD_BOUND
        &&& -COORD_BOUND <= self.z <= COORD_BOUND
    }

    /// Coordinate on axis `a` (0 = x, 1 = y, 2 = z).
    pub open spec fn axis_spec(self, a: int) -> int {
        if a == 0 {
            self.x as int
        } else if a == 1 {
            self.y as int
        } else {
            self.z as int
        }
    }

    pub open spec fn is_zero(self) -> bool {
        self.x == 0 && self.y == 0 && self.z == 0
    }

    pub fn axis(&self, a: usize) -> (r: i64)
        requires
            a < 3,
        ensures
            r == self.axis_spec(a as int),
    {
        if a == 0 {
            self.x
        } else if a == 1 {
            self.y
        } else {
            self.z
        }
    }

    pub fn eq_zero(&self) -> (r: bool)
        ensures
            r == self.is_zero(),
    {
        self.x == 0 && self.y == 0 && self.z == 0
    }

    /// Componentwise sum.
    pub fn add(&self, o: &Vec3) -> (r: Vec3)
        requires
            self.wf(),
            o.wf(),
        ensures
            r.x == self.x + o.x || (self.x + o.x > COORD_BOUND && r.x == COORD_BOUND) || (self.x
                + o.x < -COORD_BOUND && r.x == -COORD_BOUND),
            r.x == clamp_coord(self.x + o.x),
            r.y == clamp_coord(self.y + o.y),
            r.z == clamp_coord(self.z + o.z),
            r.wf(),
    {
        Vec3 {
            x: clamp_add(self.x, o.x),
            y: clamp_add(self.y, o.y),
            z: clamp_add(self.z, o.z),
        }
    }

    /// Dot product, exact (fits easily in `i128` under `wf`).
    pub fn dot(&self, o: &Vec3) -> (r: i128)
        requires
            self.wf(),
            o.wf(),
        ensures
            r == self.x * o.x + self.y * o.y + self.z * o.z,
            -13835058055282163712i128 <= r <= 13835058055282163712i128,
    {
        proof {
            lemma_mul_bound(self.x as int, o.x as int, COORD_BOUND as int, COORD_BOUND as int);
            lemma_mul_bound(self.y as int, o.y as int, COORD_BOUND as int, COORD_BOUND as int);
            lemma_mul_bound(self.z as int, o.z as int, COORD_BOUND as int, COORD_BOUND as int);
        }
        (self.x as i128) * (o.x as i128) + (self.y as i128) * (o.y as i128) + (self.z as i128) * (
        o.z as i128)
    }

    /// Cross product, exact.
    pub fn cross(&self, o: &Vec3) -> (r: [i128; 3])
        requires
            self.wf(),
            o.wf(),
        ensures
            r[0] == self.y * o.z - self.z * o.y,
            r[1] == self.z * o.x - self.x * o.z,
            r[2] == self.x * o.y - self.y * o.x,
            forall|i: int| 0 <= i < 3 ==> -8589934592i128 <= #[trigger] r[i] <= 8589934592i128,
    {
        proof {
            lemma_mul_bound(self.x as int, o.x as int, COORD_BOUND as int, COORD_BOUND as int);
            lemma_mul_bound(self.x as int, o.y as int, COORD_BOUND as int, COORD_BOUND as int);
            lemma_mul_bound(self.x as int, o.z as int, COORD_BOUND as int, COORD_BOUND as int);
            lemma_mul_bound(self.y as int, o.x as int, COORD_BOUND as int, COORD_BOUND as int);
            lemma_mul_bound(self.y as int, o.y as int, COORD_BOUND as int, COORD_BOUND as int);
            lemma_mul_bound(self.y as int, o.z as int, COORD_BOUND as int, COORD_BOUND as int);
            lemma_mul_bound(self.z as int, o.x as int, COORD_BOUND as int, COORD_BOUND as int);
            lemma_mul_bound(self.z as int, o.y as int, COORD_BOUND as int, COORD_BOUND as int);
            lemma_mul_bound(self.z as int, o.z as int, COORD_BOUND as int, COORD_BOUND as int);
        }
        let a: [i128; 3] = [
            (self.y as i128) * (o.z as i128) - (self.z as i128) * (o.y as i128),
            (self.z as i128) * (o.x as i128) - (self.x as i128) * (o.z as i128),
            (self.x as i128) * (o.y as i128) - (self.y as i128) * (o.x as i128),
        ];
        a
    }
}

/// Clamp an (already summed) coordinate into the grid bound.
pub open spec fn clamp_coord(v: int) -> int {
    if v > COORD_BOUND {
        COORD_BOUND as int
    } else if v < -COORD_BOUND {
        -COORD_BOUND as int
    } else {
        v
    }
}

pub(crate) fn clamp_add_pub(a: i64, b: i64) -> (r: i64)
    requires
        -COORD_BOUND <= a <= COORD_BOUND,
        -COORD_BOUND <= b <= COORD_BOUND,
    ensures
        r == clamp_coord(a + b),
{
    clamp_add(a, b)
}

fn clamp_add(a: i64, b: i64) -> (r: i64)
    requires
        -COORD_BOUND <= a <= COORD_BOUND,
        -COORD_BOUND <= b <= COORD_BOUND,
    ensures
        r == clamp_coord(a + b),
{
    let s: i64 = a + b;
    if s > COORD_BOUND {
        COORD_BOUND
    } else if s < -COORD_BOUND {
        -COORD_BOUND
    } else {
        s
    }
}

/// Clamp a wide intermediate value into the grid bound.
pub fn clamp_coord_i128(v: i128) -> (r: i64)
    ensures
        r as int == clamp_coord(v as int),
{
    if v > COORD_BOUND as i128 {
        COORD_BOUND
    } else if v < -(COORD_BOUND as i128) {
        -COORD_BOUND
    } else {
        v as i64
    }
}

/// `|a| <= ab` and `|b| <= bb` imply `|a * b| <= ab * bb`.
pub proof fn lemma_mul_bound(a: int, b: int, ab: int, bb: int)
    requires
        -ab <= a <= ab,
        -bb <= b <= bb,
        0 <= ab,
        0 <= bb,
    ensures
        -(ab * bb) <= a * b <= ab * bb,
{
    assert(-(ab * bb) <= a * b <= ab * bb) by (nonlinear_arith)
        requires
            -ab <= a <= ab,
            -bb <= b <= bb,
            0 <= ab,
            0 <= bb,
    ;
}

impl Rat {
    /// Positive denominator, both parts bounded so that cross-multiplied
    /// comparisons of two well-formed rationals cannot overflow `i128`.
    pub open spec fn wf(self) -> bool {
        &&& 0 < self.den <= T_BOUND
        &&& -T_BOUND <= self.num <= T_BOUND
    }

    /// `self <= o` as rational values.
    pub open spec fn le_spec(self, o: Rat) -> bool {
        self.num * o.den <= o.num * self.den
    }

    pub fn le(&self, o: &Rat) -> (r: bool)
        requires
            self.wf(),
            o.wf(),
        ensures
            r == self.le_spec(*o),
    {
        proof {
            lemma_mul_bound(self.num as int, o.den as int, T_BOUND as int, T_BOUND as int);
            lemma_mul_bound(o.num as int, self.den as int, T_BOUND as int, T_BOUND as int);
        }
        self.num * o.den <= o.num * self.den
    }

    /// `|self| < |o|` as rational values: compares distances along a ray
    /// regardless of sign.
    pub open spec fn abs_lt_spec(self, o: Rat) -> bool {
        iabs(self.num as int) * o.den < iabs(o.num as int) * self.den
    }

    pub fn abs_lt(&self, o: &Rat) -> (r: bool)
        requires
            self.wf(),
            o.wf(),
        ensures
            r == self.abs_lt_spec(*o),
    {
        let an: i128 = if self.num >= 0 {
            self.num
        } else {
            -self.num
        };
        let bn: i128 = if o.num >= 0 {
            o.num
        } else {
            -o.num
        };
        proof {
            lemma_mul_bound(an as int, o.den as int, T_BOUND as int, T_BOUND as int);
            lemma_mul_bound(bn as int, self.den as int, T_BOUND as int, T_BOUND as int);
        }
        an * o.den < bn * self.den
    }

}

pub open spec fn iabs(a: int) -> int {
    if a >= 0 {
        a
    } else {
        -a
    }
}

/// Truncating division (round toward zero), for a positive divisor.
pub open spec fn trunc_div_spec(a: int, b: int) -> int {
    if a >= 0 {
        a / b
    } else {
        -((-a) / b)
    }
}

/// `a / b` rounding toward zero, exactly `trunc_div_spec`.
pub fn trunc_div_i128(a: i128, b: i128) -> (r: i128)
    requires
        0 < b,
        a > i128::MIN,
    ensures
        r == trunc_div_spec(a as int, b as int),
        iabs(r as int) <= iabs(a as int),
{
    if a >= 0 {
        let q: u128 = (a as u128) / (b as u128);
        proof {
            assert(a as int / b as int <= a as int) by (nonlinear_arith)
                requires
                    0 <= a as int,
                    1 <= b as int,
            ;
        }
        q as i128
    } else {
        let q: u128 = ((-a) as u128) / (b as u128);
        proof {
            assert((-(a as int)) / (b as int) <= -(a as int)) by (nonlinear_arith)
                requires
                    0 <= -(a as int),
                    1 <= b as int,
            ;
        }
        -(q as i128)
    }
}

pub open spec fn imax2(a: int, b: int) -> int {
    if a >= b {
        a
    } else {
        b
    }
}

/// A wide integer direction scaled down onto the grid: divided (truncating)
/// by the smallest factor that brings every component within `COORD_BOUND`.
/// The direction of the vector is preserved up to that truncation.
pub open spec fn grid_dir_spec(x: int, y: int, z: int) -> Vec3 {
    let m = imax2(iabs(x), imax2(iabs(y), iabs(z)));
    if m <= COORD_BOUND {
        Vec3 { x: x as i64, y: y as i64, z: z as i64 }
    } else {
        let f = m / (COORD_BOUND as int) + 1;
        Vec3 {
            x: trunc_div_spec(x, f) as i64,
            y: trunc_div_spec(y, f) as i64,
            z: trunc_div_spec(z, f) as i64,
        }
    }
}

fn abs_i128(a: i128) -> (r: i128)
    requires
        a > i128::MIN,
    ensures
        r == iabs(a as int),
{
    if a >= 0 {
        a
    } else {
        -a
    }
}

/// Scale a wide direction onto the grid, exactly as `grid_dir_spec` says.
pub fn grid_dir(x: i128, y: i128, z: i128) -> (r: Vec3)
    requires
        x > i128::MIN,
        y > i128::MIN,
        z > i128::MIN,
    ensures
        r == grid_dir_spec(x as int, y as int, z as int),
        r.wf(),
        !(x == 0 && y == 0 && z == 0) ==> !r.is_zero(),
{
    let ax = abs_i128(x);
    let ay = abs_i128(y);
    let az = abs_i128(z);
    let m: i128 = if ax >= ay && ax >= az {
        ax
    } else if ay >= az {
        ay
    } else {
        az
    };
    assert(m == imax2(iabs(x as int), imax2(iabs(y as int), iabs(z as int))));
    if m <= COORD_BOUND as i128 {
        Vec3 { x: x as i64, y: y as i64, z: z as i64 }
    } else {
        let f: i128 = m / (COORD_BOUND as i128) + 1;
        proof {
            assert(m as int / (COORD_BOUND as int) >= 0 && (m as int / (COORD_BOUND as int) + 1)
                * (COORD_BOUND as int) > m as int) by (nonlinear_arith)
                requires
                    m as int > COORD_BOUND as int,
                    COORD_BOUND as int == 65536,
            ;
            assert(f as int <= m as int && m as int / (f as int) >= 1) by (nonlinear_arith)
                requires
                    m as int > 65536,
                    f as int == m as int / 65536 + 1,
            ;
            assert forall|v: int|
                iabs(v) <= m as int implies iabs(
                trunc_div_spec(v, f as int),
            ) < COORD_BOUND as int by {
                assert(iabs(v) / (f as int) < COORD_BOUND as int && iabs(trunc_div_spec(v, f
                    as int)) == iabs(v) / (f as int)) by (nonlinear_arith)
                    requires
                        0 <= iabs(v) <= m as int,
                        f as int >= 1,
                        (f as int) * (COORD_BOUND as int) > m as int,
                        iabs(v) == if v >= 0 {
                            v
                        } else {
                            -v
                        },
                        trunc_div_spec(v, f as int) == if v >= 0 {
                            v / (f as int)
                        } else {
                            -((-v) / (f as int))
                        },
                ;
            }
        }
        let rx = trunc_div_i128(x, f);
        let ry = trunc_div_i128(y, f);
        let rz = trunc_div_i128(z, f);
        proof {
            if iabs(x as int) == m as int {
                assert(iabs(trunc_div_spec(x as int, f as int)) == iabs(x as int) / (f as int))
                    by (nonlinear_arith)
                    requires
                        f as int >= 1,
                        trunc_div_spec(x as int, f as int) == if x as int >= 0 {
                            (x as int) / (f as int)
                        } else {
                            -((-(x as int)) / (f as int))
                        },
                        iabs(x as int) == if x as int >= 0 {
                            x as int
                        } else {
                            -(x as int)
                        },
                ;
            } else if iabs(y as int) == m as int {
                assert(iabs(trunc_div_spec(y as int, f as int)) == iabs(y as int) / (f as int))
                    by (nonlinear_arith)
                    requires
                        f as int >= 1,
                        trunc_div_spec(y as int, f as int) == if y as int >= 0 {
                            (y as int) / (f as int)
                        } else {
                            -((-(y as int)) / (f as int))
                        },
                        iabs(y as int) == if y as int >= 0 {
                            y as int
                        } else {
                            -(y as int)
                        },
                ;
            } else {
                assert(iabs(trunc_div_spec(z as int, f as int)) == iabs(z as int) / (f as int))
                    by (nonlinear_arith)
                    requires
                        f as int >= 1,
                        trunc_div_spec(z as int, f as int) == if z as int >= 0 {
                            (z as int) / (f as int)
                        } else {
                            -((-(z as int)) / (f as int))
                        },
                        iabs(z as int) == if z as int >= 0 {
                            z as int
                        } else {
                            -(z as int)
                        },
                ;
            }
        }
        Vec3 { x: rx as i64, y: ry as i64, z: rz as i64 }
    }
}

/// The floor of the square root: `r * r <= n < (r + 1) * (r + 1)`.
pub open spec fn sqrt_spec(n: int) -> int {
    choose|r: int| 0 <= r && #[trigger] (r * r) <= n && n < (r + 1) * (r + 1)
}

/// The floor square root exists for every non-negative integer.
pub proof fn lemma_sqrt_exists(n: int)
    requires
        n >= 0,
    ensures
        exists|r: int| 0 <= r && #[trigger] (r * r) <= n && n < (r + 1) * (r + 1),
    decreases n,
{
    if n == 0 {
        let r0: int = 0;
        assert(r0 * r0 == 0 && (r0 + 1) * (r0 + 1) == 1) by (nonlinear_arith)
            requires
                r0 == 0,
        ;
        assert(0 <= r0 && r0 * r0 <= n && n < (r0 + 1) * (r0 + 1));
    } else {
        lemma_sqrt_exists(n - 1);
        let r = choose|r: int| 0 <= r && #[trigger] (r * r) <= n - 1 && n - 1 < (r + 1) * (r + 1);
        if (r + 1) * (r + 1) <= n {
            assert(n == (r + 1) * (r + 1));
            assert((r + 2) * (r + 2) > (r + 1) * (r + 1)) by (nonlinear_arith)
                requires
                    r >= 0,
            ;
            assert(0 <= r + 1 && (r + 1) * (r + 1) <= n && n < (r + 2) * (r + 2));
        } else {
            assert(0 <= r && r * r <= n && n < (r + 1) * (r + 1));
        }
    }
}

/// The characterization pins the root: any two values satisfying it agree.
pub proof fn lemma_sqrt_unique(n: int, a: int, b: int)
    requires
        0 <= a,
        a * a <= n,
        n < (a + 1) * (a + 1),
        0 <= b,
        b * b <= n,
        n < (b + 1) * (b + 1),
    ensures
        a == b,
{
    assert(a == b) by (nonlinear_arith)
        requires
            0 <= a,
            a * a <= n,
            n < (a + 1) * (a + 1),
            0 <= b,
            b * b <= n,
            n < (b + 1) * (b + 1),
    ;
}

/// Floor square root by binary search, exact for every `u128`.
pub fn isqrt(n: u128) -> (r: u128)
    ensures
        r as int == sqrt_spec(n as int),
        r * r <= n,
{
    let mut lo: u128 = 0;
    let mut hi: u128 = 0xffff_ffff_ffff_ffff;
    if n < hi {
        hi = n;
    }
    proof {
        assert((hi as int + 1) * (hi as int + 1) > n as int) by (nonlinear_arith)
            requires
                hi as int == n as int || (hi as int == 0xffff_ffff_ffff_ffff && n as int
                    <= 0xffff_ffff_ffff_ffff_ffff_ffff_ffff_ffff),
                n as int >= 0,
        ;
    }
    while lo < hi
        invariant
            lo <= hi <= 0xffff_ffff_ffff_ffff,
            lo as int * lo as int <= n as int,
            (n as int) < (hi as int + 1) * (hi as int + 1),
        decreases hi - lo,
    {
        let mid: u128 = lo + (hi - lo + 1) / 2;
        proof {
            lemma_mul_bound(
                mid as int,
                mid as int,
                0xffff_ffff_ffff_ffffi128 as int,
                0xffff_ffff_ffff_ffffi128 as int,
            );
        }
        if mid * mid <= n {
            lo = mid;
        } else {
            hi = mid - 1;
        }
    }
    proof {
        lemma_sqrt_exists(n as int);
        let w = choose|r: int| 0 <= r && #[trigger] (r * r) <= n as int && (n as int) < (r + 1) * (r
            + 1);
        lemma_sqrt_unique(n as int, lo as int, w);
        lemma_sqrt_unique(n as int, w, sqrt_spec(n as int));
    }
    lo
}

/// The smaller of two rationals; `a` wins ties, so folds pick the earliest.
pub open spec fn rat_min_spec(a: Rat, b: Rat) -> Rat {
    if a.le_spec(b) {
        a
    } else {
        b
    }
}

/// The larger of two rationals; `a` wins ties.
pub open spec fn rat_max_spec(a: Rat, b: Rat) -> Rat {
    if b.le_spec(a) {
        a
    } else {
        b
    }
}

/// Minimum of two optional rationals (`None` means "no candidate").
pub open spec fn opt_min_spec(a: Option<Rat>, b: Option<Rat>) -> Option<Rat> {
    match (a, b) {
        (Some(x), Some(y)) => Some(rat_min_spec(x, y)),
        (Some(x), None) => Some(x),
        (None, y) => y,
    }
}

/// Maximum of two optional rationals.
pub open spec fn opt_max_spec(a: Option<Rat>, b: Option<Rat>) -> Option<Rat> {
    match (a, b) {
        (Some(x), Some(y)) => Some(rat_max_spec(x, y)),
        (Some(x), None) => Some(x),
        (None, y) => y,
    }
}

pub open spec fn opt_rat_wf(a: Option<Rat>) -> bool {
    match a {
        Some(x) => x.wf(),
        None => true,
    }
}

pub fn opt_min(a: Option<Rat>, b: Option<Rat>) -> (r: Option<Rat>)
    requires
        opt_rat_wf(a),
        opt_rat_wf(b),
    ensures
        r == opt_min_spec(a, b),
        opt_rat_wf(r),
{
    match (a, b) {
        (Some(x), Some(y)) => if x.le(&y) {
            Some(x)
        } else {
            Some(y)
        },
        (Some(x), None) => Some(x),
        (None, y) => y,
    }
}

pub fn opt_max(a: Option<Rat>, b: Option<Rat>) -> (r: Option<Rat>)
    requires
        opt_rat_wf(a),
        opt_rat_wf(b),
    ensures
        r == opt_max_spec(a, b),
        opt_rat_wf(r),
{
    match (a, b) {
        (Some(x), Some(y)) => if y.le(&x) {
            Some(x)
        } else {
            Some(y)
        },
        (Some(x), None) => Some(x),
        (None, y) => y,
    }
}

impl QVec {
    pub open spec fn wf(self) -> bool {
        &&& 0 < self.den <= T_BOUND
        &&& -P_NUM_BOUND <= self.nx <= P_NUM_BOUND
        &&& -P_NUM_BOUND <= self.ny <= P_NUM_BOUND
        &&& -P_NUM_BOUND <= self.nz <= P_NUM_BOUND
    }

    /// The integer grid point `v`, as a rational point.
    pub open spec fn int_spec(v: Vec3) -> QVec {
        QVec { nx: v.x as i128, ny: v.y as i128, nz: v.z as i128, den: 1 }
    }

    pub open spec fn axis_num_spec(self, a: int) -> int {
        if a == 0 {
            self.nx as int
        } else if a == 1 {
            self.ny as int
        } else {
            self.nz as int
        }
    }

    pub fn from_int(v: &Vec3) -> (r: QVec)
        requires
            v.wf(),
        ensures
            r == QVec::int_spec(*v),
            r.wf(),
    {
        QVec { nx: v.x as i128, ny: v.y as i128, nz: v.z as i128, den: 1 }
    }

    pub fn axis_num(&self, a: usize) -> (r: i128)
        requires
            a < 3,
        ensures
            r == self.axis_num_spec(a as int),
    {
        if a == 0 {
            self.nx
        } else if a == 1 {
            self.ny
        } else {
            self.nz
        }
    }

    /// Coordinate `a` of the point is `< c`, exactly.
    pub open spec fn axis_lt_int_spec(self, a: int, c: int) -> bool {
        self.axis_num_spec(a) < c * self.den
    }

    /// Coordinate `a` of the point is `> c`, exactly.
    pub open spec fn axis_gt_int_spec(self, a: int, c: int) -> bool {
        self.axis_num_spec(a) > c * self.den
    }

    pub fn axis_lt_int(&self, a: usize, c: i64) -> (r: bool)
        requires
            a < 3,
            self.wf(),
            -COORD_BOUND <= c <= COORD_BOUND,
        ensures
            r == self.axis_lt_int_spec(a as int, c as int),
    {
        proof {
            lemma_mul_bound(c as int, self.den as int, COORD_BOUND as int, T_BOUND as int);
        }
        self.axis_num(a) < (c as i128) * self.den
    }

    /// Coordinate `a` of the point is exactly the integer `c`.
    pub open spec fn axis_eq_int_spec(self, a: int, c: int) -> bool {
        self.axis_num_spec(a) == c * self.den
    }

    pub fn axis_eq_int(&self, a: usize, c: i64) -> (r: bool)
        requires
            a < 3,
            self.wf(),
            -COORD_BOUND <= c <= COORD_BOUND,
        ensures
            r == self.axis_eq_int_spec(a as int, c as int),
    {
        proof {
            lemma_mul_bound(c as int, self.den as int, COORD_BOUND as int, T_BOUND as int);
        }
        self.axis_num(a) == (c as i128) * self.den
    }

    pub fn axis_gt_int(&self, a: usize, c: i64) -> (r: bool)
        requires
            a < 3,
            self.wf(),
            -COORD_BOUND <= c <= COORD_BOUND,
        ensures
            r == self.axis_gt_int_spec(a as int, c as int),
    {
        proof {
            lemma_mul_bound(c as int, self.den as int, COORD_BOUND as int, T_BOUND as int);
        }
        self.axis_num(a) > (c as i128) * self.den
    }
}

} // verus!
