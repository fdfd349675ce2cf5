//! Three-component integer vectors and the exact arithmetic the steering
//! computations are built on: componentwise operations, squared magnitude,
//! an integer ceiling square root, and magnitude clamping.

use vstd::prelude::*;

verus! {

/// Mathematical model of a three-component vector, over unbounded integers.
#[verifier::ext_equal]
pub ghost struct V3 {
    pub x: int,
    pub y: int,
    pub z: int,
}

pub open spec fn v3_zero() -> V3 {
    V3 { x: 0, y: 0, z: 0 }
}

pub open spec fn v3_add(a: V3, b: V3) -> V3 {
    V3 { x: a.x + b.x, y: a.y + b.y, z: a.z + b.z }
}

pub open spec fn v3_sub(a: V3, b: V3) -> V3 {
    V3 { x: a.x - b.x, y: a.y - b.y, z: a.z - b.z }
}

pub open spec fn v3_neg(a: V3) -> V3 {
    V3 { x: -a.x, y: -a.y, z: -a.z }
}

/// Division truncating toward zero, matching machine division of the
/// executable code on a positive divisor.
pub open spec fn tdiv(a: int, d: int) -> int {
    if a >= 0 {
        a / d
    } else {
        -((-a) / d)
    }
}

/// Each component divided by `d`, truncating toward zero.
pub open spec fn v3_div(a: V3, d: int) -> V3 {
    V3 { x: tdiv(a.x, d), y: tdiv(a.y, d), z: tdiv(a.z, d) }
}

/// Each component multiplied by `target` and divided by `m`, truncating
/// toward zero: the vector rescaled from magnitude `m` to magnitude `target`.
pub open spec fn v3_scale_div(a: V3, target: int, m: int) -> V3 {
    V3 {
        x: tdiv(a.x * target, m),
        y: tdiv(a.y * target, m),
        z: tdiv(a.z * target, m),
    }
}

pub open spec fn v3_mag_sq(a: V3) -> int {
    a.x * a.x + a.y * a.y + a.z * a.z
}

/// The least nonnegative integer whose square is at least `n` (0 for
/// nonpositive `n`): the ceiling of the square root.
pub open spec fn sqrt_ceil(n: int) -> int
    decreases n,
{
    if n <= 0 {
        0
    } else {
        let r = sqrt_ceil(n - 1);
        if r * r >= n {
            r
        } else {
            r + 1
        }
    }
}

/// `sqrt_ceil(n)` is nonnegative, its square is at least `n`, and it is the
/// least such integer.
pub proof fn lemma_sqrt_ceil(n: int)
    requires
        n >= 0,
    ensures
        sqrt_ceil(n) >= 0,
        sqrt_ceil(n) * sqrt_ceil(n) >= n,
        sqrt_ceil(n) > 0 ==> (sqrt_ceil(n) - 1) * (sqrt_ceil(n) - 1) < n,
        sqrt_ceil(n) <= n,
    decreases n,
{
    if n > 0 {
        lemma_sqrt_ceil(n - 1);
        let r = sqrt_ceil(n - 1);
        if r * r >= n {
            assert(sqrt_ceil(n) == r);
        } else {
            assert(sqrt_ceil(n) == r + 1);
            assert((r + 1) * (r + 1) >= n) by (nonlinear_arith)
                requires r >= 0 && r * r >= n - 1,
            {}
        }
    }
}

/// Any two nonnegative integers that both satisfy the ceiling-square-root
/// characterisation of `n` are equal.
pub proof fn lemma_sqrt_unique(n: int, a: int, b: int)
    requires
        n >= 0,
        a >= 0,
        b >= 0,
        a * a >= n,
        a > 0 ==> (a - 1) * (a - 1) < n,
        b * b >= n,
        b > 0 ==> (b - 1) * (b - 1) < n,
    ensures
        a == b,
{
    assert(a == b) by (nonlinear_arith)
        requires
            n >= 0,
            a >= 0,
            b >= 0,
            a * a >= n,
            a > 0 ==> (a - 1) * (a - 1) < n,
            b * b >= n,
            b > 0 ==> (b - 1) * (b - 1) < n,
    {}
}

/// If a square is bounded by another square, so is the absolute value.
pub proof fn lemma_abs_le(c: int, m: int)
    requires
        m >= 0,
        c * c <= m * m,
    ensures
        -m <= c <= m,
{
    assert(-m <= c <= m) by (nonlinear_arith)
        requires m >= 0 && c * c <= m * m,
    {}
}

/// Componentwise, a square never exceeds the squared magnitude.
pub proof fn lemma_component_sq_le_mag_sq(a: V3)
    ensures
        a.x * a.x <= v3_mag_sq(a),
        a.y * a.y <= v3_mag_sq(a),
        a.z * a.z <= v3_mag_sq(a),
{
    assert(a.x * a.x >= 0 && a.y * a.y >= 0 && a.z * a.z >= 0) by (nonlinear_arith) {}
}

/// Truncating division toward zero shrinks absolute values: the quotient
/// times the divisor stays within the dividend.
pub proof fn lemma_tdiv_bound(a: int, d: int)
    requires
        d > 0,
    ensures
        a >= 0 ==> 0 <= tdiv(a, d) && tdiv(a, d) * d <= a,
        a < 0 ==> tdiv(a, d) <= 0 && tdiv(a, d) * d >= a,
{
    if a >= 0 {
        assert(0 <= a / d && (a / d) * d <= a) by (nonlinear_arith)
            requires a >= 0 && d > 0,
        {}
    } else {
        let p = -a;
        let q = p / d;
        assert(0 <= q && q * d <= p) by (nonlinear_arith)
            requires p > 0 && d > 0 && q == p / d,
        {}
        assert(tdiv(a, d) == -q);
        assert((-q) * d == -(q * d)) by (nonlinear_arith) {}
    }
}

/// Rescaling a vector of magnitude at most `m` down to `target` keeps every
/// component within `target` and the squared magnitude within `target`
/// squared.
pub proof fn lemma_scale_div_bounds(a: V3, target: int, m: int)
    requires
        m >= 1,
        target >= 0,
        v3_mag_sq(a) <= m * m,
    ensures
        -target <= v3_scale_div(a, target, m).x <= target,
        -target <= v3_scale_div(a, target, m).y <= target,
        -target <= v3_scale_div(a, target, m).z <= target,
        v3_mag_sq(v3_scale_div(a, target, m)) <= target * target,
{
    let r = v3_scale_div(a, target, m);
    lemma_component_sq_le_mag_sq(a);
    lemma_abs_le(a.x, m);
    lemma_abs_le(a.y, m);
    lemma_abs_le(a.z, m);
    lemma_scale_component(a.x, target, m);
    lemma_scale_component(a.y, target, m);
    lemma_scale_component(a.z, target, m);
    let mm = m * m;
    let tt = target * target;
    let sa = v3_mag_sq(a);
    let sr = v3_mag_sq(r);
    assert(sr * mm == r.x * r.x * mm + r.y * r.y * mm + r.z * r.z * mm) by (nonlinear_arith)
        requires sr == r.x * r.x + r.y * r.y + r.z * r.z && mm == m * m,
    {}
    assert(a.x * a.x * tt + a.y * a.y * tt + a.z * a.z * tt == sa * tt) by (nonlinear_arith)
        requires sa == a.x * a.x + a.y * a.y + a.z * a.z && tt == target * target,
    {}
    assert(mm >= 1) by (nonlinear_arith)
        requires m >= 1 && mm == m * m,
    {}
    assert(sr * mm <= sa * tt);
    assert(sa * tt <= mm * tt) by (nonlinear_arith)
        requires sa <= mm && tt >= 0,
    {}
    assert(sr <= tt) by (nonlinear_arith)
        requires mm >= 1 && sr * mm <= mm * tt,
    {}
}

/// One component of the rescaling: the quotient stays within `target` when
/// the component stays within `m`, and its square scales down accordingly.
proof fn lemma_scale_component(c: int, target: int, m: int)
    requires
        m >= 1,
        target >= 0,
        -m <= c <= m,
    ensures
        -target <= tdiv(c * target, m) <= target,
        tdiv(c * target, m) * tdiv(c * target, m) * (m * m) <= c * c * (target * target),
{
    let q = tdiv(c * target, m);
    lemma_tdiv_bound(c * target, m);
    if c >= 0 {
        assert(c * target >= 0) by (nonlinear_arith) requires c >= 0 && target >= 0 {}
        assert(q * m <= c * target && q >= 0);
        assert(q <= target && q * q * (m * m) <= c * c * (target * target)) by (nonlinear_arith)
            requires
                m >= 1,
                target >= 0,
                0 <= c <= m,
                q >= 0,
                q * m <= c * target,
        {}
    } else {
        assert(c * target <= 0) by (nonlinear_arith) requires c < 0 && target >= 0 {}
        assert(q * m >= c * target && q <= 0);
        assert(-target <= q && q * q * (m * m) <= c * c * (target * target)) by (nonlinear_arith)
            requires
                m >= 1,
                target >= 0,
                -m <= c < 0,
                q <= 0,
                q * m >= c * target,
        {}
    }
}

/// A three-component vector of fixed-point coordinates.
#[derive(Clone, Copy, PartialEq, Eq, Structural, Debug)]
pub struct Vec3 {
    pub x: i64,
    pub y: i64,
    pub z: i64,
}

impl View for Vec3 {
    type V = V3;

    open spec fn view(&self) -> V3 {
        V3 { x: self.x as int, y: self.y as int, z: self.z as int }
    }
}

/// Componentwise bound usable in contracts: every component of `a` lies in
/// `[-b, b]`.
pub open spec fn v3_bounded(a: V3, b: int) -> bool {
    &&& -b <= a.x <= b
    &&& -b <= a.y <= b
    &&& -b <= a.z <= b
}

/// Bound on the component magnitude under which squared magnitudes of sums
/// and differences still fit the machine word.
pub const COMPONENT_LIMIT: i64 = 1_000_000_000;

impl Vec3 {
    pub fn new(x: i64, y: i64, z: i64) -> (r: Vec3)
        ensures
            r@ == (V3 { x: x as int, y: y as int, z: z as int }),
    {
        Vec3 { x, y, z }
    }

    pub fn zero() -> (r: Vec3)
        ensures
            r@ == v3_zero(),
    {
        Vec3 { x: 0, y: 0, z: 0 }
    }

    pub fn plus(self, o: Vec3) -> (r: Vec3)
        requires
            i64::MIN <= self@.x + o@.x <= i64::MAX,
            i64::MIN <= self@.y + o@.y <= i64::MAX,
            i64::MIN <= self@.z + o@.z <= i64::MAX,
        ensures
            r@ == v3_add(self@, o@),
    {
        Vec3 { x: self.x + o.x, y: self.y + o.y, z: self.z + o.z }
    }

    pub fn minus(self, o: Vec3) -> (r: Vec3)
        requires
            i64::MIN <= self@.x - o@.x <= i64::MAX,
            i64::MIN <= self@.y - o@.y <= i64::MAX,
            i64::MIN <= self@.z - o@.z <= i64::MAX,
        ensures
            r@ == v3_sub(self@, o@),
    {
        Vec3 { x: self.x - o.x, y: self.y - o.y, z: self.z - o.z }
    }

    pub fn negate(self) -> (r: Vec3)
        requires
            self@.x > i64::MIN,
            self@.y > i64::MIN,
            self@.z > i64::MIN,
        ensures
            r@ == v3_neg(self@),
    {
        Vec3 { x: -self.x, y: -self.y, z: -self.z }
    }

    /// Each component divided by a positive constant, truncating toward zero.
    pub fn div_by(self, d: i64) -> (r: Vec3)
        requires
            d > 0,
            self@.x > i64::MIN,
            self@.y > i64::MIN,
            self@.z > i64::MIN,
        ensures
            r@ == v3_div(self@, d as int),
    {
        Vec3 {
            x: tdiv_exec(self.x, d),
            y: tdiv_exec(self.y, d),
            z: tdiv_exec(self.z, d),
        }
    }

    pub fn mag_sq(self) -> (r: i64)
        requires
            v3_bounded(self@, COMPONENT_LIMIT as int),
        ensures
            r == v3_mag_sq(self@),
            0 <= r <= 3_000_000_000_000_000_000,
    {
        proof {
            lemma_sq_bound(self@.x, COMPONENT_LIMIT as int);
            lemma_sq_bound(self@.y, COMPONENT_LIMIT as int);
            lemma_sq_bound(self@.z, COMPONENT_LIMIT as int);
        }
        self.x * self.x + self.y * self.y + self.z * self.z
    }
}

/// A square of a value within `b` is nonnegative and within `b` squared.
pub proof fn lemma_sq_bound(c: int, b: int)
    requires
        b >= 0,
        -b <= c <= b,
    ensures
        0 <= c * c <= b * b,
{
    assert(0 <= c * c <= b * b) by (nonlinear_arith)
        requires b >= 0 && -b <= c <= b,
    {}
}

/// The vector clamped to squared magnitude at most `max * max`: unchanged
/// when already within the bound, otherwise rescaled from its ceiling
/// magnitude down to `max`, truncating toward zero.
pub open spec fn v3_truncate(a: V3, max: int) -> V3 {
    if v3_mag_sq(a) <= max * max {
        a
    } else {
        v3_scale_div(a, max, sqrt_ceil(v3_mag_sq(a)))
    }
}

/// Clamping keeps every component within `max` and the squared magnitude
/// within `max` squared.
pub proof fn lemma_truncate_bounds(a: V3, max: int)
    requires
        max >= 0,
    ensures
        v3_bounded(v3_truncate(a, max), max),
        v3_mag_sq(v3_truncate(a, max)) <= max * max,
{
    let ms = v3_mag_sq(a);
    assert(ms >= 0) by (nonlinear_arith)
        requires ms == a.x * a.x + a.y * a.y + a.z * a.z,
    {}
    if ms <= max * max {
        lemma_component_sq_le_mag_sq(a);
        lemma_abs_le(a.x, max);
        lemma_abs_le(a.y, max);
        lemma_abs_le(a.z, max);
    } else {
        let m = sqrt_ceil(ms);
        lemma_sqrt_ceil(ms);
        assert(max * max >= 0) by (nonlinear_arith) {}
        assert(m >= 1) by (nonlinear_arith)
            requires m >= 0 && m * m >= ms && ms >= 1,
        {}
        lemma_scale_div_bounds(a, max, m);
    }
}

/// The least integer whose square is at least `n`.
pub fn ceil_sqrt(n: i64) -> (r: i64)
    requires
        0 <= n <= 4_611_686_018_427_387_904,
    ensures
        r == sqrt_ceil(n as int),
        0 <= r <= 2_147_483_648,
{
    let mut lo: i64 = 0;
    let mut hi: i64 = 2_147_483_648;
    proof {
        assert(2_147_483_648i64 * 2_147_483_648i64 == 4_611_686_018_427_387_904) by (nonlinear_arith) {}
    }
    while lo < hi
        invariant
            0 <= lo <= hi <= 2_147_483_648,
            n <= 4_611_686_018_427_387_904,
            n >= 0,
            hi * hi >= n,
            lo > 0 ==> (lo - 1) * (lo - 1) < n,
        decreases hi - lo,
    {
        let mid = lo + (hi - lo) / 2;
        proof {
            assert(0 <= mid < 2_147_483_648);
            assert(mid * mid < 4_611_686_018_427_387_904) by (nonlinear_arith)
                requires 0 <= mid < 2_147_483_648,
            {}
        }
        if mid * mid >= n {
            proof {
                assert(hi * hi >= n);
            }
            hi = mid;
        } else {
            lo = mid + 1;
        }
    }
    proof {
        lemma_sqrt_ceil(n as int);
        lemma_sqrt_unique(n as int, lo as int, sqrt_ceil(n as int));
    }
    lo
}

/// The vector clamped to magnitude at most `max`, truncating toward zero
/// when rescaling.
pub fn truncate(vec: Vec3, max: i64) -> (r: Vec3)
    requires
        0 <= max <= COMPONENT_LIMIT,
        v3_bounded(vec@, COMPONENT_LIMIT as int),
    ensures
        r@ == v3_truncate(vec@, max as int),
        v3_bounded(r@, max as int),
        v3_mag_sq(r@) <= max * max,
{
    proof {
        lemma_truncate_bounds(vec@, max as int);
    }
    let ms = vec.mag_sq();
    proof {
        lemma_sq_bound(max as int, COMPONENT_LIMIT as int);
    }
    if ms <= max * max {
        vec
    } else {
        let m = ceil_sqrt(ms);
        proof {
            lemma_sqrt_ceil(ms as int);
            lemma_component_sq_le_mag_sq(vec@);
            lemma_abs_le(vec@.x, m as int);
            lemma_abs_le(vec@.y, m as int);
            lemma_abs_le(vec@.z, m as int);
            lemma_mul_abs_bound(vec@.x, max as int, COMPONENT_LIMIT as int);
            lemma_mul_abs_bound(vec@.y, max as int, COMPONENT_LIMIT as int);
            lemma_mul_abs_bound(vec@.z, max as int, COMPONENT_LIMIT as int);
        }
        Vec3 {
            x: tdiv_exec(vec.x * max, m),
            y: tdiv_exec(vec.y * max, m),
            z: tdiv_exec(vec.z * max, m),
        }
    }
}

/// Bound on a product of two values each within `b`.
pub proof fn lemma_mul_abs_bound(c: int, k: int, b: int)
    requires
        b >= 0,
        -b <= c <= b,
        0 <= k <= b,
    ensures
        -(b * b) <= c * k <= b * b,
{
    assert(-(b * b) <= c * k <= b * b) by (nonlinear_arith)
        requires b >= 0 && -b <= c <= b && 0 <= k <= b,
    {}
}

/// Bound on a product from a bound on each factor.
pub proof fn lemma_mul_bounds(c: int, k: int, cb: int, kb: int)
    requires
        cb >= 0,
        -cb <= c <= cb,
        0 <= k <= kb,
    ensures
        -(cb * kb) <= c * k <= cb * kb,
{
    assert(-(cb * kb) <= c * k <= cb * kb) by (nonlinear_arith)
        requires cb >= 0 && -cb <= c <= cb && 0 <= k <= kb,
    {}
}

/// Machine division truncating toward zero, on a positive divisor.
pub fn tdiv_exec(a: i64, d: i64) -> (r: i64)
    requires
        d > 0,
        a > i64::MIN,
    ensures
        r == tdiv(a as int, d as int),
{
    if a >= 0 {
        proof {
            lemma_tdiv_bound(a as int, d as int);
            assert(a as int / d as int <= a as int) by (nonlinear_arith)
                requires a >= 0 && d > 0,
            {}
        }
        a / d
    } else {
        let p = -a;
        proof {
            lemma_tdiv_bound(a as int, d as int);
            assert(p as int / d as int <= p as int) by (nonlinear_arith)
                requires p >= 0 && d > 0,
            {}
        }
        -(p / d)
    }
}

} // verus!
