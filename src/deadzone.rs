//! Deadzone normalisation of raw analog readings.
//!
//! Raw readings are integers. Normalised values are fixed-point integers in
//! which `UNIT` stands for one: a 1-D result lies in `[-UNIT, UNIT]`, rounded
//! to the nearest step, and a 2-D result lies in the disc of radius `UNIT`.
use vstd::prelude::*;
use vstd::arithmetic::div_mod::{
    lemma_div_is_ordered, lemma_div_pos_is_pos, lemma_fundamental_div_mod, lemma_mod_pos_bound,
};
use vstd::arithmetic::mul::lemma_mul_inequality;

verus! {

/// The fixed-point value that stands for one.
pub const UNIT: i32 = 1_000_000;

pub open spec fn abs(v: int) -> int {
    if v < 0 { -v } else { v }
}

pub open spec fn sign(v: int) -> int {
    if v < 0 { -1 } else if v > 0 { 1 } else { 0 }
}

/// `d / range` in units of `UNIT`, rounded to the nearest step (halves up).
pub open spec fn rescale(d: int, range: int) -> int {
    (2 * d * UNIT + range) / (2 * range)
}

/// The 1-D deadzone: zero up to `min`, full scale from `max` on, linear between,
/// with the sign of the input.
pub open spec fn axis_value(v: int, min: int, max: int) -> int {
    let a = abs(v);
    if a <= min {
        0
    } else if a >= max {
        sign(v) * UNIT
    } else {
        sign(v) * rescale(a - min, max - min)
    }
}

/// Whether `min < max` are usable thresholds.
pub open spec fn valid_thresholds(min: int, max: int) -> bool {
    0 <= min < max
}

/// `a / d` rounded down brackets `a`.
proof fn lemma_floor_div(a: int, d: int)
    requires
        a >= 0,
        d > 0,
    ensures
        a / d >= 0,
        d * (a / d) <= a < d * (a / d) + d,
{
    lemma_fundamental_div_mod(a, d);
    lemma_mod_pos_bound(a, d);
    lemma_div_pos_is_pos(a, d);
}

/// For `0 <= d < range`, `rescale(d, range)` lies in `[0, UNIT]`.
proof fn lemma_rescale_bound(d: int, range: int)
    requires
        0 <= d < range,
    ensures
        0 <= rescale(d, range) <= UNIT,
{
    let u = UNIT as int;
    let num = 2 * d * u + range;
    let den = 2 * range;
    assert(num >= 0) by (nonlinear_arith)
        requires num == 2 * d * u + range, d >= 0, u > 0, range > 0;
    assert(num < den * (u + 1)) by (nonlinear_arith)
        requires num == 2 * d * u + range, den == 2 * range, 0 <= d < range, u == 1_000_000;
    lemma_floor_div(num, den);
    let q = num / den;
    assert(q <= u) by (nonlinear_arith)
        requires den * q <= num, num < den * (u + 1), den > 0;
}

/// Applies the 1-D deadzone to the raw value `v`.
pub fn axis_deadzone(v: i32, min: i32, max: i32) -> (r: i32)
    requires
        valid_thresholds(min as int, max as int),
    ensures
        r == axis_value(v as int, min as int, max as int),
        -UNIT <= r <= UNIT,
{
    let a: i64 = if v < 0 { -(v as i64) } else { v as i64 };
    let s: i64 = if v < 0 { -1 } else if v > 0 { 1 } else { 0 };
    if a <= min as i64 {
        0
    } else if a >= max as i64 {
        (s * UNIT as i64) as i32
    } else {
        let range: i64 = max as i64 - min as i64;
        let d: i64 = a - min as i64;
        proof {
            lemma_rescale_bound(d as int, range as int);
            let di = d as int;
            assert(2 * di * 1_000_000 <= 2 * 0x1_0000_0000 * 1_000_000) by (nonlinear_arith)
                requires 0 <= di <= 0x1_0000_0000;
        }
        let q: i64 = (2 * d * UNIT as i64 + range) / (2 * range);
        assert(q == rescale(d as int, range as int));
        (s * q) as i32
    }
}

/// The 1-D deadzone is zero up to `min`, of full scale from `max` on,
/// non-decreasing in the size of its input, and of the input's sign
/// wherever it is not zero.
pub proof fn lemma_axis_deadzone_laws(v: int, w: int, min: int, max: int)
    requires
        valid_thresholds(min, max),
    ensures
        abs(v) <= min ==> axis_value(v, min, max) == 0,
        abs(v) >= max ==> abs(axis_value(v, min, max)) == UNIT,
        abs(v) <= abs(w) ==> abs(axis_value(v, min, max)) <= abs(axis_value(w, min, max)),
        axis_value(v, min, max) != 0 ==> sign(axis_value(v, min, max)) == sign(v),
{
    let u = UNIT as int;
    let range = max - min;
    if min < abs(v) < max {
        lemma_rescale_bound(abs(v) - min, range);
    }
    if min < abs(w) < max {
        lemma_rescale_bound(abs(w) - min, range);
    }
    if abs(v) <= abs(w) && min < abs(v) && abs(w) < max {
        lemma_mul_inequality(abs(v) - min, abs(w) - min, u);
        assert(2 * (abs(v) - min) * u + range <= 2 * (abs(w) - min) * u + range) by (nonlinear_arith)
            requires (abs(v) - min) * u <= (abs(w) - min) * u;
        lemma_div_is_ordered(
            2 * (abs(v) - min) * u + range,
            2 * (abs(w) - min) * u + range,
            2 * range,
        );
    }
}

/// A pair of raw or normalised axis values.
#[derive(Clone, Copy, Debug, PartialEq, Eq, Structural)]
pub struct Vec2 {
    pub x: i32,
    pub y: i32,
}

/// `r` is the square root of `n`, rounded down.
pub open spec fn is_floor_sqrt(n: int, r: int) -> bool {
    0 <= r && r * r <= n < (r + 1) * (r + 1)
}

/// Squared length of `(x, y)`.
pub open spec fn norm_sq(x: int, y: int) -> int {
    x * x + y * y
}

/// Whether the radial deadzone sends a vector of squared length `n` to zero:
/// its length is zero or below `min`.
pub open spec fn radial_is_zero(n: int, min: int) -> bool {
    n == 0 || n < min * min
}

/// The output length, in units of `UNIT`, for a vector of squared length `n`
/// whose length in units of `UNIT` is `s` rounded down: full scale from `max`
/// on, else `(length - min) / (max - min)` rounded down.
pub open spec fn radial_factor(n: int, s: int, min: int, max: int) -> int {
    if n >= max * max {
        UNIT as int
    } else {
        (s - min * UNIT) / (max - min)
    }
}

/// `rc` is component `c` of a vector of squared length `n` scaled to length
/// `k`: `|c| * k / sqrt(n)` rounded down, with the sign of `c`.
pub open spec fn scaled_component(c: int, k: int, n: int, rc: int) -> bool {
    &&& is_floor_sqrt(c * c * k * k / n, abs(rc))
    &&& rc == 0 || sign(rc) == sign(c)
}

/// `r` is the radial deadzone of `(x, y)`.
pub open spec fn radial_result(x: int, y: int, min: int, max: int, r: Vec2) -> bool {
    let n = norm_sq(x, y);
    if radial_is_zero(n, min) {
        r.x == 0 && r.y == 0
    } else {
        exists|s: int|
            is_floor_sqrt(n * UNIT * UNIT, s) && scaled_component(
                x,
                radial_factor(n, s, min, max),
                n,
                r.x as int,
            ) && scaled_component(y, radial_factor(n, s, min, max), n, r.y as int)
    }
}

impl Vec2 {
    pub fn new(x: i32, y: i32) -> (r: Vec2)
        ensures
            r.x == x,
            r.y == y,
    {
        Vec2 { x, y }
    }

    /// Applies the 1-D deadzone to each component on its own.
    pub fn cardinal_deadzone(&self, min: i32, max: i32) -> (r: Vec2)
        requires
            valid_thresholds(min as int, max as int),
        ensures
            r.x == axis_value(self.x as int, min as int, max as int),
            r.y == axis_value(self.y as int, min as int, max as int),
    {
        Vec2 { x: axis_deadzone(self.x, min, max), y: axis_deadzone(self.y, min, max) }
    }
}

impl Vec2 {
    /// Applies the deadzone to the vector's length and keeps its direction.
    /// The result lies in the disc of radius `UNIT`.
    pub fn radial_deadzone(&self, min: i32, max: i32) -> (r: Vec2)
        requires
            valid_thresholds(min as int, max as int),
        ensures
            radial_result(self.x as int, self.y as int, min as int, max as int, r),
            r.x * r.x + r.y * r.y <= UNIT * UNIT,
    {
        let x = self.x;
        let y = self.y;
        let n: u64 = square_u64(x) + square_u64(y);
        proof {
            let (mi, ma) = (min as int, max as int);
            assert(mi * mi <= 0x4000_0000_0000_0000 && ma * ma <= 0x4000_0000_0000_0000) by (nonlinear_arith)
                requires 0 <= mi <= 0x8000_0000, 0 <= ma <= 0x8000_0000;
        }
        let min_sq: u64 = min as u64 * min as u64;
        if n == 0 || n < min_sq {
            return Vec2 { x: 0, y: 0 };
        }
        let u: u128 = UNIT as u128;
        proof {
            let ni = n as int;
            assert(ni * 1_000_000_000_000 <= 0x8000_0000_0000_0000 * 1_000_000_000_000) by (nonlinear_arith)
                requires ni <= 0x8000_0000_0000_0000;
            assert(u * u == 1_000_000_000_000);
            assert(ni * UNIT * UNIT == ni * 1_000_000_000_000) by (nonlinear_arith);
        }
        let s: u128 = floor_sqrt(n as u128 * (u * u));
        let range: u128 = max as u128 - min as u128;
        let k: u128 = if n >= max as u64 * max as u64 {
            u
        } else {
            proof {
                lemma_factor_bound(n as int, s as int, min as int, max as int);
            }
            (s - min as u128 * u) / range
        };
        proof {
            if n < max * max {
                lemma_factor_bound(n as int, s as int, min as int, max as int);
            }
            assert(k == radial_factor(n as int, s as int, min as int, max as int));
        }
        let rx = scale_component(x, k, n);
        let ry = scale_component(y, k, n);
        proof {
            lemma_disc(x as int, y as int, k as int, n as int, rx as int, ry as int);
            assert(is_floor_sqrt(n * UNIT * UNIT, s as int));
        }
        Vec2 { x: rx, y: ry }
    }
}

/// Below `max` the output length lies in `[0, UNIT)`.
proof fn lemma_factor_bound(n: int, s: int, min: int, max: int)
    requires
        valid_thresholds(min, max),
        min * min <= n < max * max,
        is_floor_sqrt(n * UNIT * UNIT, s),
    ensures
        s >= min * UNIT,
        0 <= (s - min * UNIT) / (max - min) < UNIT,
{
    let u = UNIT as int;
    assert(s + 1 > min * u) by (nonlinear_arith)
        requires (s + 1) * (s + 1) > n * u * u, n >= min * min, min >= 0, s >= 0, u > 0;
    assert(s < max * u) by (nonlinear_arith)
        requires s * s <= n * u * u, n < max * max, max > 0, s >= 0, u > 0;
    let d = s - min * u;
    let range = max - min;
    lemma_floor_div(d, range);
    assert(d < range * u) by (nonlinear_arith)
        requires d == s - min * u, s < max * u, range == max - min;
    let q = d / range;
    assert(q < u) by (nonlinear_arith)
        requires range * q <= d, d < range * u, range > 0;
}

/// The two scaled components together have length at most `k <= UNIT`.
proof fn lemma_disc(x: int, y: int, k: int, n: int, rx: int, ry: int)
    requires
        n == x * x + y * y,
        n > 0,
        0 <= k <= UNIT,
        scaled_component(x, k, n, rx),
        scaled_component(y, k, n, ry),
    ensures
        rx * rx + ry * ry <= UNIT * UNIT,
{
    let a = x * x * k * k;
    let b = y * y * k * k;
    assert(a >= 0 && b >= 0) by (nonlinear_arith)
        requires a == x * x * k * k, b == y * y * k * k;
    lemma_floor_div(a, n);
    lemma_floor_div(b, n);
    let qa = a / n;
    let qb = b / n;
    assert(a + b == n * (k * k)) by (nonlinear_arith)
        requires a == x * x * k * k, b == y * y * k * k, n == x * x + y * y;
    assert(qa + qb <= k * k) by (nonlinear_arith)
        requires n * qa <= a, n * qb <= b, a + b == n * (k * k), n > 0;
    assert(rx * rx == abs(rx) * abs(rx)) by (nonlinear_arith);
    assert(ry * ry == abs(ry) * abs(ry)) by (nonlinear_arith);
    assert(k * k <= UNIT * UNIT) by (nonlinear_arith)
        requires 0 <= k <= UNIT;
}

/// Component `c` of a vector of squared length `n >= c * c`, scaled to
/// length `k`.
fn scale_component(c: i32, k: u128, n: u64) -> (r: i32)
    requires
        n > 0,
        c * c <= n,
        k <= UNIT,
    ensures
        scaled_component(c as int, k as int, n as int, r as int),
{
    let c2: u128 = square_u64(c) as u128;
    proof {
        let (ci2, ki, ci) = (c2 as int, k as int, c as int);
        assert(ki * ki <= 1_000_000_000_000) by (nonlinear_arith)
            requires 0 <= ki <= 1_000_000;
        assert(ci2 * (ki * ki) <= 0x4000_0000_0000_0000 * 1_000_000_000_000) by (nonlinear_arith)
            requires 0 <= ci2 <= 0x4000_0000_0000_0000, 0 <= ki * ki <= 1_000_000_000_000;
        assert(ci2 * (ki * ki) == ci * ci * ki * ki) by (nonlinear_arith)
            requires ci2 == ci * ci;
    }
    let q: u128 = c2 * (k * k) / n as u128;
    let t: u128 = floor_sqrt(q);
    proof {
        let (ci, ki) = (c as int, k as int);
        let a = ci * ci * ki * ki;
        assert(a >= 0) by (nonlinear_arith)
            requires a == ci * ci * ki * ki;
        lemma_floor_div(a, n as int);
        assert(q <= k * k) by (nonlinear_arith)
            requires n * q <= a, a == c * c * k * k, c * c <= n, n > 0, k >= 0;
        assert(t <= k) by (nonlinear_arith)
            requires t * t <= q, q <= k * k, t >= 0, k >= 0;
        if c == 0 {
            assert(a == 0) by (nonlinear_arith)
                requires a == ci * ci * ki * ki, ci == 0;
            assert(t == 0) by (nonlinear_arith)
                requires t * t <= q, q == 0, t >= 0;
        }
    }
    if c < 0 {
        -(t as i32)
    } else {
        t as i32
    }
}

/// `x * x` for any `i32`.
fn square_u64(x: i32) -> (r: u64)
    ensures
        r == x * x,
        r <= 0x4000_0000_0000_0000,
{
    let a: u64 = if x < 0 { (-(x as i64)) as u64 } else { x as u64 };
    assert(a * a <= 0x8000_0000u64 * 0x8000_0000u64) by (nonlinear_arith)
        requires a <= 0x8000_0000u64;
    assert(a * a == x * x) by (nonlinear_arith)
        requires a == x || a == -x;
    a * a
}

/// The square root of `n` rounded down, by bisection.
fn floor_sqrt(n: u128) -> (r: u128)
    ensures
        is_floor_sqrt(n as int, r as int),
        r < 0x1_0000_0000_0000_0000,
{
    let mut lo: u128 = 0;
    let mut hi: u128 = 0x1_0000_0000_0000_0000;
    assert(hi * hi > n) by (nonlinear_arith)
        requires hi == 0x1_0000_0000_0000_0000u128, n <= u128::MAX;
    while hi - lo > 1
        invariant
            lo < hi <= 0x1_0000_0000_0000_0000,
            lo * lo <= n,
            n < hi * hi,
        decreases hi - lo,
    {
        let mid: u128 = lo + (hi - lo) / 2;
        assert(mid * mid <= 0xFFFF_FFFF_FFFF_FFFFu128 * 0xFFFF_FFFF_FFFF_FFFFu128) by (nonlinear_arith)
            requires mid <= 0xFFFF_FFFF_FFFF_FFFFu128;
        if mid * mid <= n {
            lo = mid;
        } else {
            hi = mid;
        }
    }
    lo
}

/// Each component of the radial deadzone keeps the sign of the input's
/// component and lies within one step of its exact value `|c| * k / sqrt(n)`,
/// never above it: `r^2 * n <= c^2 * k^2 < (|r| + 1)^2 * n`. So the direction
/// is kept to within one step per component.
pub proof fn lemma_radial_deadzone_direction(c: int, k: int, n: int, rc: int)
    requires
        n > 0,
        k >= 0,
        scaled_component(c, k, n, rc),
    ensures
        rc == 0 || sign(rc) == sign(c),
        rc * rc * n <= c * c * k * k,
        c * c * k * k < (abs(rc) + 1) * (abs(rc) + 1) * n,
{
    let a = c * c * k * k;
    assert(a >= 0) by (nonlinear_arith)
        requires a == c * c * k * k;
    lemma_floor_div(a, n);
    let q = a / n;
    let t = abs(rc);
    assert(rc * rc == t * t) by (nonlinear_arith)
        requires t == abs(rc);
    assert(t * t * n <= a) by (nonlinear_arith)
        requires t * t <= q, n * q <= a, n > 0;
    assert(a < (t + 1) * (t + 1) * n) by (nonlinear_arith)
        requires q + 1 <= (t + 1) * (t + 1), a < n * q + n, n > 0;
}

/// The radial deadzone gives exactly the zero vector for a zero input and
/// for one shorter than `min`.
pub proof fn lemma_radial_deadzone_zero(x: int, y: int, min: int, max: int, r: Vec2)
    requires
        valid_thresholds(min, max),
        radial_result(x, y, min, max, r),
        radial_is_zero(norm_sq(x, y), min),
    ensures
        r.x == 0 && r.y == 0,
{
}

} // verus!
