//! Fixed-point scalar and 2D-vector arithmetic.
//!
//! A scalar is an `i64` holding the real value times [`SCALE`]. Every
//! operation truncates toward zero (like `f64` casts would round, the sign
//! symmetric way) and saturates at `FX_MAX` in magnitude, so every operation
//! is total on saturated inputs and its exact result is given by a spec
//! function (`fadd_s`, `fmul_s`, ...).

use vstd::arithmetic::div_mod::{lemma_div_is_ordered, lemma_div_multiples_vanish};
use vstd::prelude::*;

verus! {

/// Number of raw units in 1.0.
pub const SCALE: i64 = 1_000_000;

/// Largest magnitude a fixed-point scalar may take; operations saturate here.
pub const FX_MAX: i64 = 1_000_000_000_000_000_000;

/// Magnitude of `a`.
pub open spec fn sabs(a: int) -> int {
    if a >= 0 {
        a
    } else {
        -a
    }
}

/// `a` saturated into `[-FX_MAX, FX_MAX]`.
pub open spec fn clip(a: int) -> int {
    if a > FX_MAX {
        FX_MAX as int
    } else if a < -(FX_MAX as int) {
        -(FX_MAX as int)
    } else {
        a
    }
}

/// Whether `a` lies in the saturated scalar range.
pub open spec fn fx_ok(a: int) -> bool {
    -(FX_MAX as int) <= a <= FX_MAX as int
}

/// Quotient of `a` by `b`, truncated toward zero (the rounding `/` has on
/// machine integers), as opposed to the Euclidean `/` on `int`.
pub open spec fn tdiv(a: int, b: int) -> int
    recommends
        b != 0,
{
    if (a >= 0) == (b >= 0) {
        sabs(a) / sabs(b)
    } else {
        -(sabs(a) / sabs(b))
    }
}

/// Largest `r >= 0` with `r * r <= x` (0 for negative `x`).
pub open spec fn sqrt_floor(x: int) -> int
    decreases x,
{
    if x <= 0 {
        0
    } else {
        let r = sqrt_floor(x - 1);
        if (r + 1) * (r + 1) <= x {
            r + 1
        } else {
            r
        }
    }
}

/// Saturated fixed-point addition.
pub open spec fn fadd_s(a: int, b: int) -> int {
    clip(a + b)
}

/// Saturated fixed-point subtraction.
pub open spec fn fsub_s(a: int, b: int) -> int {
    clip(a - b)
}

/// Saturated fixed-point multiplication: `a * b / SCALE`, truncated.
pub open spec fn fmul_s(a: int, b: int) -> int {
    clip(tdiv(a * b, SCALE as int))
}

/// Saturated fixed-point division: `a * SCALE / b`, truncated; 0 when `b == 0`
/// (degenerate inputs yield a sentinel rather than a failure).
pub open spec fn fdiv_s(a: int, b: int) -> int {
    if b == 0 {
        0
    } else {
        clip(tdiv(a * SCALE, b))
    }
}

/// Fixed-point square root of a fixed-point value: since `a` holds
/// `A * SCALE`, the root `sqrt(A) * SCALE` equals `sqrt(a * SCALE)` in raw
/// units. Negative inputs yield 0.
pub open spec fn fsqrt_s(a: int) -> int {
    if a <= 0 {
        0
    } else {
        clip(sqrt_floor(a * SCALE))
    }
}

/// `sqrt_floor(x)` really is the floor of the square root.
pub proof fn lemma_sqrt_floor_props(x: int)
    requires
        x >= 0,
    ensures
        sqrt_floor(x) >= 0,
        sqrt_floor(x) * sqrt_floor(x) <= x,
        x < (sqrt_floor(x) + 1) * (sqrt_floor(x) + 1),
    decreases x,
{
    if x > 0 {
        lemma_sqrt_floor_props(x - 1);
        let r = sqrt_floor(x - 1);
        if (r + 1) * (r + 1) <= x {
            assert(x == (r + 1) * (r + 1));
            assert((r + 1) * (r + 1) < (r + 2) * (r + 2)) by (nonlinear_arith)
                requires
                    r >= 0,
            ;
        }
    }
}

/// The floor square root is characterized by its two bracketing bounds.
pub proof fn lemma_sqrt_floor_unique(x: int, r: int)
    requires
        x >= 0,
        r >= 0,
        r * r <= x,
        x < (r + 1) * (r + 1),
    ensures
        r == sqrt_floor(x),
{
    let s = sqrt_floor(x);
    lemma_sqrt_floor_props(x);
    if r < s {
        assert((r + 1) * (r + 1) <= s * s) by (nonlinear_arith)
            requires
                0 <= r,
                r + 1 <= s,
        ;
    }
    if r > s {
        assert((s + 1) * (s + 1) <= r * r) by (nonlinear_arith)
            requires
                0 <= s,
                s + 1 <= r,
        ;
    }
}

/// An upper bound on a square bounds the root.
pub proof fn lemma_sqrt_floor_le(x: int, b: int)
    requires
        0 <= x,
        0 <= b,
        x <= b * b,
    ensures
        sqrt_floor(x) <= b,
{
    let s = sqrt_floor(x);
    lemma_sqrt_floor_props(x);
    if s > b {
        assert(b * b < s * s) by (nonlinear_arith)
            requires
                0 <= b,
                b + 1 <= s,
        ;
    }
}

/// A lower bound on a square bounds the root from below.
pub proof fn lemma_sqrt_floor_ge(x: int, a: int)
    requires
        0 <= a,
        a * a <= x,
    ensures
        a <= sqrt_floor(x),
{
    let s = sqrt_floor(x);
    lemma_sqrt_floor_props(x);
    if a > s {
        assert((s + 1) * (s + 1) <= a * a) by (nonlinear_arith)
            requires
                0 <= s,
                s + 1 <= a,
        ;
    }
}

/// Division of a bounded non-negative value stays bounded.
pub proof fn lemma_div_le(x: int, b: int, c: int)
    requires
        0 <= x,
        1 <= b,
        0 <= c,
        x <= b * c,
    ensures
        x / b <= c,
{
    lemma_div_is_ordered(x, b * c, b);
    lemma_div_multiples_vanish(c, b);
}

/// Exact wide product of two scalars; `i128` always has room for it.
fn wide_mul(a: i64, b: i64) -> (r: i128)
    ensures
        r as int == (a as int) * (b as int),
        -(0x40000000000000000000000000000000int) <= r as int
            <= 0x40000000000000000000000000000000int,
{
    proof {
        assert(-(0x40000000000000000000000000000000int) <= (a as int) * (b as int)
            <= 0x40000000000000000000000000000000int) by (nonlinear_arith)
            requires
                sabs(a as int) <= 0x8000000000000000int,
                sabs(b as int) <= 0x8000000000000000int,
        ;
    }
    (a as i128) * (b as i128)
}

/// Saturate an intermediate wide value back into the scalar range.
pub fn fx_clip(v: i128) -> (r: i64)
    ensures
        r as int == clip(v as int),
{
    if v > FX_MAX as i128 {
        FX_MAX
    } else if v < -(FX_MAX as i128) {
        -FX_MAX
    } else {
        v as i64
    }
}

/// Wide division truncated toward zero, matching `tdiv`.
fn tdiv_i128(a: i128, b: i128) -> (r: i128)
    requires
        b > 0,
        i128::MIN < a,
    ensures
        r as int == tdiv(a as int, b as int),
        sabs(r as int) == sabs(a as int) / (b as int),
{
    if a >= 0 {
        let q = (a as u128) / (b as u128);
        q as i128
    } else {
        let m = (-a) as u128;
        let q = m / (b as u128);
        -(q as i128)
    }
}

/// Saturated fixed-point addition.
pub fn fx_add(a: i64, b: i64) -> (r: i64)
    requires
        fx_ok(a as int),
        fx_ok(b as int),
    ensures
        r as int == fadd_s(a as int, b as int),
        fx_ok(r as int),
{
    fx_clip((a as i128) + (b as i128))
}

/// Saturated fixed-point subtraction.
pub fn fx_sub(a: i64, b: i64) -> (r: i64)
    requires
        fx_ok(a as int),
        fx_ok(b as int),
    ensures
        r as int == fsub_s(a as int, b as int),
        fx_ok(r as int),
{
    fx_clip((a as i128) - (b as i128))
}

/// Saturated fixed-point multiplication.
pub fn fx_mul(a: i64, b: i64) -> (r: i64)
    requires
        fx_ok(a as int),
        fx_ok(b as int),
    ensures
        r as int == fmul_s(a as int, b as int),
        fx_ok(r as int),
{
    fx_clip(tdiv_i128(wide_mul(a, b), SCALE as i128))
}

/// Saturated fixed-point division; requires a non-zero divisor (callers guard
/// the degenerate case, which `fdiv_s` maps to 0).
pub fn fx_div(a: i64, b: i64) -> (r: i64)
    requires
        fx_ok(a as int),
        fx_ok(b as int),
        b != 0,
    ensures
        r as int == fdiv_s(a as int, b as int),
        fx_ok(r as int),
{
    let wa = wide_mul(a, SCALE);
    if b > 0 {
        fx_clip(tdiv_i128(wa, b as i128))
    } else {
        assert(tdiv(-(wa as int), -(b as int)) == tdiv(wa as int, b as int));
        fx_clip(tdiv_i128(-wa, -(b as i128)))
    }
}

/// Floor square root of a wide non-negative value, by bisection.
fn isqrt_u128(x: u128) -> (r: u128)
    ensures
        r * r <= x < (r + 1) * (r + 1),
        r as int == sqrt_floor(x as int),
        r < 0x10000000000000000u128,
{
    let mut lo: u128 = 0;
    let mut hi: u128 = 0x10000000000000000;
    assert(x < hi * hi) by (nonlinear_arith)
        requires
            hi == 0x10000000000000000u128,
            x <= 0xffffffffffffffffffffffffffffffffu128,
    ;
    while hi - lo > 1
        invariant
            lo < hi <= 0x10000000000000000u128,
            lo * lo <= x,
            x < hi * hi,
        decreases hi - lo,
    {
        let mid = lo + (hi - lo) / 2;
        assert(lo < mid < hi);
        assert(mid * mid <= 0xffffffffffffffffffffffffffffffffu128) by (nonlinear_arith)
            requires
                mid < 0x10000000000000000u128,
        ;
        if mid * mid <= x {
            lo = mid;
        } else {
            hi = mid;
        }
    }
    proof {
        lemma_sqrt_floor_unique(x as int, lo as int);
    }
    lo
}

/// Saturated fixed-point square root (`fsqrt_s`).
pub fn fx_sqrt(a: i64) -> (r: i64)
    requires
        fx_ok(a as int),
    ensures
        r as int == fsqrt_s(a as int),
        fx_ok(r as int),
        r >= 0,
{
    if a <= 0 {
        0
    } else {
        let w = (a as u128) * (SCALE as u128);
        let s = isqrt_u128(w);
        fx_clip(s as i128)
    }
}

/// A 2D fixed-point vector; it stands for both points and direction vectors.
#[derive(Clone, Copy, Debug, PartialEq, Eq, Structural)]
pub struct Vec2 {
    pub x: i64,
    pub y: i64,
}

/// Mathematical model of a [`Vec2`]: the same two coordinates as unbounded
/// integers.
pub struct Vec2Model {
    pub x: int,
    pub y: int,
}

impl View for Vec2 {
    type V = Vec2Model;

    open spec fn view(&self) -> Vec2Model {
        Vec2Model { x: self.x as int, y: self.y as int }
    }
}

impl Vec2Model {
    /// Both coordinates lie in the saturated scalar range.
    pub open spec fn ok(self) -> bool {
        fx_ok(self.x) && fx_ok(self.y)
    }
}

/// The zero vector.
pub open spec fn vzero_s() -> Vec2Model {
    Vec2Model { x: 0, y: 0 }
}

/// Componentwise saturated sum.
pub open spec fn vadd_s(a: Vec2Model, b: Vec2Model) -> Vec2Model {
    Vec2Model { x: fadd_s(a.x, b.x), y: fadd_s(a.y, b.y) }
}

/// Componentwise saturated difference.
pub open spec fn vsub_s(a: Vec2Model, b: Vec2Model) -> Vec2Model {
    Vec2Model { x: fsub_s(a.x, b.x), y: fsub_s(a.y, b.y) }
}

/// Vector scaled by a fixed-point scalar.
pub open spec fn vscale_s(a: Vec2Model, s: int) -> Vec2Model {
    Vec2Model { x: fmul_s(a.x, s), y: fmul_s(a.y, s) }
}

/// Fixed-point dot product.
pub open spec fn dot_s(a: Vec2Model, b: Vec2Model) -> int {
    clip(tdiv(a.x * b.x + a.y * b.y, SCALE as int))
}

/// Magnitude: `sqrt(x^2 + y^2)` needs no rescaling, raw units square to
/// `SCALE^2` times the real squares.
pub open spec fn mag_s(a: Vec2Model) -> int {
    clip(sqrt_floor(a.x * a.x + a.y * a.y))
}

/// Floor-normalized unit vector (scaled by `SCALE`); zero stays zero.
pub open spec fn vnorm_s(a: Vec2Model) -> Vec2Model {
    Vec2Model { x: fdiv_s(a.x, mag_s(a)), y: fdiv_s(a.y, mag_s(a)) }
}

impl Vec2 {
    /// Build a vector from raw fixed-point coordinates.
    pub fn new(x: i64, y: i64) -> (r: Vec2)
        ensures
            r@ == (Vec2Model { x: x as int, y: y as int }),
    {
        Vec2 { x, y }
    }

    /// Componentwise saturated sum.
    pub fn add(self, o: Vec2) -> (r: Vec2)
        requires
            self@.ok(),
            o@.ok(),
        ensures
            r@ == vadd_s(self@, o@),
            r@.ok(),
    {
        Vec2 { x: fx_add(self.x, o.x), y: fx_add(self.y, o.y) }
    }

    /// Componentwise saturated difference.
    pub fn sub(self, o: Vec2) -> (r: Vec2)
        requires
            self@.ok(),
            o@.ok(),
        ensures
            r@ == vsub_s(self@, o@),
            r@.ok(),
    {
        Vec2 { x: fx_sub(self.x, o.x), y: fx_sub(self.y, o.y) }
    }

    /// Vector scaled by a fixed-point scalar.
    pub fn scale(self, s: i64) -> (r: Vec2)
        requires
            self@.ok(),
            fx_ok(s as int),
        ensures
            r@ == vscale_s(self@, s as int),
            r@.ok(),
    {
        Vec2 { x: fx_mul(self.x, s), y: fx_mul(self.y, s) }
    }

    /// Fixed-point dot product.
    pub fn dot(self, o: Vec2) -> (r: i64)
        requires
            self@.ok(),
            o@.ok(),
        ensures
            r as int == dot_s(self@, o@),
            fx_ok(r as int),
    {
        let px = wide_mul(self.x, o.x);
        let py = wide_mul(self.y, o.y);
        assert(-(0x2000000000000000000000000000000int) < (px as int) + (py as int)
            < 0x2000000000000000000000000000000int) by (nonlinear_arith)
            requires
                sabs(self.x as int) <= FX_MAX as int,
                sabs(self.y as int) <= FX_MAX as int,
                sabs(o.x as int) <= FX_MAX as int,
                sabs(o.y as int) <= FX_MAX as int,
                px as int == (self.x as int) * (o.x as int),
                py as int == (self.y as int) * (o.y as int),
        ;
        fx_clip(tdiv_i128(px + py, SCALE as i128))
    }

    /// Whether both components are exactly zero.
    pub fn is_zero(self) -> (r: bool)
        ensures
            r == (self@ == vzero_s()),
    {
        self.x == 0 && self.y == 0
    }

    /// Floor-normalized direction (length `SCALE` up to rounding); the zero
    /// vector stays zero, matching `vnorm_s`.
    pub fn normalize(self) -> (r: Vec2)
        requires
            self@.ok(),
        ensures
            r@ == vnorm_s(self@),
            r@.ok(),
    {
        let m = calc_magnitude(self);
        if m == 0 {
            Vec2 { x: 0, y: 0 }
        } else {
            Vec2 { x: fx_div(self.x, m), y: fx_div(self.y, m) }
        }
    }

}

/// The magnitude dominates each component's magnitude.
pub proof fn lemma_mag_ge_component(v: Vec2Model)
    requires
        v.ok(),
    ensures
        mag_s(v) >= sabs(v.x),
        mag_s(v) >= sabs(v.y),
        mag_s(v) >= 0,
{
    let q = v.x * v.x + v.y * v.y;
    assert(sabs(v.x) * sabs(v.x) <= v.x * v.x + v.y * v.y && sabs(v.y) * sabs(v.y) <= v.x * v.x
        + v.y * v.y && v.x * v.x + v.y * v.y >= 0) by (nonlinear_arith);
    lemma_sqrt_floor_ge(q, sabs(v.x));
    lemma_sqrt_floor_ge(q, sabs(v.y));
}

/// Each component of a floor-normalized vector is at most `SCALE` in
/// magnitude.
pub proof fn lemma_norm_component_bound(v: Vec2Model)
    requires
        v.ok(),
    ensures
        sabs(vnorm_s(v).x) <= SCALE as int,
        sabs(vnorm_s(v).y) <= SCALE as int,
{
    let m = mag_s(v);
    lemma_mag_ge_component(v);
    if m != 0 {
        assert(sabs(v.x * SCALE) == sabs(v.x) * SCALE && sabs(v.y * SCALE) == sabs(v.y) * SCALE)
            by (nonlinear_arith);
        assert(sabs(v.x) * SCALE <= m * SCALE && sabs(v.y) * SCALE <= m * SCALE)
            by (nonlinear_arith)
            requires
                sabs(v.x) <= m,
                sabs(v.y) <= m,
        ;
        lemma_div_le(sabs(v.x) * SCALE, m, SCALE as int);
        lemma_div_le(sabs(v.y) * SCALE, m, SCALE as int);
    }
}

/// A bound on both factors bounds a saturated fixed-point product.
pub proof fn lemma_fmul_s_bound(x: int, y: int, bx: int, by: int)
    requires
        sabs(x) <= bx,
        sabs(y) <= by,
    ensures
        sabs(fmul_s(x, y)) <= (bx * by) / (SCALE as int),
{
    assert(sabs(x * y) <= bx * by) by (nonlinear_arith)
        requires
            sabs(x) <= bx,
            sabs(y) <= by,
    ;
    lemma_div_is_ordered(sabs(x * y), bx * by, SCALE as int);
}

/// A bound on both vectors' components bounds a saturated dot product.
pub proof fn lemma_dot_s_bound(a: Vec2Model, b: Vec2Model, ba: int, bb: int)
    requires
        sabs(a.x) <= ba,
        sabs(a.y) <= ba,
        sabs(b.x) <= bb,
        sabs(b.y) <= bb,
    ensures
        sabs(dot_s(a, b)) <= (2 * ba * bb) / (SCALE as int),
{
    assert(sabs(a.x * b.x + a.y * b.y) <= 2 * ba * bb) by (nonlinear_arith)
        requires
            sabs(a.x) <= ba,
            sabs(a.y) <= ba,
            sabs(b.x) <= bb,
            sabs(b.y) <= bb,
    ;
    lemma_div_is_ordered(sabs(a.x * b.x + a.y * b.y), 2 * ba * bb, SCALE as int);
}

/// A non-zero vector has a positive magnitude.
pub proof fn lemma_mag_pos(v: Vec2Model)
    requires
        v.ok(),
        v != (Vec2Model { x: 0, y: 0 }),
    ensures
        1 <= mag_s(v) <= FX_MAX as int,
{
    assert(1 <= v.x * v.x + v.y * v.y) by (nonlinear_arith)
        requires
            v.x != 0 || v.y != 0,
    ;
    lemma_sqrt_floor_ge(v.x * v.x + v.y * v.y, 1);
}

/// Magnitude (length) of a vector in raw fixed-point units.
pub fn calc_magnitude(vector: Vec2) -> (r: i64)
    requires
        vector@.ok(),
    ensures
        r as int == mag_s(vector@),
        fx_ok(r as int),
        r >= 0,
{
    let px = wide_mul(vector.x, vector.x);
    let py = wide_mul(vector.y, vector.y);
    assert(0 <= (px as int) + (py as int) < 0x2000000000000000000000000000000int)
        by (nonlinear_arith)
        requires
            sabs(vector.x as int) <= FX_MAX as int,
            sabs(vector.y as int) <= FX_MAX as int,
            px as int == (vector.x as int) * (vector.x as int),
            py as int == (vector.y as int) * (vector.y as int),
    ;
    let s = isqrt_u128((px + py) as u128);
    fx_clip(s as i128)
}

} // verus!
