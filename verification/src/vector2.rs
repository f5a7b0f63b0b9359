//! Two-dimensional fixed-point vectors.

use vstd::prelude::*;
use crate::fixed::{
    clip, clip128, clip64, fmul, fp_mul, is_sqrt_floor, isqrt128, lemma_mul_magnitude,
    lemma_sqrt_floor_unique, lemma_square_nonneg, lemma_tdiv_magnitude, lemma_tdiv_multiple,
    sqrt_floor, tdiv, tdiv128, FP_LIMIT, FP_SCALE,
};
use crate::rng::rng_range;

verus! {

#[derive(Clone, Copy, Debug, Default, PartialEq, Eq, Structural)]
pub struct Vector2 {
    pub x: i64,
    pub y: i64,
}

/// Unscaled dot product (fixed-point scale squared).
pub open spec fn dot_raw(a: Vector2, b: Vector2) -> int {
    a.x * b.x + a.y * b.y
}

/// Unscaled squared length.
pub open spec fn norm_sq(v: Vector2) -> int {
    dot_raw(v, v)
}

/// Unscaled squared distance between two points.
pub open spec fn dist_sq(a: Vector2, b: Vector2) -> int {
    (a.x - b.x) * (a.x - b.x) + (a.y - b.y) * (a.y - b.y)
}

/// Clamped vector from unbounded component values.
pub open spec fn vclip(x: int, y: int) -> Vector2 {
    Vector2 { x: clip64(x), y: clip64(y) }
}

/// Both components within the representable magnitude cap.
pub open spec fn in_range(v: Vector2) -> bool {
    -FP_LIMIT <= v.x <= FP_LIMIT && -FP_LIMIT <= v.y <= FP_LIMIT
}

/// X component of the unit vector along `(dx, dy)`: `dx` rescaled by the
/// rounded-down length.
pub open spec fn unit_x(dx: int, dy: int) -> int {
    tdiv(dx * FP_SCALE, sqrt_floor(dx * dx + dy * dy))
}

pub open spec fn unit_y(dx: int, dy: int) -> int {
    tdiv(dy * FP_SCALE, sqrt_floor(dx * dx + dy * dy))
}

impl Vector2 {
    pub fn new(x: i64, y: i64) -> (v: Vector2)
        ensures
            v == (Vector2 { x, y }),
    {
        Vector2 { x, y }
    }

    pub fn zero() -> (v: Vector2)
        ensures
            v == (Vector2 { x: 0i64, y: 0i64 }),
    {
        Vector2 { x: 0, y: 0 }
    }

    /// Component-wise clamped sum.
    pub fn add(self, other: Vector2) -> (r: Vector2)
        ensures
            r.x as int == clip(self.x + other.x),
            r.y as int == clip(self.y + other.y),
    {
        Vector2 { x: clip128(self.x as i128 + other.x as i128), y: clip128(
            self.y as i128 + other.y as i128,
        ) }
    }

    /// Component-wise clamped difference.
    pub fn sub(self, other: Vector2) -> (r: Vector2)
        ensures
            r.x as int == clip(self.x - other.x),
            r.y as int == clip(self.y - other.y),
    {
        Vector2 { x: clip128(self.x as i128 - other.x as i128), y: clip128(
            self.y as i128 - other.y as i128,
        ) }
    }

    pub fn neg(self) -> (r: Vector2)
        ensures
            r.x as int == clip(-self.x),
            r.y as int == clip(-self.y),
    {
        Vector2 { x: clip128(-(self.x as i128)), y: clip128(-(self.y as i128)) }
    }

    /// Scale by a fixed-point factor.
    pub fn scale(self, k: i64) -> (r: Vector2)
        ensures
            r.x as int == fmul(self.x as int, k as int),
            r.y as int == fmul(self.y as int, k as int),
    {
        Vector2 { x: fp_mul(self.x, k), y: fp_mul(self.y, k) }
    }

    /// Length of the vector, rounded down to the fixed-point grid.
    pub fn length(self) -> (r: i64)
        requires
            in_range(self),
        ensures
            r as int == sqrt_floor(norm_sq(self)),
            0 <= r <= 2 * FP_LIMIT,
    {
        proof {
            lemma_mul_magnitude(self.x as int, self.x as int, 0x20_0000_0000_0000, 0x20_0000_0000_0000);
            lemma_mul_magnitude(self.y as int, self.y as int, 0x20_0000_0000_0000, 0x20_0000_0000_0000);
            lemma_square_nonneg(self.x as int);
            lemma_square_nonneg(self.y as int);
        }
        let sq: u128 = ((self.x as i128) * (self.x as i128) + (self.y as i128) * (self.y
            as i128)) as u128;
        let r: u128 = isqrt128(sq);
        proof {
            let rr = r as int;
            assert(rr <= 0x40_0000_0000_0000int) by (nonlinear_arith)
                requires
                    0 <= rr,
                    rr * rr <= sq as int,
                    sq as int <= 0x800_0000_0000_0000_0000_0000_0000int,
            ;
        }
        r as i64
    }

    /// Squared length on the fixed-point scale (clamped).
    pub fn length_squared(self) -> (r: i64)
        requires
            in_range(self),
        ensures
            r as int == clip(tdiv(norm_sq(self), FP_SCALE as int)),
    {
        proof {
            lemma_mul_magnitude(self.x as int, self.x as int, 0x20_0000_0000_0000, 0x20_0000_0000_0000);
            lemma_mul_magnitude(self.y as int, self.y as int, 0x20_0000_0000_0000, 0x20_0000_0000_0000);
        }
        let sq: i128 = (self.x as i128) * (self.x as i128) + (self.y as i128) * (self.y as i128);
        clip128(tdiv128(sq, FP_SCALE as i128))
    }

    /// The unit vector with this direction.  The zero vector has no
    /// direction, so the caller must rule it out.
    pub fn normalized(self) -> (r: Vector2)
        requires
            in_range(self),
            self.x != 0 || self.y != 0,
        ensures
            r.x as int == unit_x(self.x as int, self.y as int),
            r.y as int == unit_y(self.x as int, self.y as int),
            -FP_SCALE <= r.x <= FP_SCALE,
            -FP_SCALE <= r.y <= FP_SCALE,
    {
        unit_toward(self.x, self.y)
    }

    /// Mirror across the plane with unit normal `n`:
    /// `v - 2 (v . n) n`, on the fixed-point grid.
    pub fn reflect(self, n: Vector2) -> (r: Vector2)
        requires
            in_range(self),
            -FP_SCALE <= n.x <= FP_SCALE,
            -FP_SCALE <= n.y <= FP_SCALE,
        ensures
            r.x as int == clip(self.x - tdiv(2 * tdiv(dot_raw(self, n), FP_SCALE as int) * n.x, FP_SCALE as int)),
            r.y as int == clip(self.y - tdiv(2 * tdiv(dot_raw(self, n), FP_SCALE as int) * n.y, FP_SCALE as int)),
    {
        proof {
            lemma_mul_magnitude(self.x as int, n.x as int, 0x20_0000_0000_0000, 100_000_000);
            lemma_mul_magnitude(self.y as int, n.y as int, 0x20_0000_0000_0000, 100_000_000);
        }
        let d: i128 = (self.x as i128) * (n.x as i128) + (self.y as i128) * (n.y as i128);
        let k: i128 = tdiv128(d, FP_SCALE as i128);
        proof {
            lemma_mul_magnitude(2 * k as int, n.x as int, 3_602_879_701_896_396_800_000_000, 100_000_000);
            lemma_mul_magnitude(2 * k as int, n.y as int, 3_602_879_701_896_396_800_000_000, 100_000_000);
        }
        let tx: i128 = tdiv128(2 * k * (n.x as i128), FP_SCALE as i128);
        let ty: i128 = tdiv128(2 * k * (n.y as i128), FP_SCALE as i128);
        Vector2 { x: clip128(self.x as i128 - tx), y: clip128(self.y as i128 - ty) }
    }

    /// Linear interpolation from `origin` to `target` at parameter `t`
    /// (fixed-point, 0 = origin, FP_SCALE = target).
    pub fn lerp(origin: Vector2, target: Vector2, t: i64) -> (r: Vector2)
        requires
            in_range(origin),
            in_range(target),
        ensures
            r.x as int == clip(origin.x + tdiv((target.x - origin.x) * t, FP_SCALE as int)),
            r.y as int == clip(origin.y + tdiv((target.y - origin.y) * t, FP_SCALE as int)),
    {
        proof {
            lemma_mul_magnitude(target.x - origin.x, t as int, 0x40_0000_0000_0000, 0x8000_0000_0000_0000);
            lemma_mul_magnitude(target.y - origin.y, t as int, 0x40_0000_0000_0000, 0x8000_0000_0000_0000);
        }
        let dx: i128 = tdiv128(
            (target.x as i128 - origin.x as i128) * (t as i128),
            FP_SCALE as i128,
        );
        let dy: i128 = tdiv128(
            (target.y as i128 - origin.y as i128) * (t as i128),
            FP_SCALE as i128,
        );
        Vector2 { x: clip128(origin.x as i128 + dx), y: clip128(origin.y as i128 + dy) }
    }

    /// Uniform sample with both components in `[lo, hi)`.
    pub fn random_in_square(rng: &mut rand_pcg::Pcg64Mcg, lo: i64, hi: i64) -> (v: Vector2)
        requires
            lo < hi,
        ensures
            lo <= v.x < hi,
            lo <= v.y < hi,
    {
        Vector2 { x: rng_range(rng, lo, hi), y: rng_range(rng, lo, hi) }
    }

    /// Uniform sample in the axis-aligned box given by the two ranges.
    pub fn random_in_rectangle(
        rng: &mut rand_pcg::Pcg64Mcg,
        x_lo: i64,
        x_hi: i64,
        y_lo: i64,
        y_hi: i64,
    ) -> (v: Vector2)
        requires
            x_lo < x_hi,
            y_lo < y_hi,
        ensures
            x_lo <= v.x < x_hi,
            y_lo <= v.y < y_hi,
    {
        Vector2 { x: rng_range(rng, x_lo, x_hi), y: rng_range(rng, y_lo, y_hi) }
    }

    /// Uniform sample in the box `[min, max)`, corners given as vectors.
    pub fn random_min_max(rng: &mut rand_pcg::Pcg64Mcg, min: Vector2, max: Vector2) -> (v: Vector2)
        requires
            min.x < max.x,
            min.y < max.y,
        ensures
            min.x <= v.x < max.x,
            min.y <= v.y < max.y,
    {
        Vector2 { x: rng_range(rng, min.x, max.x), y: rng_range(rng, min.y, max.y) }
    }

    /// Rejection-sample a point strictly inside the unit disk.  The
    /// attempt budget makes the loop terminate; on exhaustion the origin
    /// (inside the disk) is returned.
    pub fn random_in_disk(rng: &mut rand_pcg::Pcg64Mcg) -> (v: Vector2)
        ensures
            norm_sq(v) < FP_SCALE * FP_SCALE,
            -FP_SCALE < v.x < FP_SCALE,
            -FP_SCALE < v.y < FP_SCALE,
    {
        let mut attempts: u32 = 0;
        while attempts < 64
            invariant
                true,
            decreases 64 - attempts,
        {
            let x = rng_range(rng, -FP_SCALE + 1, FP_SCALE);
            let y = rng_range(rng, -FP_SCALE + 1, FP_SCALE);
            proof {
                lemma_mul_magnitude(x as int, x as int, FP_SCALE as int, FP_SCALE as int);
                lemma_mul_magnitude(y as int, y as int, FP_SCALE as int, FP_SCALE as int);
            }
            let nsq: i128 = (x as i128) * (x as i128) + (y as i128) * (y as i128);
            if nsq < (FP_SCALE as i128) * (FP_SCALE as i128) {
                return Vector2 { x, y };
            }
            attempts = attempts + 1;
        }
        Vector2 { x: 0, y: 0 }
    }

    /// A random velocity: a uniform unit-disk sample scaled by
    /// `speed`, so the result's magnitude never exceeds `speed`.
    pub fn random_in_disk_scaled(rng: &mut rand_pcg::Pcg64Mcg, speed: i64) -> (v: Vector2)
        requires
            0 <= speed <= FP_LIMIT,
        ensures
            norm_sq(v) <= speed * speed,
            -speed <= v.x <= speed,
            -speed <= v.y <= speed,
    {
        let d = Vector2::random_in_disk(rng);
        let r = d.scale(speed);
        proof {
            lemma_scale_within(d.x as int, speed as int);
            lemma_scale_within(d.y as int, speed as int);
            let f2 = FP_SCALE as int * FP_SCALE as int;
            assert((r.x * r.x + r.y * r.y) * f2 <= (d.x * d.x + d.y * d.y) * (speed * speed))
                by (nonlinear_arith)
                requires
                    r.x * r.x * f2 <= (d.x * d.x) * (speed * speed),
                    r.y * r.y * f2 <= (d.y * d.y) * (speed * speed),
            ;
            assert((d.x * d.x + d.y * d.y) * (speed * speed) <= (f2 - 1) * (speed * speed))
                by (nonlinear_arith)
                requires
                    d.x * d.x + d.y * d.y <= f2 - 1,
                    0 <= speed,
            ;
            assert(r.x * r.x + r.y * r.y <= speed * speed) by (nonlinear_arith)
                requires
                    (r.x * r.x + r.y * r.y) * f2 <= (f2 - 1) * (speed * speed),
                    f2 == 10_000_000_000_000_000int,
                    0 <= speed,
            ;
        }
        r
    }
}

/// Scaling a component strictly inside one unit by a nonnegative
/// fixed-point factor keeps its magnitude within the factor, and its
/// square (times the scale squared) within the original square times
/// the factor squared.
proof fn lemma_scale_within(a: int, s: int)
    requires
        -(FP_SCALE - 1) <= a <= FP_SCALE - 1,
        0 <= s <= FP_LIMIT,
    ensures
        -s <= fmul(a, s) <= s,
        fmul(a, s) * fmul(a, s) * (FP_SCALE as int * FP_SCALE as int) <= (a * a) * (s * s),
{
    let f = FP_SCALE as int;
    let x = a * s;
    lemma_mul_magnitude(a, s, f - 1, s);
    let t = tdiv(x, f);
    lemma_tdiv_magnitude(x, (f - 1) * s, f);
    assert((f - 1) * s <= f * s) by (nonlinear_arith)
        requires
            0 <= s,
    ;
    vstd::arithmetic::div_mod::lemma_div_is_ordered((f - 1) * s, f * s, f);
    vstd::arithmetic::div_mod::lemma_div_multiples_vanish(s, f);
    assert(-s <= t <= s);
    assert(fmul(a, s) == t);
    if x >= 0 {
        vstd::arithmetic::div_mod::lemma_fundamental_div_mod(x, f);
        vstd::arithmetic::div_mod::lemma_mod_bound(x, f);
        assert(t * f <= x) by (nonlinear_arith)
            requires
                x == f * t + x % f,
                x % f >= 0,
        ;
        assert(0 <= t);
        assert(t * t * (f * f) <= x * x) by (nonlinear_arith)
            requires
                0 <= t,
                0 <= f,
                t * f <= x,
        ;
    } else {
        vstd::arithmetic::div_mod::lemma_fundamental_div_mod(-x, f);
        vstd::arithmetic::div_mod::lemma_mod_bound(-x, f);
        assert((-t) * f <= -x) by (nonlinear_arith)
            requires
                -x == f * (-t) + (-x) % f,
                (-x) % f >= 0,
        ;
        assert(t <= 0);
        assert(t * t * (f * f) <= x * x) by (nonlinear_arith)
            requires
                t <= 0,
                0 <= f,
                (-t) * f <= -x,
        ;
    }
    assert(x * x == (a * a) * (s * s)) by (nonlinear_arith)
        requires
            x == a * s,
    ;
}

/// Unit vector pointing along the displacement `(dx, dy)`.
pub fn unit_toward(dx: i64, dy: i64) -> (r: Vector2)
    requires
        -2 * FP_LIMIT <= dx <= 2 * FP_LIMIT,
        -2 * FP_LIMIT <= dy <= 2 * FP_LIMIT,
        dx != 0 || dy != 0,
    ensures
        r.x as int == unit_x(dx as int, dy as int),
        r.y as int == unit_y(dx as int, dy as int),
        -FP_SCALE <= r.x <= FP_SCALE,
        -FP_SCALE <= r.y <= FP_SCALE,
{
    proof {
        lemma_mul_magnitude(dx as int, dx as int, 0x40_0000_0000_0000, 0x40_0000_0000_0000);
        lemma_mul_magnitude(dy as int, dy as int, 0x40_0000_0000_0000, 0x40_0000_0000_0000);
        lemma_square_nonneg(dx as int);
        lemma_square_nonneg(dy as int);
        assert(dx * dx + dy * dy >= 1) by (nonlinear_arith)
            requires
                dx != 0 || dy != 0,
        ;
    }
    let sq: u128 = ((dx as i128) * (dx as i128) + (dy as i128) * (dy as i128)) as u128;
    let d: u128 = isqrt128(sq);
    proof {
        assert(sq as int >= 1);
        assert(d as int >= 1) by (nonlinear_arith)
            requires
                0 <= d as int,
                (sq as int) < (d as int + 1) * (d as int + 1),
                sq as int >= 1,
        ;
        lemma_component_within_sqrt(dx as int, dy as int, d as int);
        assert(is_sqrt_floor(dy as int * dy as int + dx as int * dx as int, d as int));
        lemma_component_within_sqrt(dy as int, dx as int, d as int);
        lemma_sqrt_floor_unique(dx as int * dx as int + dy as int * dy as int, d as int);
        lemma_mul_magnitude(dx as int, 100_000_000, d as int, 100_000_000);
        lemma_mul_magnitude(dy as int, 100_000_000, d as int, 100_000_000);
        lemma_tdiv_magnitude(dx as int * FP_SCALE, d as int * FP_SCALE, d as int);
        lemma_tdiv_magnitude(dy as int * FP_SCALE, d as int * FP_SCALE, d as int);
        lemma_tdiv_multiple(FP_SCALE as int, d as int);
    }
    let nx: i128 = tdiv128((dx as i128) * (FP_SCALE as i128), d as i128);
    let ny: i128 = tdiv128((dy as i128) * (FP_SCALE as i128), d as i128);
    Vector2 { x: nx as i64, y: ny as i64 }
}

/// Inside an integer square root of a sum of squares, each summand's
/// root is bounded by the root of the sum.
proof fn lemma_component_within_sqrt(a: int, b: int, d: int)
    requires
        is_sqrt_floor(a * a + b * b, d),
    ensures
        -d <= a <= d,
{
    lemma_square_nonneg(b);
    assert(-d <= a <= d) by (nonlinear_arith)
        requires
            0 <= d,
            a * a + b * b < (d + 1) * (d + 1),
            0 <= b * b,
    ;
}

/// Dot product on the fixed-point scale (clamped).
pub fn dot(v1: Vector2, v2: Vector2) -> (r: i64)
    requires
        in_range(v1),
        in_range(v2),
    ensures
        r as int == clip(tdiv(dot_raw(v1, v2), FP_SCALE as int)),
{
    proof {
        lemma_mul_magnitude(v1.x as int, v2.x as int, 0x20_0000_0000_0000, 0x20_0000_0000_0000);
        lemma_mul_magnitude(v1.y as int, v2.y as int, 0x20_0000_0000_0000, 0x20_0000_0000_0000);
    }
    let d: i128 = (v1.x as i128) * (v2.x as i128) + (v1.y as i128) * (v2.y as i128);
    clip128(tdiv128(d, FP_SCALE as i128))
}

} // verus!
