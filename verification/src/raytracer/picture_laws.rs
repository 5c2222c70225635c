//! What is handed to the device: how wide a camera sees, how strong lights are, and how materials
//! glow.

use crate::arith;
use crate::arith::Op;
use crate::double;
use crate::geometry::subdivision_laws;
use crate::math::matrix_laws;
use crate::math::{Vec3, ONE, TWO, ZERO};
use crate::near;
use crate::raytracer::flatten;
use crate::raytracer::flatten::CameraValues;
use crate::raytracer::metal::gpu_scene;
use crate::raytracer::metal::gpu_scene::{PtLightValues, PtMaterialValues};
use crate::rounding;
use vstd::arithmetic::power2::*;
use vstd::prelude::*;

verus! {

/// A whole number as a double is that number.
pub proof fn whole_numbers_are_exact(n: int)
    requires
        0 < n < 0x20_0000_0000_0000,
    ensures
        matrix_laws::is_count(double::dyadic(n, 0), n),
{
    lemma2_to64();
    lemma2_to64_rest();
    let m = n as nat;
    let k = double::leading_bit(m);
    double::leading_bit_bounds(m);
    if k > 52 {
        if k > 53 {
            lemma_pow2_strictly_increases(53, k);
        }
    }
    let s = (52 - k) as nat;
    let p = pow2(s);
    lemma_pow2_pos(s);
    lemma_pow2_adds(k, s);
    lemma_pow2_adds(k + 1, s);
    let x = m * p;
    assert(pow2(k) * p <= x < pow2(k + 1) * p) by (nonlinear_arith)
        requires
            pow2(k) <= m < pow2(k + 1),
            p > 0,
            x == m * p,
    ;
    let b = double::dyadic(n, 0);
    assert(b == (1023 + k) * 0x10_0000_0000_0000 + (x - 0x10_0000_0000_0000));
    assert(double::exponent_field(b) == 1023 + k);
    assert(double::significand(b) == x);
    let up = (1022 + k) as nat;
    lemma_pow2_adds(s, up);
    let q = pow2(up);
    assert((m * p) * q == m * (p * q)) by (nonlinear_arith);
}

// ---- cameras ---------------------------------------------------------------

/// Whether a number is half another, rounded.
pub open spec fn is_half(half: u64, all: u64) -> bool {
    rounding::rounds_to(half, near::exact(all) * rounding::whole(), 2 * rounding::whole())
}

/// Whether a number is one whole number over another, rounded.
pub open spec fn is_ratio(r: u64, a: int, b: int) -> bool {
    rounding::rounds_to(r, (a * rounding::whole()) * rounding::whole(), b * rounding::whole())
}

/// A camera sees, up and down, as far as the tangent of half its angle; and to the sides as much
/// farther as its picture is wider than high.
pub proof fn cameras_see_by_half_their_angle<F: Fn(Op, u64, u64) -> u64>(f: F, c: CameraValues)
    requires
        rounding::is_rounding(f),
        c.width > 0 && c.height > 0,
        double::is_finite(arith::value(f, Op::Radians, c.fov, ZERO)),
        double::is_finite(flatten::half_height_of(f, c)),
        double::is_finite(
            arith::quotient(f, double::dyadic(c.width as int, 0), double::dyadic(c.height as int, 0)),
        ),
    ensures
        exists|half: u64| #[trigger]
            is_half(half, arith::value(f, Op::Radians, c.fov, ZERO)) && flatten::half_height_of(f, c)
                == arith::value(f, Op::Tangent, half, ZERO),
        exists|ratio: u64| #[trigger]
            is_ratio(ratio, c.width as int, c.height as int) && rounding::rounds_to(
                flatten::half_width_of(f, c),
                near::exact(ratio) * near::exact(flatten::half_height_of(f, c)),
                rounding::whole(),
            ),
{
    whole_numbers_are_exact(c.width as int);
    whole_numbers_are_exact(c.height as int);
    let all = arith::value(f, Op::Radians, c.fov, ZERO);
    let half = arith::quotient(f, all, TWO);
    subdivision_laws::constants_are_exact();
    lemma_pow2_pos(1074);
    let (w, h) = (pow2(1074) as int, c.height as int);
    assert(h * w > 0) by (nonlinear_arith)
        requires
            h > 0,
            w > 0,
    ;
    reveal(rounding::is_rounding);
    assert(is_half(half, all));
    let ratio = arith::quotient(
        f,
        double::dyadic(c.width as int, 0),
        double::dyadic(c.height as int, 0),
    );
    assert(is_ratio(ratio, c.width as int, c.height as int));
}

/// A picture that is as wide as high is seen as far to the sides as up and down.
pub proof fn square_pictures_are_seen_square<F: Fn(Op, u64, u64) -> u64>(f: F, c: CameraValues)
    requires
        rounding::is_rounding(f),
        c.width == c.height && c.height > 0,
        double::is_finite(flatten::half_height_of(f, c)),
    ensures
        near::exact(flatten::half_width_of(f, c)) == near::exact(flatten::half_height_of(f, c)),
{
    let n = c.width as int;
    whole_numbers_are_exact(n);
    let d = double::dyadic(n, 0);
    assert(1 * n == n);
    rounding::quotient_of_steps(f, d, 1, 1074, d, n, 1074);
    let one = arith::quotient(f, d, d);
    assert(1 * pow2(1074) == pow2(1074));
    rounding::product_with_one(f, flatten::half_height_of(f, c), one);
}

// ---- lights and materials --------------------------------------------------

/// Whether a colour is another times a number, rounded.
pub open spec fn is_times(r: Vec3, c: Vec3, k: u64) -> bool {
    &&& rounding::rounds_to(r.x, near::exact(c.x) * near::exact(k), rounding::whole())
    &&& rounding::rounds_to(r.y, near::exact(c.y) * near::exact(k), rounding::whole())
    &&& rounding::rounds_to(r.z, near::exact(c.z) * near::exact(k), rounding::whole())
}

/// Whether a colour is the sum of two others, rounded.
pub open spec fn is_sum(r: Vec3, a: Vec3, b: Vec3) -> bool {
    &&& rounding::rounds_to(r.x, near::exact(a.x) + near::exact(b.x), 1)
    &&& rounding::rounds_to(r.y, near::exact(a.y) + near::exact(b.y), 1)
    &&& rounding::rounds_to(r.z, near::exact(a.z) + near::exact(b.z), 1)
}

/// Whether the components of a vector are finite.
pub open spec fn is_vector(v: Vec3) -> bool {
    double::is_finite(v.x) && double::is_finite(v.y) && double::is_finite(v.z)
}

/// A light of any shape shines with its colour times its strength.
pub proof fn lights_shine_with_their_strength<F: Fn(Op, u64, u64) -> u64>(f: F, l: PtLightValues)
    requires
        rounding::is_rounding(f),
        is_vector(l.color) && double::is_finite(l.intensity),
    ensures
        exists|v: Vec3| #[trigger]
            is_times(v, l.color, l.intensity) && gpu_scene::packed_pt_light(f, l).radiance
                == flatten::narrowed3(v),
{
    reveal(rounding::is_rounding);
    let v = arith::vector_multiple(f, l.color, l.intensity);
    assert(is_times(v, l.color, l.intensity));
}

/// A material emits what it glows with and what its light emits, together.
pub proof fn materials_glow_with_both<F: Fn(Op, u64, u64) -> u64>(f: F, m: PtMaterialValues)
    requires
        rounding::is_rounding(f),
        is_vector(m.emission) && is_vector(m.glow),
    ensures
        exists|v: Vec3| #[trigger]
            is_sum(v, m.emission, m.glow) && gpu_scene::packed_pt_material(f, m).emission
                == flatten::narrowed3(v),
{
    reveal(rounding::is_rounding);
    let v = arith::vector_sum(f, m.emission, m.glow);
    assert(is_sum(v, m.emission, m.glow));
}

/// A lobe is as wide as the square of the roughness, where that is neither too narrow nor above
/// one; and the lobes of a material each go by their own roughness.
pub proof fn lobes_are_as_wide_as_rough_squared<F: Fn(Op, u64, u64) -> u64>(f: F, r: u64, k: int)
    requires
        rounding::is_rounding(f),
        rounding::is_step(r, k, 1064),
        8 <= k <= 1024,
    ensures
        rounding::is_step(gpu_scene::lobe_width(f, r), k * k, 1054),
{
    assert(64 <= k * k <= 0x10_0000) by (nonlinear_arith)
        requires
            8 <= k <= 1024,
    ;
    rounding::product_of_steps(f, r, k, 1064, r, k, 1064);
    let p = arith::product(f, r, r);
    rounding::nought_and_one();
    lemma2_to64();
    lemma2_to64_rest();
    lemma_pow2_adds(20, 1054);
    lemma_pow2_pos(1054);
    let w = pow2(1054) as int;
    let n = k * k;
    assert(64 * w <= n * w <= 0x10_0000 * w) by (nonlinear_arith)
        requires
            64 <= n <= 0x10_0000,
            w > 0,
    ;
    rounding::order_tells(ONE, p);
    let least = gpu_scene::LEAST_WIDTH;
    assert(double::exponent_field(least) == 1007);
    assert(double::significand(least) < 0x20_0000_0000_0000);
    lemma_pow2_adds(48, 1006);
    let g = pow2(1006) as int;
    lemma_pow2_pos(1006);
    let s = double::significand(least) as int;
    assert(s * g <= 0x20_0000_0000_0000 * g) by (nonlinear_arith)
        requires
            s <= 0x20_0000_0000_0000,
            g > 0,
    ;
    assert(64 * w == 0x40_0000_0000_0000 * g) by (nonlinear_arith)
        requires
            w == 0x1_0000_0000_0000 * g,
    ;
    assert(double::is_finite(least) && !double::is_negative(least));
    rounding::order_tells(p, least);
}

} // verus!
