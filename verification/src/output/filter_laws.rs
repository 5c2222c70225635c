//! What filters leave of an image: weights that add up, light that comes back with its albedo, and
//! black that stays black.

use crate::arith;
use crate::arith::Op;
use crate::double;
use crate::math::{Vec3, ONE, ZERO};
use crate::near;
use crate::output::denoise;
use crate::output::tonemap;
use crate::output::tonemap::Tonemap;
use crate::rounding;
use vstd::arithmetic::power2::*;
use vstd::prelude::*;

verus! {

// ---- kernels ---------------------------------------------------------------

/// The weights of the kernel are the same on both sides, grow towards the middle, and add up to
/// one.
pub proof fn kernels_add_up_to_one(k: usize)
    requires
        k < 5,
    ensures
        near::exact(denoise::kernel(k)) == near::exact(denoise::kernel((4 - k) as usize)),
        k < 2 ==> near::exact(denoise::kernel(k)) < near::exact(denoise::kernel((k + 1) as usize)),
        near::exact(denoise::kernel(0)) + near::exact(denoise::kernel(1)) + near::exact(
            denoise::kernel(2),
        ) + near::exact(denoise::kernel(3)) + near::exact(denoise::kernel(4)) == rounding::whole(),
{
    lemma2_to64();
    lemma2_to64_rest();
    let p = pow2(1018) as int;
    lemma_pow2_pos(1018);
    lemma_pow2_adds(2, 1018);
    lemma_pow2_adds(56, 1018);
    assert(double::exponent_field(denoise::KERNEL_END) == 1019);
    assert(double::significand(denoise::KERNEL_END) == 0x10_0000_0000_0000);
    assert(double::exponent_field(denoise::KERNEL_SIDE) == 1021);
    assert(double::significand(denoise::KERNEL_SIDE) == 0x10_0000_0000_0000);
    assert(double::exponent_field(denoise::KERNEL_MIDDLE) == 1021);
    assert(double::significand(denoise::KERNEL_MIDDLE) == 0x18_0000_0000_0000);
    assert(near::exact(denoise::KERNEL_END) == 0x10_0000_0000_0000 * p);
    assert(near::exact(denoise::KERNEL_SIDE) == 0x10_0000_0000_0000 * (4 * p));
    assert(near::exact(denoise::KERNEL_MIDDLE) == 0x18_0000_0000_0000 * (4 * p));
}

/// The filter starts with a spread of eight, and each pass has half that of the one before.
pub proof fn spreads_halve(pass: int)
    requires
        0 <= pass < 4,
    ensures
        near::exact(denoise::spread(pass)) == 2 * near::exact(denoise::spread(pass + 1)),
        near::exact(denoise::spread(0)) == 8 * rounding::whole(),
{
    lemma2_to64();
    lemma2_to64_rest();
    let p = pow2(1021) as int;
    lemma_pow2_adds(1, 1021);
    lemma_pow2_adds(2, 1021);
    lemma_pow2_adds(3, 1021);
    lemma_pow2_adds(4, 1021);
    lemma_pow2_adds(53, 1021);
    power_is(0x4020_0000_0000_0000, 1026);
    power_is(0x4010_0000_0000_0000, 1025);
    power_is(0x4000_0000_0000_0000, 1024);
    power_is(0x3ff0_0000_0000_0000, 1023);
    power_is(0x3fe0_0000_0000_0000, 1022);
    assert(near::exact(0x4020_0000_0000_0000) == 0x10_0000_0000_0000 * (16 * p));
    assert(near::exact(0x4010_0000_0000_0000) == 0x10_0000_0000_0000 * (8 * p));
    assert(near::exact(0x4000_0000_0000_0000) == 0x10_0000_0000_0000 * (4 * p));
    assert(near::exact(0x3ff0_0000_0000_0000) == 0x10_0000_0000_0000 * (2 * p));
    assert(near::exact(0x3fe0_0000_0000_0000) == 0x10_0000_0000_0000 * p);
}

proof fn power_is(b: u64, exponent: nat)
    requires
        b < 0x8000_0000_0000_0000,
        b == exponent * 0x10_0000_0000_0000,
        1 <= exponent < 2047,
    ensures
        near::exact(b) == 0x10_0000_0000_0000 * pow2((exponent - 1) as nat),
{
    assert(double::exponent_field(b) == exponent);
    assert(double::significand(b) == 0x10_0000_0000_0000);
}

// ---- albedo ----------------------------------------------------------------

/// Light that is divided by the albedo of a surface, and multiplied with it again, is the same
/// light; what shines is added to it.
pub proof fn light_comes_back_with_its_albedo<F: Fn(Op, u64, u64) -> u64>(
    f: F,
    b: Vec3,
    k: (int, int, int),
    a: Vec3,
    u: (nat, nat, nat),
)
    requires
        rounding::is_rounding(f),
        is_part(b.x, k.0) && is_part(b.y, k.1) && is_part(b.z, k.2),
        is_albedo(a.x, u.0) && is_albedo(a.y, u.1) && is_albedo(a.z, u.2),
    ensures
        ({
            let z = Vec3::of(ZERO, ZERO, ZERO);
            let r = denoise::with_albedo(f, denoise::without_albedo(f, b, a), a, z);
            &&& near::exact(r.x) == near::exact(b.x)
            &&& near::exact(r.y) == near::exact(b.y)
            &&& near::exact(r.z) == near::exact(b.z)
        }),
{
    comes_back(f, b.x, k.0, a.x, u.0);
    comes_back(f, b.y, k.1, a.y, u.1);
    comes_back(f, b.z, k.2, a.z, u.2);
}

/// Whether light is a number of parts of a million, or so.
pub open spec fn is_part(b: u64, k: int) -> bool {
    rounding::is_step(b, k, 1054) && -0x1_0000_0000_0000 < k < 0x1_0000_0000_0000
}

/// Whether an albedo is one, a half, a quarter and so on, and not too dark to be divided by.
pub open spec fn is_albedo(a: u64, u: nat) -> bool {
    rounding::is_step(a, 1, u) && 1060 <= u <= 1074 && double::at_most(denoise::LEAST_ALBEDO, a)
}

proof fn comes_back<F: Fn(Op, u64, u64) -> u64>(f: F, b: u64, k: int, a: u64, u: nat)
    requires
        rounding::is_rounding(f),
        is_part(b, k),
        is_albedo(a, u),
    ensures
        ({
            let l = double::greater(a, denoise::LEAST_ALBEDO);
            near::exact(arith::sum(f, arith::product(f, arith::quotient(f, b, l), l), ZERO))
                == near::exact(b)
        }),
{
    let l = double::greater(a, denoise::LEAST_ALBEDO);
    assert(l == a);
    assert(k * 1 == k);
    rounding::quotient_of_steps(f, b, k, 1054, a, 1, u);
    let q = arith::quotient(f, b, a);
    let v = (1054 + 1074 - u) as nat;
    rounding::product_of_steps(f, q, k, v, a, 1, u);
    rounding::nought_and_one();
    rounding::sum_with_nought(f, arith::product(f, q, a), ZERO);
}

// ---- display ---------------------------------------------------------------

/// Black stays black on every display.
pub proof fn black_stays_black<F: Fn(Op, u64, u64) -> u64>(f: F, t: Tonemap)
    requires
        rounding::is_rounding(f),
    ensures
        rounding::is_nought(tonemap::toned(f, t, ZERO)),
{
    rounding::nought_and_one();
    nothing_is_encoded(f, ZERO);
    assert(double::is_finite(tonemap::FIT_A) && double::is_finite(tonemap::FIT_B));
    assert(double::is_finite(tonemap::FIT_C) && double::is_finite(tonemap::FIT_D));
    assert(double::is_finite(tonemap::FIT_E) && double::below(ZERO, tonemap::FIT_E));
    rounding::product_with_nought(f, tonemap::FIT_A, ZERO);
    rounding::product_with_nought(f, tonemap::FIT_C, ZERO);
    let (a, c) = (
        arith::product(f, tonemap::FIT_A, ZERO),
        arith::product(f, tonemap::FIT_C, ZERO),
    );
    rounding::sum_with_nought(f, tonemap::FIT_B, a);
    rounding::sum_with_nought(f, tonemap::FIT_D, c);
    let (b, d) = (arith::sum(f, a, tonemap::FIT_B), arith::sum(f, c, tonemap::FIT_D));
    rounding::product_with_nought(f, b, ZERO);
    rounding::product_with_nought(f, d, ZERO);
    let (p, q) = (arith::product(f, ZERO, b), arith::product(f, ZERO, d));
    rounding::sum_with_nought(f, tonemap::FIT_E, q);
    let e = arith::sum(f, q, tonemap::FIT_E);
    rounding::order_tells(ZERO, tonemap::FIT_E);
    rounding::order_tells(ZERO, e);
    rounding::quotient_of_nought(f, p, e);
    let r = arith::quotient(f, p, e);
    nothing_is_clamped(r);
    nothing_is_encoded(f, tonemap::clamped(r));
}

proof fn nothing_is_clamped(v: u64)
    requires
        rounding::is_nought(v),
    ensures
        rounding::is_nought(tonemap::clamped(v)),
{
    rounding::nought_and_one();
    rounding::order_tells(v, ZERO);
    rounding::order_tells(ONE, v);
    lemma_pow2_pos(1074);
}

proof fn nothing_is_encoded<F: Fn(Op, u64, u64) -> u64>(f: F, v: u64)
    requires
        rounding::is_rounding(f),
        rounding::is_nought(v),
    ensures
        rounding::is_nought(tonemap::srgb_encoded(f, v)),
        rounding::is_nought(tonemap::clamped(v)),
{
    nothing_is_clamped(v);
    let c = tonemap::clamped(v);
    rounding::nought_and_one();
    assert(double::is_finite(tonemap::KNEE) && double::below(ZERO, tonemap::KNEE));
    rounding::order_tells(ZERO, tonemap::KNEE);
    rounding::order_tells(c, tonemap::KNEE);
    assert(double::is_finite(tonemap::SLOPE));
    rounding::product_with_nought(f, tonemap::SLOPE, c);
    nothing_is_clamped(arith::product(f, tonemap::SLOPE, c));
}

} // verus!
