//! How near doubles are to each other, measured without rounding: every finite double is a whole
//! multiple of the least one.

use crate::double;
use vstd::arithmetic::power2::*;
use vstd::prelude::*;

verus! {

/// How many times the least positive double a finite double is.
pub open spec fn exact(bits: u64) -> int {
    let m = double::significand(bits) * pow2((double::scale_exponent(bits) + 1074) as nat);
    if double::is_negative(bits) {
        -m
    } else {
        m as int
    }
}

/// The difference without its sign.
pub open spec fn gap(a: int, b: int) -> int {
    if a < b {
        b - a
    } else {
        a - b
    }
}

/// The number without its sign, or one where that is more.
pub open spec fn size(bits: u64) -> int {
    let m = gap(exact(bits), 0);
    if m < pow2(1074) {
        pow2(1074) as int
    } else {
        m
    }
}

/// Whether both are finite, and the first is off the second by no more than a single-precision
/// number is off by rounding twice.
pub open spec fn is_near(a: u64, b: u64) -> bool {
    double::is_finite(a) && double::is_finite(b) && 0x80_0000 * gap(exact(a), exact(b)) <= size(b)
}

/// Whether both are finite, and the first is off the second by no more than a millionth of it, or
/// a millionth where that is more.
pub open spec fn is_close(a: u64, b: u64) -> bool {
    double::is_finite(a) && double::is_finite(b) && 1_000_000 * gap(exact(a), exact(b)) <= size(b)
}

/// Whether the double and its nearest single are finite.
pub open spec fn fits_single(bits: u64) -> bool {
    double::is_finite(bits) && double::is_finite(double::widened(double::narrowed(bits)))
}

/// Doubles that are the same integer are equally large.
pub proof fn integers_are_exact(bits: u64, i: int)
    requires
        double::equals_integer(bits, i),
    ensures
        exact(bits) == i * pow2(1074),
{
    let s = double::significand(bits);
    let e = double::scale_exponent(bits);
    let m: nat = if i < 0 {
        (-i) as nat
    } else {
        i as nat
    };
    if e >= 0 {
        lemma_pow2_adds(e as nat, 1074);
        assert(s * (pow2(e as nat) * pow2(1074)) == (s * pow2(e as nat)) * pow2(1074))
            by (nonlinear_arith);
    } else {
        let k = (-e) as nat;
        let up = (e + 1074) as nat;
        lemma_pow2_adds(k, up);
        assert(k + up == 1074);
        assert((m * pow2(k)) * pow2(up) == m * (pow2(k) * pow2(up))) by (nonlinear_arith);
    }
    assert(s * pow2((e + 1074) as nat) == m * pow2(1074));
    if i < 0 {
        assert(m * pow2(1074) == -(i * pow2(1074))) by (nonlinear_arith)
            requires
                m == -i,
        ;
    } else if i == 0 {
        assert(m * pow2(1074) == 0) by (nonlinear_arith)
            requires
                m == 0,
        ;
        assert(i * pow2(1074) == 0) by (nonlinear_arith)
            requires
                i == 0,
        ;
    }
}

/// A count of units is off by half a unit at most.
proof fn count_is_near(x: nat, unit: nat)
    requires
        unit > 0,
    ensures
        2 * gap((double::nearest_count(x, unit) * unit) as int, x as int) <= unit,
        x / unit <= double::nearest_count(x, unit) <= x / unit + 1,
{
    let down = x / unit;
    let rest = x % unit;
    assert(down * unit + rest == x && rest < unit) by (nonlinear_arith)
        requires
            down == x / unit,
            rest == x % unit,
            unit > 0,
    ;
    assert((down + 1) * unit == down * unit + unit) by (nonlinear_arith);
}

/// The gap between multiples is the multiple of the gap.
proof fn gap_scales(a: int, b: int, p: int)
    requires
        p >= 0,
    ensures
        gap(a * p, b * p) == gap(a, b) * p,
        gap(-(a * p), -(b * p)) == gap(a, b) * p,
{
    assert((a - b) * p == a * p - b * p) by (nonlinear_arith);
    assert((b - a) * p == b * p - a * p) by (nonlinear_arith);
    if a < b {
        assert(a * p <= b * p) by (nonlinear_arith)
            requires
                a < b,
                p >= 0,
        ;
    } else {
        assert(b * p <= a * p) by (nonlinear_arith)
            requires
                b <= a,
                p >= 0,
        ;
    }
}

/// What the single of a magnitude is as a double, without its sign.
proof fn single_is_exact(m: nat)
    requires
        m < 0x7f80_0000,
    ensures
        ({
            let b = double::widened(m as u32);
            let e = m / 0x80_0000;
            &&& b < 0x8000_0000_0000_0000
            &&& double::is_finite(b)
            &&& e > 0 ==> exact(b) == (m % 0x80_0000 + 0x80_0000) * pow2((e + 924) as nat)
            &&& e == 0 ==> exact(b) == m * pow2(925)
        }),
{
    let e = m / 0x80_0000;
    let f = m % 0x80_0000;
    let b = double::widened(m as u32);
    if e > 0 {
        assert(b == (e + 896) * 0x10_0000_0000_0000 + f * 0x2000_0000);
        assert(double::exponent_field(b) == e + 896);
        assert(double::fraction_field(b) == f * 0x2000_0000);
        lemma2_to64();
        lemma_pow2_adds(29, (e + 895) as nat);
        let p = pow2((e + 895) as nat);
        assert((f * 0x2000_0000 + 0x10_0000_0000_0000) * p == (f + 0x80_0000) * (0x2000_0000 * p))
            by (nonlinear_arith);
    } else if m > 0 {
        let k = double::leading_bit(m);
        double::leading_bit_bounds(m);
        lemma2_to64();
        lemma2_to64_rest();
        if k >= 23 {
            if k > 23 {
                lemma_pow2_strictly_increases(23, k);
            }
        }
        assert(k < 23);
        let up = (52 - k) as nat;
        let p = pow2(up);
        lemma_pow2_pos(up);
        lemma_pow2_adds(k, up);
        lemma_pow2_adds(k + 1, up);
        assert(pow2(k) * p <= m * p < pow2(k + 1) * p) by (nonlinear_arith)
            requires
                pow2(k) <= m < pow2(k + 1),
                p > 0,
        ;
        assert(b == (1023 + k - 149) * 0x10_0000_0000_0000 + (m * p - 0x10_0000_0000_0000));
        assert(double::exponent_field(b) == 874 + k);
        assert(double::significand(b) == m * p);
        lemma_pow2_adds(up, (873 + k) as nat);
        assert((m * p) * pow2((873 + k) as nat) == m * (p * pow2((873 + k) as nat)))
            by (nonlinear_arith);
    } else {
        assert(b == 0);
        assert(0 * pow2(0) == 0 && 0 * pow2(925) == 0);
    }
}

/// The same with a sign.
proof fn negative_single_is_exact(m: nat)
    requires
        m < 0x7f80_0000,
    ensures
        exact(double::widened((0x8000_0000 + m) as u32)) == -exact(double::widened(m as u32)),
        double::is_finite(double::widened((0x8000_0000 + m) as u32)),
{
    single_is_exact(m);
    let a = double::widened(m as u32);
    let s = (0x8000_0000 + m) as u32;
    assert(s / 0x8000_0000 == 1 && m as u32 / 0x8000_0000 == 0);
    assert(s / 0x80_0000 % 256 == m as u32 / 0x80_0000 % 256);
    assert(s % 0x80_0000 == m as u32 % 0x80_0000);
    let b = double::widened(s);
    assert(b == a + 0x8000_0000_0000_0000);
    assert(double::exponent_field(b) == double::exponent_field(a));
    assert(double::fraction_field(b) == double::fraction_field(a));
}

/// The magnitude of the nearest single is off by half a unit of it at most.
proof fn magnitude_is_near(bits: u64)
    requires
        fits_single(bits),
        !double::is_negative(bits),
    ensures
        double::narrowed(bits) < 0x7f80_0000,
        is_near(double::widened(double::narrowed(bits)), bits),
{
    reveal(double::narrowed);
    let e = double::exponent_field(bits);
    let s = double::significand(bits);
    let m = double::narrowed(bits) as nat;
    lemma2_to64();
    lemma2_to64_rest();
    if e >= 897 {
        let c = double::nearest_count(s, 0x2000_0000);
        count_is_near(s, 0x2000_0000);
        assert(0x80_0000 <= c <= 0x100_0000);
        if m == 0x7f80_0000 {
            assert(double::widened(0x7f80_0000) == 0x7ff0_0000_0000_0000);
            assert(!double::is_finite(0x7ff0_0000_0000_0000));
        }
        assert(m == (e - 897) * 0x80_0000 + c);
        single_is_exact(m);
        let p = pow2((e - 1) as nat);
        let q = pow2((e + 28) as nat);
        lemma_pow2_adds(29, (e - 1) as nat);
        assert(q == 0x2000_0000 * p);
        let t = exact(double::widened(m as u32));
        assert(t == c * q) by {
            if c == 0x100_0000 {
                assert(m / 0x80_0000 == e - 895);
                assert(m % 0x80_0000 == 0);
                lemma_pow2_adds(1, (e + 28) as nat);
                assert(pow2((e - 895 + 924) as nat) == 2 * q);
                assert(0x80_0000 * (2 * q) == 0x100_0000 * q) by (nonlinear_arith);
            } else {
                assert(m / 0x80_0000 == e - 896);
                assert(m % 0x80_0000 == c - 0x80_0000);
            }
        }
        assert(c * (0x2000_0000 * p) == (c * 0x2000_0000) * p) by (nonlinear_arith);
        gap_scales((c * 0x2000_0000) as int, s as int, p as int);
        let g = gap((c * 0x2000_0000) as int, s as int);
        assert(exact(bits) == s * p);
        lemma_pow2_pos((e - 1) as nat);
        assert(0x80_0000 * (g * p) <= s * p) by (nonlinear_arith)
            requires
                2 * g <= 0x2000_0000,
                s >= 0x10_0000_0000_0000,
                g >= 0,
                p > 0,
        ;
        assert(s * p >= 0) by (nonlinear_arith);
    } else {
        let drop = (-149 - double::scale_exponent(bits)) as nat;
        let unit = pow2(drop);
        let up = (double::scale_exponent(bits) + 1074) as nat;
        let p = pow2(up);
        lemma_pow2_pos(drop);
        lemma_pow2_pos(up);
        if drop > 30 {
            lemma_pow2_strictly_increases(30, drop);
        }
        let c = double::nearest_count(s, unit);
        count_is_near(s, unit);
        assert(s / unit < 0x80_0000) by (nonlinear_arith)
            requires
                s < 0x20_0000_0000_0000,
                unit >= 0x4000_0000,
        ;
        assert(m == c);
        single_is_exact(m);
        lemma_pow2_adds(drop, up);
        assert(unit * p == pow2(925));
        let t = exact(double::widened(m as u32));
        assert(t == c * pow2(925));
        assert(c * (unit * p) == (c * unit) * p) by (nonlinear_arith);
        gap_scales((c * unit) as int, s as int, p as int);
        let g = gap((c * unit) as int, s as int);
        assert(exact(bits) == s * p);
        assert(2 * (g * p) <= unit * p) by (nonlinear_arith)
            requires
                2 * g <= unit,
                p > 0,
        ;
        lemma_pow2_adds(23, 925);
        lemma_pow2_strictly_increases(948, 1074);
    }
}

proof fn sign_is_kept(bits: u64)
    requires
        double::is_negative(bits),
        double::is_finite(bits),
    ensures
        ({
            let plus = (bits - 0x8000_0000_0000_0000) as u64;
            &&& !double::is_negative(plus)
            &&& double::is_finite(plus)
            &&& exact(bits) == -exact(plus)
            &&& double::narrowed(bits) == 0x8000_0000 + double::narrowed(plus)
            &&& double::narrowed(plus) <= 0x7f80_0000
        }),
{
    reveal(double::narrowed);
    let plus = (bits - 0x8000_0000_0000_0000) as u64;
    assert(double::exponent_field(plus) == double::exponent_field(bits));
    assert(double::fraction_field(plus) == double::fraction_field(bits));
    let s = double::significand(bits);
    let e = double::exponent_field(bits);
    if e < 897 {
        let drop = (-149 - double::scale_exponent(bits)) as nat;
        let unit = pow2(drop);
        lemma2_to64();
        lemma2_to64_rest();
        lemma_pow2_pos(drop);
        if drop > 30 {
            lemma_pow2_strictly_increases(30, drop);
        }
        count_is_near(s, unit);
        assert(s / unit < 0x80_0000) by (nonlinear_arith)
            requires
                s < 0x20_0000_0000_0000,
                unit >= 0x4000_0000,
        ;
    }
}

/// The nearest single is near.
pub proof fn narrowing_is_near(bits: u64)
    requires
        fits_single(bits),
    ensures
        is_near(double::widened(double::narrowed(bits)), bits),
{
    if double::is_negative(bits) {
        let plus = (bits - 0x8000_0000_0000_0000) as u64;
        sign_is_kept(bits);
        let m = double::narrowed(plus) as nat;
        if m == 0x7f80_0000 {
            assert(double::widened(0xff80_0000) == 0xfff0_0000_0000_0000);
            assert(!double::is_finite(0xfff0_0000_0000_0000));
        }
        single_is_exact(m);
        negative_single_is_exact(m);
        magnitude_is_near(plus);
    } else {
        magnitude_is_near(bits);
    }
}

/// Three times ten to the 38th.
pub const SINGLE_LIMIT: u64 = 0x47ec_363c_bf21_f28a;

/// The nearest single of a number below the limit is finite.
pub proof fn numbers_fit(bits: u64)
    requires
        double::below(double::magnitude(bits), SINGLE_LIMIT),
    ensures
        fits_single(bits),
{
    let plus = double::magnitude(bits);
    assert(double::exponent_field(plus) == double::exponent_field(bits));
    let e = double::exponent_field(plus);
    assert(plus < SINGLE_LIMIT);
    assert(e <= 1150);
    assert(double::narrowed(plus) < 0x7f80_0000) by {
        reveal(double::narrowed);
        let s = double::significand(plus);
        if e >= 897 {
            count_is_near(s, 0x2000_0000);
        } else {
            let drop = (-149 - double::scale_exponent(plus)) as nat;
            let unit = pow2(drop);
            lemma2_to64();
            lemma2_to64_rest();
            lemma_pow2_pos(drop);
            if drop > 30 {
                lemma_pow2_strictly_increases(30, drop);
            }
            count_is_near(s, unit);
            assert(s / unit < 0x80_0000) by (nonlinear_arith)
                requires
                    s < 0x20_0000_0000_0000,
                    unit >= 0x4000_0000,
            ;
        }
    }
    single_is_exact(double::narrowed(plus) as nat);
    if double::is_negative(bits) {
        assert(plus == bits - 0x8000_0000_0000_0000);
        sign_is_kept(bits);
        negative_single_is_exact(double::narrowed(plus) as nat);
    } else {
        assert(plus == bits);
    }
}

/// What is near the nearest single of a number is close to the number.
pub proof fn near_is_close(a: u64, bits: u64)
    requires
        fits_single(bits),
        is_near(a, double::widened(double::narrowed(bits))),
    ensures
        is_close(a, bits),
{
    narrowing_is_near(bits);
    let s = double::widened(double::narrowed(bits));
    assert(size(s) <= size(bits) + gap(exact(s), exact(bits)));
    assert(gap(exact(a), exact(bits)) <= gap(exact(a), exact(s)) + gap(exact(s), exact(bits)));
}

/// What is the same integer is close.
pub proof fn integers_are_close(a: u64, bits: u64, i: int)
    requires
        double::equals_integer(a, i),
        double::equals_integer(bits, i),
    ensures
        is_close(a, bits),
{
    integers_are_exact(a, i);
    integers_are_exact(bits, i);
    lemma_pow2_pos(1074);
}

} // verus!
