//! Double-precision numbers as their IEEE-754 bit patterns.
//!
//! A number that passes through the library unchanged is carried as the `u64`
//! that holds its bits; what the library itself decides about such a number
//! (whether it is a small integer, which single-precision number is nearest)
//! is decided on the bits.

use vstd::arithmetic::power2::*;
use vstd::prelude::*;

verus! {

/// The weight of the last of the 53 leading bits of `x` (1 where `x` has no
/// more than 53 bits).
pub open spec fn last_place(x: nat) -> nat
    decreases x,
{
    if x < 0x20_0000_0000_0000 {
        1
    } else {
        2 * last_place(x / 2)
    }
}

/// How many `unit`s are nearest to `x`; of two equally near counts, the even one.
pub open spec fn nearest_count(x: nat, unit: nat) -> nat {
    let down = x / unit;
    let rest = x % unit;
    if 2 * rest < unit || (2 * rest == unit && down % 2 == 0) {
        down
    } else {
        down + 1
    }
}

/// `x` rounded to 53 significant bits, ties to even: what converting the
/// integer `x` to double precision gives.
pub open spec fn rounded_53(x: nat) -> nat {
    nearest_count(x, last_place(x)) * last_place(x)
}

proof fn last_place_bounds(x: nat)
    ensures
        last_place(x) >= 1,
        last_place(x) == 1 || last_place(x) <= x,
    decreases x,
{
    if x >= 0x20_0000_0000_0000 {
        last_place_bounds(x / 2);
    }
}

fn last_place_exec(x: u128) -> (r: u128)
    ensures
        r == last_place(x as nat),
    decreases x,
{
    proof {
        last_place_bounds(x as nat);
    }
    if x < 0x20_0000_0000_0000 {
        1
    } else {
        proof {
            last_place_bounds((x / 2) as nat);
        }
        2 * last_place_exec(x / 2)
    }
}

/// `x` rounded to 53 significant bits, ties to even.
pub fn round_53(x: u128) -> (r: u128)
    requires
        x <= 0xffff_ffff_ffff_ffff_ffff_ffff_ffff,
    ensures
        r == rounded_53(x as nat),
        r <= 2 * x,
{
    let unit: u128 = last_place_exec(x);
    proof {
        last_place_bounds(x as nat);
    }
    let down: u128 = x / unit;
    let rest: u128 = x % unit;
    assert(down * unit + rest == x && rest < unit) by (nonlinear_arith)
        requires
            down == x / unit,
            rest == x % unit,
            unit >= 1,
    ;
    assert((down + 1) * unit == down * unit + unit) by (nonlinear_arith);
    assert(unit == 1 ==> rest == 0);
    assert(x == 0 ==> down == 0) by (nonlinear_arith)
        requires
            down == x / unit,
            unit >= 1,
    ;
    if 2 * rest < unit || (2 * rest == unit && down % 2 == 0) {
        down * unit
    } else {
        (down + 1) * unit
    }
}

/// Sign bit.
pub open spec fn is_negative(bits: u64) -> bool {
    bits >= 0x8000_0000_0000_0000
}

/// Biased exponent field.
pub open spec fn exponent_field(bits: u64) -> nat {
    ((bits / 0x10_0000_0000_0000) % 2048) as nat
}

/// Fraction field.
pub open spec fn fraction_field(bits: u64) -> nat {
    (bits % 0x10_0000_0000_0000) as nat
}

/// The 53-bit significand: the fraction with its implicit leading bit.
pub open spec fn significand(bits: u64) -> nat {
    if exponent_field(bits) == 0 {
        fraction_field(bits)
    } else {
        fraction_field(bits) + 0x10_0000_0000_0000
    }
}

/// The power of two by which the significand is scaled.
pub open spec fn scale_exponent(bits: u64) -> int {
    if exponent_field(bits) == 0 {
        -1074
    } else {
        exponent_field(bits) - 1075
    }
}

/// Neither infinite nor a NaN.
pub open spec fn is_finite(bits: u64) -> bool {
    exponent_field(bits) < 2047
}

/// The finite double with these bits is the integer `i`.
pub open spec fn equals_integer(bits: u64, i: int) -> bool {
    let m: nat = if i < 0 { (-i) as nat } else { i as nat };
    &&& is_finite(bits)
    &&& i != 0 ==> (is_negative(bits) <==> i < 0)
    &&& if scale_exponent(bits) >= 0 {
        significand(bits) * pow2(scale_exponent(bits) as nat) == m
    } else {
        significand(bits) == m * pow2((-scale_exponent(bits)) as nat)
    }
}

/// Within the range of integers that the binary encoding writes as such.
pub open spec fn is_small(i: int) -> bool {
    -2147483647 < i < 2147483647
}

/// The integer that the double is, where it is one of magnitude below 2147483647.
#[verifier::opaque]
pub open spec fn small_integer(bits: u64) -> Option<int> {
    if exists|i: int| is_small(i) && #[trigger] equals_integer(bits, i) {
        Some(choose|i: int| is_small(i) && #[trigger] equals_integer(bits, i))
    } else {
        None
    }
}

proof fn equals_integer_unique(bits: u64, i: int, j: int)
    requires
        equals_integer(bits, i),
        equals_integer(bits, j),
    ensures
        i == j,
{
    let mi: nat = if i < 0 { (-i) as nat } else { i as nat };
    let mj: nat = if j < 0 { (-j) as nat } else { j as nat };
    if scale_exponent(bits) < 0 {
        let p = pow2((-scale_exponent(bits)) as nat);
        lemma_pow2_pos((-scale_exponent(bits)) as nat);
        assert(mi == mj) by (nonlinear_arith)
            requires
                mi * p == mj * p,
                p > 0,
        ;
    }
}

/// `2^k`.
fn power_of_two(k: u32) -> (r: u64)
    requires
        k < 64,
    ensures
        r == pow2(k as nat),
    decreases k,
{
    if k == 0 {
        proof {
            lemma2_to64();
        }
        1
    } else {
        proof {
            lemma2_to64();
            lemma2_to64_rest();
            lemma_pow2_unfold(k as nat);
            if k < 63 {
                lemma_pow2_strictly_increases(k as nat, 63);
            }
        }
        2 * power_of_two(k - 1)
    }
}

/// The integer that the double is, where it is one of magnitude below 2147483647.
pub fn to_small_integer(bits: u64) -> (r: Option<i64>)
    ensures
        match r {
            Some(i) => small_integer(bits) == Some(i as int) && is_small(i as int),
            None => small_integer(bits) is None,
        },
{
    reveal(small_integer);
    let negative: bool = bits >= 0x8000_0000_0000_0000;
    let e: u64 = (bits / 0x10_0000_0000_0000) % 2048;
    let fraction: u64 = bits % 0x10_0000_0000_0000;
    if e == 0 && fraction == 0 {
        assert(equals_integer(bits, 0)) by {
            assert(0 * pow2(1074) == 0);
        }
        proof {
            let k = choose|i: int| is_small(i) && #[trigger] equals_integer(bits, i);
            equals_integer_unique(bits, 0, k);
        }
        return Some(0);
    }
    if e < 1023 {
        assert forall|i: int| is_small(i) implies !#[trigger] equals_integer(bits, i) by {
            if equals_integer(bits, i) {
                let m: nat = if i < 0 { (-i) as nat } else { i as nat };
                let k = (-scale_exponent(bits)) as nat;
                lemma2_to64();
                lemma2_to64_rest();
                lemma_pow2_strictly_increases(52, k);
                let p = pow2(k);
                assert(m * p == 0 || m * p >= p) by (nonlinear_arith)
                    requires
                        p > 0,
                ;
                lemma_pow2_strictly_increases(52, 53);
                assert(pow2(53) <= p) by {
                    if k > 53 {
                        lemma_pow2_strictly_increases(53, k);
                    }
                }
            }
        }
        return None;
    }
    if e >= 1054 {
        assert forall|i: int| is_small(i) implies !#[trigger] equals_integer(bits, i) by {
            if equals_integer(bits, i) {
                let m: nat = if i < 0 { (-i) as nat } else { i as nat };
                let s = significand(bits);
                lemma2_to64();
                lemma2_to64_rest();
                if scale_exponent(bits) >= 0 {
                    let p = pow2(scale_exponent(bits) as nat);
                    lemma_pow2_pos(scale_exponent(bits) as nat);
                    assert(s * p >= s) by (nonlinear_arith)
                        requires
                            p >= 1,
                    ;
                } else {
                    let k = (-scale_exponent(bits)) as nat;
                    let p = pow2(k);
                    assert(p <= pow2(21)) by {
                        if k < 21 {
                            lemma_pow2_strictly_increases(k, 21);
                        }
                    }
                    lemma_pow2_pos(k);
                    assert(m * p <= 0x7fff_ffff * 0x20_0000) by (nonlinear_arith)
                        requires
                            0 <= m < 0x7fff_ffff,
                            0 <= p <= 0x20_0000,
                    ;
                }
            }
        }
        return None;
    }
    let s: u64 = fraction + 0x10_0000_0000_0000;
    let unit: u64 = power_of_two((1075 - e) as u32);
    proof {
        lemma_pow2_pos((1075 - e) as nat);
        lemma2_to64();
        lemma2_to64_rest();
        if 1075 - e > 22 {
            lemma_pow2_strictly_increases(22, (1075 - e) as nat);
        }
    }
    let whole: u64 = s / unit;
    let rest: u64 = s % unit;
    assert(s == whole * unit + rest && rest < unit && whole <= s) by (nonlinear_arith)
        requires
            whole == s / unit,
            rest == s % unit,
            unit > 0,
    ;
    assert(whole < 0x1_0000_0000) by (nonlinear_arith)
        requires
            whole * unit <= s,
            s < 0x20_0000_0000_0000,
            unit >= 0x40_0000,
            whole >= 0,
    ;
    if rest != 0 || whole >= 2147483647 {
        assert forall|i: int| is_small(i) implies !#[trigger] equals_integer(bits, i) by {
            if equals_integer(bits, i) {
                let m: nat = if i < 0 { (-i) as nat } else { i as nat };
                assert(m == whole && rest == 0) by (nonlinear_arith)
                    requires
                        m * unit == whole * unit + rest,
                        0 <= rest < unit,
                        m >= 0,
                        whole >= 0,
                ;
            }
        }
        return None;
    }
    let i: i64 = if negative { -(whole as i64) } else { whole as i64 };
    proof {
        assert(whole > 0) by (nonlinear_arith)
            requires
                whole * unit == s,
                s > 0,
                whole >= 0,
        ;
        assert(equals_integer(bits, i as int));
        let k = choose|j: int| is_small(j) && #[trigger] equals_integer(bits, j);
        equals_integer_unique(bits, i as int, k);
    }
    Some(i)
}

/// Bits of the single-precision number nearest to the double (ties to even):
/// overflow gives an infinity, and a NaN keeps its sign and leading payload.
#[verifier::opaque]
pub open spec fn narrowed(bits: u64) -> u32 {
    let sign: nat = if is_negative(bits) { 0x8000_0000 } else { 0 };
    let e = exponent_field(bits);
    let magnitude: nat = if e == 2047 {
        if fraction_field(bits) == 0 {
            0x7f80_0000
        } else {
            0x7fc0_0000 + (fraction_field(bits) / 0x2000_0000) % 0x40_0000
        }
    } else if e >= 897 {
        let m = ((e - 897) * 0x80_0000 + nearest_count(significand(bits), 0x2000_0000)) as nat;
        if m < 0x7f80_0000 { m } else { 0x7f80_0000 }
    } else {
        nearest_count(significand(bits), pow2((-149 - scale_exponent(bits)) as nat))
    };
    (sign + magnitude) as u32
}

fn nearest_count_exec(x: u64, unit: u64) -> (r: u64)
    requires
        unit > 0,
        x < 0x20_0000_0000_0000,
    ensures
        r == nearest_count(x as nat, unit as nat),
        r <= x / unit + 1,
{
    let down: u64 = x / unit;
    let rest: u64 = x % unit;
    assert(down <= x) by (nonlinear_arith)
        requires
            down == x / unit,
            unit > 0,
    ;
    if rest < unit - rest || (rest == unit - rest && down % 2 == 0) {
        down
    } else {
        down + 1
    }
}

/// Bits of the single-precision number nearest to the double.
pub fn narrow(bits: u64) -> (r: u32)
    ensures
        r == narrowed(bits),
{
    reveal(narrowed);
    let sign: u64 = if bits >= 0x8000_0000_0000_0000 { 0x8000_0000 } else { 0 };
    let e: u64 = (bits / 0x10_0000_0000_0000) % 2048;
    let fraction: u64 = bits % 0x10_0000_0000_0000;
    if e == 2047 {
        if fraction == 0 {
            return (sign + 0x7f80_0000) as u32;
        }
        return (sign + 0x7fc0_0000 + (fraction / 0x2000_0000) % 0x40_0000) as u32;
    }
    if e >= 897 {
        let count: u64 = nearest_count_exec(fraction + 0x10_0000_0000_0000, 0x2000_0000);
        let m: u64 = (e - 897) * 0x80_0000 + count;
        if m < 0x7f80_0000 {
            return (sign + m) as u32;
        }
        return (sign + 0x7f80_0000) as u32;
    }
    let s: u64 = if e == 0 { fraction } else { fraction + 0x10_0000_0000_0000 };
    let drop: u64 = if e == 0 { 925 } else { 926 - e };
    assert(drop == -149 - scale_exponent(bits));
    if drop >= 54 {
        assert(nearest_count(s as nat, pow2(drop as nat)) == 0) by {
            lemma2_to64();
            lemma2_to64_rest();
            if drop > 54 {
                lemma_pow2_strictly_increases(54, drop as nat);
            }
            let p = pow2(drop as nat);
            assert(s as nat / p == 0 && s as nat % p == s) by (nonlinear_arith)
                requires
                    0 <= s < p,
            ;
        }
        return sign as u32;
    }
    let unit: u64 = power_of_two(drop as u32);
    proof {
        lemma2_to64();
        lemma2_to64_rest();
        if drop > 30 {
            lemma_pow2_strictly_increases(30, drop as nat);
        }
        assert(s / unit <= 0x80_0000) by (nonlinear_arith)
            requires
                s < 0x20_0000_0000_0000,
                unit >= 0x4000_0000,
        ;
    }
    let count: u64 = nearest_count_exec(s, unit);
    (sign + count) as u32
}

/// Index of the leading bit of `m`.
pub open spec fn leading_bit(m: nat) -> nat
    decreases m,
{
    if m < 2 {
        0
    } else {
        1 + leading_bit(m / 2)
    }
}

/// Bits of the double that is `raw / 2^shift`, for `raw` of at most 53 bits and
/// a small `shift` (such a quotient is a double exactly).
pub open spec fn dyadic(raw: int, shift: int) -> u64 {
    let m: nat = if raw < 0 { (-raw) as nat } else { raw as nat };
    if m == 0 {
        0
    } else {
        let k = leading_bit(m);
        ((if raw < 0 { 0x8000_0000_0000_0000int } else { 0 }) + (1023 + k - shift)
            * 0x10_0000_0000_0000 + (m * pow2((52 - k) as nat) - 0x10_0000_0000_0000)) as u64
    }
}

proof fn leading_bit_double(m: nat)
    requires
        m >= 1,
    ensures
        leading_bit(2 * m) == leading_bit(m) + 1,
{
}

/// A number lies between its leading bit and the next.
pub proof fn leading_bit_bounds(m: nat)
    requires
        m >= 1,
    ensures
        pow2(leading_bit(m)) <= m < pow2(leading_bit(m) + 1),
    decreases m,
{
    lemma2_to64();
    if m >= 2 {
        leading_bit_bounds(m / 2);
        lemma_pow2_unfold(leading_bit(m));
        lemma_pow2_unfold(leading_bit(m) + 1);
    }
}

/// Bits of the double that is `raw / 2^shift`.
pub fn dyadic_double(raw: i64, shift: u32) -> (r: u64)
    requires
        -0x20_0000_0000_0000 < raw < 0x20_0000_0000_0000,
        shift <= 1000,
    ensures
        r == dyadic(raw as int, shift as int),
{
    if raw == 0 {
        return 0;
    }
    let magnitude: u64 = if raw < 0 { (-raw) as u64 } else { raw as u64 };
    let mut m: u64 = magnitude;
    let mut k: u64 = 52;
    proof {
        lemma2_to64();
        assert(pow2((52 - k) as nat) == 1);
    }
    while m < 0x10_0000_0000_0000
        invariant
            k <= 52,
            1 <= magnitude,
            1 <= m < 0x20_0000_0000_0000,
            m == magnitude * pow2((52 - k) as nat),
            leading_bit(m as nat) == leading_bit(magnitude as nat) + (52 - k),
        decreases k,
    {
        proof {
            leading_bit_bounds(m as nat);
            lemma2_to64();
            lemma2_to64_rest();
            if leading_bit(m as nat) >= 52 {
                if leading_bit(m as nat) > 52 {
                    lemma_pow2_strictly_increases(52, leading_bit(m as nat));
                }
            }
            leading_bit_double(m as nat);
            lemma_pow2_unfold((53 - k) as nat);
            let p = pow2((52 - k) as nat);
            assert(magnitude * (2 * p) == 2 * (magnitude * p)) by (nonlinear_arith);
        }
        m = 2 * m;
        k = k - 1;
    }
    proof {
        leading_bit_bounds(m as nat);
        lemma2_to64();
        lemma2_to64_rest();
        let l = leading_bit(m as nat);
        if l > 52 {
            if l > 53 {
                lemma_pow2_strictly_increases(53, l);
            }
        } else if l < 52 {
            if l + 1 < 52 {
                lemma_pow2_strictly_increases(l + 1, 52);
            }
        }
        assert(l == 52);
    }
    let sign: u64 = if raw < 0 { 0x8000_0000_0000_0000 } else { 0 };
    sign + (1023 + k - shift as u64) * 0x10_0000_0000_0000 + (m - 0x10_0000_0000_0000)
}

/// A NaN.
pub open spec fn is_nan(bits: u64) -> bool {
    exponent_field(bits) == 2047 && fraction_field(bits) != 0
}

/// The magnitude of a finite double without its fractional part.
pub open spec fn whole_part(bits: u64) -> nat {
    if scale_exponent(bits) >= 0 {
        significand(bits) * pow2(scale_exponent(bits) as nat)
    } else {
        significand(bits) / pow2((-scale_exponent(bits)) as nat)
    }
}

/// The double cut to an integer in `[0, max]`: the nearest end of that range
/// where it lies outside, and 0 for a NaN.
pub open spec fn cut_to(bits: u64, max: nat) -> nat {
    if is_nan(bits) || is_negative(bits) {
        0
    } else if !is_finite(bits) || whole_part(bits) > max {
        max
    } else {
        whole_part(bits)
    }
}

/// The double as an unsigned 64-bit integer, cut and saturated.
pub fn to_u64(bits: u64) -> (r: u64)
    ensures
        r == cut_to(bits, u64::MAX as nat),
{
    let e: u64 = (bits / 0x10_0000_0000_0000) % 2048;
    let fraction: u64 = bits % 0x10_0000_0000_0000;
    if bits >= 0x8000_0000_0000_0000 || (e == 2047 && fraction != 0) {
        return 0;
    }
    if e == 2047 {
        return u64::MAX;
    }
    proof {
        lemma2_to64();
        lemma2_to64_rest();
    }
    if e < 1023 {
        proof {
            let k = (-scale_exponent(bits)) as nat;
            if k > 53 {
                lemma_pow2_strictly_increases(53, k);
            }
            let p = pow2(k);
            let s = significand(bits);
            assert(s / p == 0) by (nonlinear_arith)
                requires
                    0 <= s < p,
            ;
        }
        return 0;
    }
    let s: u64 = fraction + 0x10_0000_0000_0000;
    if e < 1075 {
        let unit: u64 = power_of_two((1075 - e) as u32);
        proof {
            lemma_pow2_pos((1075 - e) as nat);
        }
        return s / unit;
    }
    if e <= 1086 {
        let unit: u64 = power_of_two((e - 1075) as u32);
        proof {
            if e < 1086 {
                lemma_pow2_strictly_increases((e - 1075) as nat, 11);
            }
            assert(s * unit < 0x20_0000_0000_0000 * 0x800) by (nonlinear_arith)
                requires
                    s < 0x20_0000_0000_0000,
                    unit <= 0x800,
                    s >= 0,
                    unit >= 0,
            ;
        }
        return s * unit;
    }
    proof {
        let k = scale_exponent(bits) as nat;
        if k > 12 {
            lemma_pow2_strictly_increases(12, k);
        }
        let p = pow2(k);
        assert(s * p >= 0x10_0000_0000_0000 * 0x1000) by (nonlinear_arith)
            requires
                s >= 0x10_0000_0000_0000,
                p >= 0x1000,
        ;
    }
    u64::MAX
}

/// The double as an unsigned 32-bit integer, cut and saturated.
pub fn to_u32(bits: u64) -> (r: u32)
    ensures
        r == cut_to(bits, u32::MAX as nat),
{
    let v: u64 = to_u64(bits);
    if v > u32::MAX as u64 {
        u32::MAX
    } else {
        v as u32
    }
}

/// The double as a size, cut and saturated.
pub fn to_usize(bits: u64) -> (r: usize)
    ensures
        r == cut_to(bits, usize::MAX as nat),
{
    let v: u64 = to_u64(bits);
    if v > usize::MAX as u64 {
        usize::MAX
    } else {
        v as usize
    }
}

/// The double cut to a signed 64-bit integer: the nearest end of their range where it lies
/// outside, and 0 for a NaN.
pub open spec fn cut_signed(bits: u64) -> int {
    if is_nan(bits) {
        0
    } else if !is_negative(bits) {
        cut_to(bits, i64::MAX as nat) as int
    } else if !is_finite(bits) || whole_part(bits) > 0x8000_0000_0000_0000 {
        i64::MIN as int
    } else {
        -whole_part(bits)
    }
}

/// The double as a signed 64-bit integer, cut and saturated.
pub fn to_i64(bits: u64) -> (r: i64)
    ensures
        r == cut_signed(bits),
{
    if bits < 0x8000_0000_0000_0000 {
        let v: u64 = to_u64(bits);
        if v > 0x7fff_ffff_ffff_ffff {
            i64::MAX
        } else {
            v as i64
        }
    } else {
        let size: u64 = bits - 0x8000_0000_0000_0000;
        let v: u64 = to_u64(size);
        proof {
            assert(exponent_field(size) == exponent_field(bits));
            assert(fraction_field(size) == fraction_field(bits));
        }
        if v >= 0x8000_0000_0000_0000 {
            i64::MIN
        } else {
            -(v as i64)
        }
    }
}

/// Whether the double is finite.
pub fn finite(bits: u64) -> (r: bool)
    ensures
        r == is_finite(bits),
{
    (bits / 0x10_0000_0000_0000) % 2048 != 2047
}

/// Where the double stands among the others: the larger of two doubles that are
/// no NaN has the larger rank, and the two zeros share one.
pub open spec fn rank(bits: u64) -> int {
    if is_negative(bits) {
        0x8000_0000_0000_0000 - bits
    } else {
        bits as int
    }
}

/// `a <= b`; false where either is a NaN.
pub open spec fn at_most(a: u64, b: u64) -> bool {
    !is_nan(a) && !is_nan(b) && rank(a) <= rank(b)
}

/// Whether the double is a NaN.
pub fn nan(bits: u64) -> (r: bool)
    ensures
        r == is_nan(bits),
{
    (bits / 0x10_0000_0000_0000) % 2048 == 2047 && bits % 0x10_0000_0000_0000 != 0
}

/// Where the double stands among the others.
pub fn rank_exec(bits: u64) -> (r: i128)
    ensures
        r == rank(bits),
{
    if bits >= 0x8000_0000_0000_0000 {
        0x8000_0000_0000_0000 - bits as i128
    } else {
        bits as i128
    }
}

/// `a <= b`; false where either is a NaN.
pub fn less_or_equal(a: u64, b: u64) -> (r: bool)
    ensures
        r == at_most(a, b),
{
    !nan(a) && !nan(b) && rank_exec(a) <= rank_exec(b)
}

/// `a < b`; false where either is a NaN.
pub open spec fn below(a: u64, b: u64) -> bool {
    !is_nan(a) && !is_nan(b) && rank(a) < rank(b)
}

/// Whether `a < b`.
pub fn less(a: u64, b: u64) -> (r: bool)
    ensures
        r == below(a, b),
{
    !nan(a) && !nan(b) && rank_exec(a) < rank_exec(b)
}

/// The smaller of two doubles; the other one where one is a NaN.
pub open spec fn lesser(a: u64, b: u64) -> u64 {
    if is_nan(a) || below(b, a) {
        b
    } else {
        a
    }
}

/// The larger of two doubles; the other one where one is a NaN.
pub open spec fn greater(a: u64, b: u64) -> u64 {
    if is_nan(a) || below(a, b) {
        b
    } else {
        a
    }
}

/// The smaller of two doubles.
pub fn smaller_of(a: u64, b: u64) -> (r: u64)
    ensures
        r == lesser(a, b),
{
    if nan(a) || less(b, a) {
        b
    } else {
        a
    }
}

/// The larger of two doubles.
pub fn larger_of(a: u64, b: u64) -> (r: u64)
    ensures
        r == greater(a, b),
{
    if nan(a) || less(a, b) {
        b
    } else {
        a
    }
}

/// The double without its sign.
pub open spec fn magnitude(bits: u64) -> u64 {
    bits % 0x8000_0000_0000_0000
}

/// The double without its sign.
pub fn absolute(bits: u64) -> (r: u64)
    ensures
        r == magnitude(bits),
{
    bits % 0x8000_0000_0000_0000
}

/// A number, or the nearer end of a range where it lies outside; a NaN is neither.
pub open spec fn clamped(v: u64, lo: u64, hi: u64) -> u64 {
    if below(v, lo) {
        lo
    } else if below(hi, v) {
        hi
    } else {
        v
    }
}

/// A number, or the nearer end of a range where it lies outside.
pub fn clamp(v: u64, lo: u64, hi: u64) -> (r: u64)
    ensures
        r == clamped(v, lo, hi),
{
    if less(v, lo) {
        lo
    } else if less(hi, v) {
        hi
    } else {
        v
    }
}

/// The double with the other sign.
pub open spec fn negated(bits: u64) -> u64 {
    if is_negative(bits) {
        (bits - 0x8000_0000_0000_0000) as u64
    } else {
        (bits + 0x8000_0000_0000_0000) as u64
    }
}

/// The double with the other sign.
pub fn negate(bits: u64) -> (r: u64)
    ensures
        r == negated(bits),
{
    if bits >= 0x8000_0000_0000_0000 {
        bits - 0x8000_0000_0000_0000
    } else {
        bits + 0x8000_0000_0000_0000
    }
}

/// Half of a double. Down to the smallest normal double the exponent goes down by one;
/// below it the significand is halved, to the nearest, a tie to the even one. An
/// infinity or a NaN stays what it is.
pub open spec fn halved(bits: u64) -> u64 {
    let e = exponent_field(bits);
    let m = bits % 0x8000_0000_0000_0000;
    if e == 2047 {
        bits
    } else if e >= 2 {
        (bits - 0x10_0000_0000_0000) as u64
    } else {
        (bits - m + m / 2 + if m % 4 == 3 {
            1int
        } else {
            0int
        }) as u64
    }
}

/// Half of a double.
pub fn halve(bits: u64) -> (r: u64)
    ensures
        r == halved(bits),
{
    let e: u64 = (bits / 0x10_0000_0000_0000) % 2048;
    let m: u64 = bits % 0x8000_0000_0000_0000;
    if e == 2047 {
        bits
    } else if e >= 2 {
        bits - 0x10_0000_0000_0000
    } else {
        bits - m + m / 2 + if m % 4 == 3 {
            1
        } else {
            0
        }
    }
}

/// One less than a double above one, to the nearest double, a tie to the even one: up to
/// 2^53 the difference is a double; from 2^54 on it is the double itself. A NaN stays
/// what it is.
pub open spec fn one_less(bits: u64) -> u64 {
    let e = exponent_field(bits) - 1023;
    if e > 53 {
        bits
    } else if e == 53 {
        if fraction_field(bits) == 0 {
            dyadic(0x1f_ffff_ffff_ffff, 0)
        } else {
            (bits - bits % 2) as u64
        }
    } else {
        dyadic(significand(bits) - pow2((52 - e) as nat), 52 - e)
    }
}

/// One less than a double above one.
pub fn subtract_one(bits: u64) -> (r: u64)
    requires
        is_nan(bits) || below(0x3ff0_0000_0000_0000, bits),
    ensures
        r == one_less(bits),
{
    let field: u64 = (bits / 0x10_0000_0000_0000) % 2048;
    if field > 1076 {
        bits
    } else if field == 1076 {
        if bits % 0x10_0000_0000_0000 == 0 {
            dyadic_double(0x1f_ffff_ffff_ffff, 0)
        } else {
            bits - bits % 2
        }
    } else {
        let e: u64 = field - 1023;
        let mut unit: u64 = 0x10_0000_0000_0000;
        let mut k: u64 = 0;
        proof {
            lemma2_to64();
            lemma2_to64_rest();
        }
        while k < e
            invariant
                k <= e <= 52,
                unit == pow2((52 - k) as nat),
                unit <= 0x10_0000_0000_0000,
            decreases e - k,
        {
            proof {
                lemma_pow2_unfold((52 - k) as nat);
            }
            unit = unit / 2;
            k += 1;
        }
        let m: u64 = 0x10_0000_0000_0000 + bits % 0x10_0000_0000_0000;
        dyadic_double(m as i64 - unit as i64, 52 - e as u32)
    }
}

/// The double with the value of a single: a normal single keeps its fraction under the
/// larger bias, a smaller one is an integer over 2^149, an infinity or a NaN stays one.
pub open spec fn widened(bits: u32) -> u64 {
    let sign = (bits / 0x8000_0000) as int * 0x8000_0000_0000_0000;
    let e = bits / 0x80_0000 % 256;
    let f = bits % 0x80_0000;
    if e == 255 {
        (sign + 0x7ff0_0000_0000_0000 + f * 0x2000_0000) as u64
    } else if e > 0 {
        (sign + (e + 896) * 0x10_0000_0000_0000 + f * 0x2000_0000) as u64
    } else {
        (sign + dyadic(f as int, 149)) as u64
    }
}

/// The double with the value of a single.
pub fn widen(bits: u32) -> (r: u64)
    ensures
        r == widened(bits),
{
    let sign: u64 = (bits / 0x8000_0000) as u64 * 0x8000_0000_0000_0000;
    let e: u64 = (bits / 0x80_0000 % 256) as u64;
    let f: u64 = (bits % 0x80_0000) as u64;
    if e == 255 {
        sign + 0x7ff0_0000_0000_0000 + f * 0x2000_0000
    } else if e > 0 {
        sign + (e + 896) * 0x10_0000_0000_0000 + f * 0x2000_0000
    } else {
        let small: u64 = dyadic_double(f as i64, 149);
        proof {
            dyadic_is_small(f as int, 149);
        }
        sign + small
    }
}

/// A number below 2^53 over 2^149 is below one: its double has no sign and a small
/// exponent.
proof fn dyadic_is_small(raw: int, shift: int)
    requires
        0 <= raw < 0x80_0000,
        shift == 149,
    ensures
        dyadic(raw, shift) < 0x8000_0000_0000_0000,
{
    if raw > 0 {
        let m = raw as nat;
        let k = leading_bit(m);
        leading_bit_bounds(m);
        lemma2_to64();
        if k >= 23 {
            if k > 23 {
                lemma_pow2_strictly_increases(23, k);
            }
            assert(pow2(23) == 0x80_0000);
        }
        assert(k < 23);
        let p = pow2((52 - k) as nat);
        vstd::arithmetic::power2::lemma_pow2_pos((52 - k) as nat);
        vstd::arithmetic::power2::lemma_pow2_adds(k + 1, (52 - k) as nat);
        assert(m * p < pow2(k + 1) * p) by (nonlinear_arith)
            requires
                m < pow2(k + 1),
                p > 0,
        ;
        lemma2_to64_rest();
        assert(pow2(53) == 0x20_0000_0000_0000);
        vstd::arithmetic::power2::lemma_pow2_adds(k, (52 - k) as nat);
        assert(pow2(k) * p <= m * p) by (nonlinear_arith)
            requires
                pow2(k) <= m,
                p > 0,
        ;
        assert(pow2(52) == 0x10_0000_0000_0000);
        assert((1023 + k - shift) * 0x10_0000_0000_0000 < 0x7ff0_0000_0000_0000);
    }
}

} // verus!
