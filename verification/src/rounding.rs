//! What doubles computed as IEEE 754 says come to, in exact numbers: every result is the true one
//! rounded, and the true one itself where that is a double.

use crate::arith;
use crate::arith::Op;
use crate::double;
use crate::math::ZERO;
use crate::near;
use vstd::arithmetic::power2::*;
use vstd::prelude::*;

verus! {

// ---- arithmetic that rounds ------------------------------------------------

/// How many times the least positive double the number one is.
pub open spec fn whole() -> int {
    pow2(1074) as int
}

/// Whether a double is a rounding of a fraction, in units of the least positive double: no double
/// lies between them, and it is the fraction where that is a double.
pub open spec fn rounds_to(r: u64, num: int, den: int) -> bool {
    forall|c: u64|
        double::is_finite(c) ==> (num <= #[trigger] near::exact(c) * den ==> double::at_most(r, c))
            && (near::exact(c) * den <= num ==> double::at_most(c, r))
}

/// Whether a double is a rounding of a square root, of a number of units.
pub open spec fn rounds_to_root(r: u64, of: int) -> bool {
    &&& double::at_most(ZERO, r)
    &&& forall|c: u64|
        double::is_finite(c) && near::exact(c) >= 0 ==> (of * whole() <= #[trigger] near::exact(c)
            * near::exact(c) ==> double::at_most(r, c)) && (near::exact(c) * near::exact(c) <= of
            * whole() ==> double::at_most(c, r))
}

/// Plus the infinity.
pub open spec fn is_infinite(b: u64) -> bool {
    double::magnitude(b) == 0x7ff0_0000_0000_0000
}

/// Whether sums, differences, products, quotients and square roots are those of IEEE 754: rounded
/// correctly where the operands are finite. What is not finite stays so, but for a quotient by an
/// infinity.
#[verifier::opaque]
pub open spec fn is_rounding<F: Fn(Op, u64, u64) -> u64>(f: F) -> bool {
    &&& forall|a: u64, b: u64|
        double::is_finite(a) && double::is_finite(b) ==> rounds_to(
            #[trigger] arith::value(f, Op::Plus, a, b),
            near::exact(a) + near::exact(b),
            1,
        )
    &&& forall|a: u64, b: u64|
        double::is_finite(a) && double::is_finite(b) ==> rounds_to(
            #[trigger] arith::value(f, Op::Minus, a, b),
            near::exact(a) - near::exact(b),
            1,
        )
    &&& forall|a: u64, b: u64|
        double::is_finite(a) && double::is_finite(b) ==> rounds_to(
            #[trigger] arith::value(f, Op::Times, a, b),
            near::exact(a) * near::exact(b),
            whole(),
        )
    &&& forall|a: u64, b: u64|
        double::is_finite(a) && double::is_finite(b) && near::exact(b) > 0 ==> rounds_to(
            #[trigger] arith::value(f, Op::Over, a, b),
            near::exact(a) * whole(),
            near::exact(b),
        )
    &&& forall|a: u64, b: u64|
        double::is_finite(a) && double::is_finite(b) && near::exact(b) < 0 ==> rounds_to(
            #[trigger] arith::value(f, Op::Over, a, b),
            -(near::exact(a) * whole()),
            -near::exact(b),
        )
    &&& forall|a: u64, b: u64|
        double::is_finite(a) && is_infinite(b) ==> is_nought(#[trigger] arith::value(f, Op::Over, a, b))
    &&& forall|a: u64, b: u64|
        double::is_finite(a) && near::exact(a) >= 0 ==> rounds_to_root(
            #[trigger] arith::value(f, Op::Root, a, b),
            near::exact(a),
        )
    &&& forall|a: u64, b: u64|
        double::is_finite(#[trigger] arith::value(f, Op::Plus, a, b)) ==> double::is_finite(a)
            && double::is_finite(b)
    &&& forall|a: u64, b: u64|
        double::is_finite(#[trigger] arith::value(f, Op::Minus, a, b)) ==> double::is_finite(a)
            && double::is_finite(b)
    &&& forall|a: u64, b: u64|
        double::is_finite(#[trigger] arith::value(f, Op::Times, a, b)) ==> double::is_finite(a)
            && double::is_finite(b)
    &&& forall|a: u64, b: u64|
        double::is_finite(#[trigger] arith::value(f, Op::Over, a, b)) ==> double::is_finite(a)
}

/// Zero, of either sign.
pub open spec fn is_nought(a: u64) -> bool {
    double::is_finite(a) && near::exact(a) == 0
}

/// Whether a double is a number of steps of a size, a power of two of the least positive double.
pub open spec fn is_step(a: u64, k: int, u: nat) -> bool {
    double::is_finite(a) && near::exact(a) == k * pow2(u)
}

/// Whether a number of steps, and the size of a step, are such that there is a double for it.
pub open spec fn has_step(k: int, u: int) -> bool {
    -0x20_0000_0000_0000 < k < 0x20_0000_0000_0000 && 0 <= u <= 2045
}

// ---- order -----------------------------------------------------------------

/// Equal ranks are those of one number.
pub proof fn ranks_tell(a: u64, c: u64)
    requires
        double::at_most(a, c),
        double::at_most(c, a),
        double::is_finite(c),
    ensures
        double::is_finite(a),
        near::exact(a) == near::exact(c),
{
    if double::is_negative(a) == double::is_negative(c) {
        assert(a == c);
    } else {
        assert(a % 0x8000_0000_0000_0000 == 0 && c % 0x8000_0000_0000_0000 == 0);
        assert(0 * pow2(0) == 0);
    }
}

/// Where a magnitude is no larger, the number is none.
proof fn magnitudes_tell(a: u64, b: u64)
    requires
        a <= b < 0x8000_0000_0000_0000,
        double::is_finite(b),
    ensures
        double::is_finite(a),
        0 <= near::exact(a) <= near::exact(b),
        a < b ==> near::exact(a) < near::exact(b),
{
    let (ea, eb) = (double::exponent_field(a), double::exponent_field(b));
    let (sa, sb) = (double::significand(a), double::significand(b));
    let pa = (double::scale_exponent(a) + 1074) as nat;
    let pb = (double::scale_exponent(b) + 1074) as nat;
    assert(ea <= eb);
    lemma_pow2_pos(pa);
    lemma_pow2_pos(pb);
    if pa == pb {
        assert(a < b ==> sa < sb);
        assert(a == b ==> sa == sb);
        assert(sa * pow2(pa) <= sb * pow2(pb) && (sa < sb ==> sa * pow2(pa) < sb * pow2(pb)))
            by (nonlinear_arith)
            requires
                sa <= sb,
                pa == pb,
                pow2(pa) > 0,
                pow2(pb) == pow2(pa),
        ;
    } else {
        let d = (pb - pa) as nat;
        lemma_pow2_adds(pa, d);
        lemma2_to64();
        assert(pow2(d) >= 2) by {
            if d > 1 {
                lemma_pow2_strictly_increases(1, d);
            }
        }
        let (p, q) = (pow2(pa), pow2(d));
        assert(sa * p < sb * (p * q)) by (nonlinear_arith)
            requires
                sa < 0x20_0000_0000_0000,
                sb >= 0x10_0000_0000_0000,
                q >= 2,
                p > 0,
        ;
    }
    assert(sa * pow2(pa) >= 0) by (nonlinear_arith);
}

/// The rank of a number is its magnitude, with its sign.
proof fn rank_is_signed(a: u64)
    ensures
        double::magnitude(a) < 0x8000_0000_0000_0000,
        double::is_negative(a) ==> double::rank(a) == -(double::magnitude(a) as int),
        !double::is_negative(a) ==> double::rank(a) == double::magnitude(a),
{
}

/// Numbers are ordered as their ranks are.
#[verifier::spinoff_prover]
#[verifier::rlimit(40)]
pub proof fn order_tells(a: u64, b: u64)
    requires
        double::is_finite(a),
        double::is_finite(b),
    ensures
        double::at_most(a, b) <==> near::exact(a) <= near::exact(b),
        double::below(a, b) <==> near::exact(a) < near::exact(b),
{
    let (m, n) = (double::magnitude(a), double::magnitude(b));
    magnitude_is_exact(a);
    magnitude_is_exact(b);
    rank_is_signed(a);
    rank_is_signed(b);
    assert(!double::is_nan(a) && !double::is_nan(b));
    let (x, y) = (near::exact(m), near::exact(n));
    magnitudes_tell(m, m);
    magnitudes_tell(n, n);
    if m <= n {
        magnitudes_tell(m, n);
    } else {
        magnitudes_tell(n, m);
    }
    assert(m <= n <==> x <= y);
    assert(m < n <==> x < y);
    nought_is_bare(m);
    nought_is_bare(n);
}

/// Only zero is zero.
proof fn nought_is_bare(m: u64)
    requires
        m < 0x8000_0000_0000_0000,
        double::is_finite(m),
    ensures
        near::exact(m) == 0 <==> m == 0,
{
    let p = pow2((double::scale_exponent(m) + 1074) as nat);
    lemma_pow2_pos((double::scale_exponent(m) + 1074) as nat);
    let s = double::significand(m);
    assert(s * p == 0 <==> s == 0) by (nonlinear_arith)
        requires
            p > 0,
            s >= 0,
    ;
}

/// A number is its magnitude with its sign.
pub proof fn magnitude_is_exact(a: u64)
    ensures
        double::is_finite(a) == double::is_finite(double::magnitude(a)),
        near::exact(double::magnitude(a)) == near::gap(near::exact(a), 0),
        near::exact(a) == near::exact(double::magnitude(a)) || near::exact(a) == -near::exact(
            double::magnitude(a),
        ),
        double::is_negative(a) ==> near::exact(a) == -near::exact(double::magnitude(a)),
        !double::is_negative(a) ==> near::exact(a) == near::exact(double::magnitude(a)),
{
    let m = double::magnitude(a);
    assert(double::exponent_field(m) == double::exponent_field(a));
    assert(double::fraction_field(m) == double::fraction_field(a));
    let s = double::significand(a);
    let p = pow2((double::scale_exponent(a) + 1074) as nat);
    assert(s * p >= 0) by (nonlinear_arith);
}

/// The number of the other sign.
pub proof fn negation_is_exact(a: u64)
    ensures
        double::is_finite(double::negated(a)) == double::is_finite(a),
        near::exact(double::negated(a)) == -near::exact(a),
{
    let b = double::negated(a);
    assert(double::exponent_field(b) == double::exponent_field(a));
    assert(double::fraction_field(b) == double::fraction_field(a));
    assert(double::is_negative(b) != double::is_negative(a));
}

// ---- what needs no rounding ------------------------------------------------

/// What can be told without rounding is.
pub proof fn settles(r: u64, num: int, den: int, c: u64)
    requires
        rounds_to(r, num, den),
        double::is_finite(c),
        near::exact(c) * den == num,
    ensures
        double::is_finite(r),
        near::exact(r) == near::exact(c),
{
    ranks_tell(r, c);
}

/// There is a double for every number of steps that has no more than 53 bits.
pub proof fn step_is_there(k: int, u: nat) -> (b: u64)
    requires
        has_step(k, u as int),
    ensures
        is_step(b, k, u),
{
    let m: nat = if k < 0 {
        (-k) as nat
    } else {
        k as nat
    };
    let b: u64 = positive_step(m, u);
    if k < 0 {
        let n = double::negated(b);
        negation_is_exact(b);
        assert(-(m * pow2(u)) == k * pow2(u)) by (nonlinear_arith)
            requires
                k == -m,
        ;
        n
    } else {
        b
    }
}

proof fn positive_step(m: nat, u: nat) -> (b: u64)
    requires
        m < 0x20_0000_0000_0000,
        u <= 2045,
    ensures
        is_step(b, m as int, u),
        b < 0x8000_0000_0000_0000,
{
    lemma2_to64();
    lemma2_to64_rest();
    if m == 0 {
        assert(0 * pow2(0) == 0 && 0 * pow2(u) == 0);
        0u64
    } else {
        let l = double::leading_bit(m);
        double::leading_bit_bounds(m);
        if l > 52 {
            if l > 53 {
                lemma_pow2_strictly_increases(53, l);
            }
        }
        let s: nat = if 52 - l < u {
            (52 - l) as nat
        } else {
            u
        };
        let p = pow2(s);
        let up = (u - s) as nat;
        let n = m * p;
        lemma_pow2_pos(s);
        lemma_pow2_adds(s, up);
        lemma_pow2_adds(l, s);
        lemma_pow2_adds(l + 1, s);
        assert(pow2(l) * p <= n < pow2(l + 1) * p) by (nonlinear_arith)
            requires
                pow2(l) <= m < pow2(l + 1),
                p > 0,
                n == m * p,
        ;
        assert(pow2(l + 1 + s) <= pow2(53)) by {
            if l + 1 + s < 53 {
                lemma_pow2_strictly_increases(l + 1 + s, 53);
            }
        }
        assert((m * p) * pow2(up) == m * (p * pow2(up))) by (nonlinear_arith);
        if n >= 0x10_0000_0000_0000 {
            let b = ((up + 1) * 0x10_0000_0000_0000 + (n - 0x10_0000_0000_0000)) as u64;
            assert(b / 0x10_0000_0000_0000 == up + 1);
            assert(double::exponent_field(b) == up + 1);
            assert(double::significand(b) == n);
            b
        } else {
            if s == 52 - l {
                assert(pow2((l + s) as nat) == pow2(52));
            }
            assert(s == u);
            let b = n as u64;
            assert(double::exponent_field(b) == 0);
            assert(double::significand(b) == n);
            b
        }
    }
}

/// A sum of steps.
pub proof fn sum_of_steps<F: Fn(Op, u64, u64) -> u64>(f: F, a: u64, i: int, b: u64, j: int, u: nat)
    requires
        is_rounding(f),
        is_step(a, i, u),
        is_step(b, j, u),
        has_step(i + j, u as int),
    ensures
        is_step(arith::sum(f, a, b), i + j, u),
{
    reveal(is_rounding);
    let c = step_is_there(i + j, u);
    assert(i * pow2(u) + j * pow2(u) == (i + j) * pow2(u)) by (nonlinear_arith);
    settles(arith::sum(f, a, b), near::exact(a) + near::exact(b), 1, c);
}

/// A difference of steps.
pub proof fn difference_of_steps<F: Fn(Op, u64, u64) -> u64>(
    f: F,
    a: u64,
    i: int,
    b: u64,
    j: int,
    u: nat,
)
    requires
        is_rounding(f),
        is_step(a, i, u),
        is_step(b, j, u),
        has_step(i - j, u as int),
    ensures
        is_step(arith::difference(f, a, b), i - j, u),
{
    reveal(is_rounding);
    let c = step_is_there(i - j, u);
    assert(i * pow2(u) - j * pow2(u) == (i - j) * pow2(u)) by (nonlinear_arith);
    settles(arith::difference(f, a, b), near::exact(a) - near::exact(b), 1, c);
}

/// A product of steps.
pub proof fn product_of_steps<F: Fn(Op, u64, u64) -> u64>(
    f: F,
    a: u64,
    i: int,
    u: nat,
    b: u64,
    j: int,
    v: nat,
)
    requires
        is_rounding(f),
        is_step(a, i, u),
        is_step(b, j, v),
        has_step(i * j, u + v - 1074),
    ensures
        is_step(arith::product(f, a, b), i * j, (u + v - 1074) as nat),
{
    reveal(is_rounding);
    let w = (u + v - 1074) as nat;
    let c = step_is_there(i * j, w);
    let (p, q, r) = (pow2(u) as int, pow2(v) as int, pow2(w) as int);
    lemma_pow2_adds(u, v);
    lemma_pow2_adds(w, 1074);
    assert(p * q == r * whole());
    assert((i * p) * (j * q) == (i * j) * (p * q)) by (nonlinear_arith);
    assert((i * j) * (r * whole()) == ((i * j) * r) * whole()) by (nonlinear_arith);
    settles(arith::product(f, a, b), near::exact(a) * near::exact(b), whole(), c);
}

/// A quotient of steps.
pub proof fn quotient_of_steps<F: Fn(Op, u64, u64) -> u64>(
    f: F,
    a: u64,
    q: int,
    u: nat,
    b: u64,
    j: int,
    v: nat,
)
    requires
        is_rounding(f),
        is_step(a, q * j, u),
        is_step(b, j, v),
        j != 0,
        has_step(q, u + 1074 - v),
    ensures
        is_step(arith::quotient(f, a, b), q, (u + 1074 - v) as nat),
{
    reveal(is_rounding);
    let w = (u + 1074 - v) as nat;
    let c = step_is_there(q, w);
    let (pu, pv, pw) = (pow2(u) as int, pow2(v) as int, pow2(w) as int);
    lemma_pow2_pos(v);
    lemma_pow2_adds(u, 1074);
    lemma_pow2_adds(w, v);
    assert(pu * whole() == pw * pv);
    assert(((q * j) * pu) * whole() == (q * j) * (pu * whole())) by (nonlinear_arith);
    assert((q * j) * (pw * pv) == (q * pw) * (j * pv)) by (nonlinear_arith);
    if j > 0 {
        assert(j * pv > 0) by (nonlinear_arith)
            requires
                j > 0,
                pv > 0,
        ;
        settles(arith::quotient(f, a, b), near::exact(a) * whole(), near::exact(b), c);
    } else {
        assert(j * pv < 0) by (nonlinear_arith)
            requires
                j < 0,
                pv > 0,
        ;
        assert(near::exact(c) * (-near::exact(b)) == -(near::exact(c) * near::exact(b)))
            by (nonlinear_arith);
        settles(arith::quotient(f, a, b), -(near::exact(a) * whole()), -near::exact(b), c);
    }
}

/// A square root of steps.
pub proof fn root_of_steps<F: Fn(Op, u64, u64) -> u64>(f: F, a: u64, k: int, u: nat, v: nat)
    requires
        is_rounding(f),
        k >= 0,
        is_step(a, k * k, u),
        2 * v == u + 1074,
        has_step(k, v as int),
    ensures
        is_step(arith::value(f, Op::Root, a, 0), k, v),
{
    reveal(is_rounding);
    let c = step_is_there(k, v);
    let (pu, pv) = (pow2(u) as int, pow2(v) as int);
    lemma_pow2_adds(v, v);
    lemma_pow2_adds(u, 1074);
    lemma_pow2_pos(u);
    lemma_pow2_pos(v);
    assert(pv * pv == pu * whole());
    assert((k * pv) * (k * pv) == (k * k) * (pv * pv)) by (nonlinear_arith);
    assert((k * k) * (pu * whole()) == ((k * k) * pu) * whole()) by (nonlinear_arith);
    assert(k * pv >= 0 && (k * k) * pu >= 0) by (nonlinear_arith)
        requires
            k >= 0,
            pv > 0,
            pu > 0,
    ;
    let r = arith::value(f, Op::Root, a, 0);
    assert(near::exact(c) * near::exact(c) == near::exact(a) * whole());
    ranks_tell(r, c);
}

// ---- zero and one ----------------------------------------------------------

/// A sum with zero.
pub proof fn sum_with_nought<F: Fn(Op, u64, u64) -> u64>(f: F, a: u64, b: u64)
    requires
        is_rounding(f),
        double::is_finite(a),
        is_nought(b),
    ensures
        double::is_finite(arith::sum(f, a, b)) && near::exact(arith::sum(f, a, b)) == near::exact(a),
        double::is_finite(arith::sum(f, b, a)) && near::exact(arith::sum(f, b, a)) == near::exact(a),
        double::is_finite(arith::difference(f, a, b)) && near::exact(arith::difference(f, a, b))
            == near::exact(a),
        double::is_finite(arith::difference(f, b, a)) && near::exact(arith::difference(f, b, a))
            == -near::exact(a),
{
    reveal(is_rounding);
    settles(arith::sum(f, a, b), near::exact(a) + near::exact(b), 1, a);
    settles(arith::sum(f, b, a), near::exact(b) + near::exact(a), 1, a);
    settles(arith::difference(f, a, b), near::exact(a) - near::exact(b), 1, a);
    negation_is_exact(a);
    settles(
        arith::difference(f, b, a),
        near::exact(b) - near::exact(a),
        1,
        double::negated(a),
    );
}

/// A product with zero.
pub proof fn product_with_nought<F: Fn(Op, u64, u64) -> u64>(f: F, a: u64, b: u64)
    requires
        is_rounding(f),
        double::is_finite(a),
        is_nought(b),
    ensures
        is_nought(arith::product(f, a, b)),
        is_nought(arith::product(f, b, a)),
{
    reveal(is_rounding);
    assert(near::exact(a) * 0 == 0 && 0 * near::exact(a) == 0 && 0 * whole() == 0);
    settles(arith::product(f, a, b), near::exact(a) * near::exact(b), whole(), b);
    settles(arith::product(f, b, a), near::exact(b) * near::exact(a), whole(), b);
}

/// A product with one.
pub proof fn product_with_one<F: Fn(Op, u64, u64) -> u64>(f: F, a: u64, b: u64)
    requires
        is_rounding(f),
        double::is_finite(a),
        double::is_finite(b),
        near::exact(b) == whole(),
    ensures
        double::is_finite(arith::product(f, a, b)) && near::exact(arith::product(f, a, b))
            == near::exact(a),
        double::is_finite(arith::product(f, b, a)) && near::exact(arith::product(f, b, a))
            == near::exact(a),
{
    reveal(is_rounding);
    assert(whole() * near::exact(a) == near::exact(a) * whole()) by (nonlinear_arith);
    settles(arith::product(f, a, b), near::exact(a) * near::exact(b), whole(), a);
    settles(arith::product(f, b, a), near::exact(b) * near::exact(a), whole(), a);
}

/// Zero divided by anything above zero.
pub proof fn quotient_of_nought<F: Fn(Op, u64, u64) -> u64>(f: F, a: u64, l: u64)
    requires
        is_rounding(f),
        is_nought(a),
        double::below(ZERO, l),
    ensures
        is_nought(arith::quotient(f, a, l)),
{
    reveal(is_rounding);
    if double::is_finite(l) {
        order_tells(ZERO, l);
        nought_and_one();
        assert(0 * whole() == 0 && 0 * near::exact(l) == 0);
        settles(arith::quotient(f, a, l), near::exact(a) * whole(), near::exact(l), a);
    } else {
        assert(is_infinite(l));
    }
}

/// Zero is zero, and one is one.
pub proof fn nought_and_one()
    ensures
        is_nought(ZERO),
        double::is_finite(crate::math::ONE),
        near::exact(crate::math::ONE) == whole(),
{
    assert(0 * pow2(0) == 0);
    assert(double::significand(crate::math::ONE) == 0x10_0000_0000_0000);
    lemma2_to64();
    lemma2_to64_rest();
    lemma_pow2_adds(52, 1022);
}

} // verus!
