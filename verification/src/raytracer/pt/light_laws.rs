//! What light does: how much of it turns back, where it scatters, and what the samples of a pixel
//! come to.

use crate::arith;
use crate::arith::Op;
use crate::double;
use crate::geometry::subdivision_laws;
use crate::math::matrix_laws;
use crate::math::{Vec3, HALF, ONE, TWO, ZERO};
use crate::near;
use crate::raytracer::pt::bxdf;
use crate::raytracer::pt::bxdf::Frame;
use crate::raytracer::pt::records;
use crate::raytracer::pt::records::{Running, Sample};
use crate::raytracer::pt::volume;
use crate::raytracer::pt::volume::{MediumEvent, MediumValues};
use crate::raytracer::pt::walk;
use crate::rounding;
use vstd::arithmetic::power2::*;
use vstd::prelude::*;

verus! {

// ---- frames ----------------------------------------------------------------

/// Three components, of which one is times one and the others times nothing.
proof fn only_one<F: Fn(Op, u64, u64) -> u64>(f: F, a: u64, b: u64, c: u64)
    requires
        rounding::is_rounding(f),
        double::is_finite(a) && double::is_finite(b) && double::is_finite(c),
    ensures
        ({
            let at = |x: u64, y: u64, z: u64|
                arith::sum(
                    f,
                    arith::sum(f, arith::product(f, a, x), arith::product(f, b, y)),
                    arith::product(f, c, z),
                );
            &&& near::exact(at(ONE, ZERO, ZERO)) == near::exact(a)
            &&& near::exact(at(ZERO, ONE, ZERO)) == near::exact(b)
            &&& near::exact(at(ZERO, ZERO, ONE)) == near::exact(c)
        }),
{
    rounding::nought_and_one();
    rounding::product_with_one(f, a, ONE);
    rounding::product_with_one(f, b, ONE);
    rounding::product_with_one(f, c, ONE);
    rounding::product_with_nought(f, a, ZERO);
    rounding::product_with_nought(f, b, ZERO);
    rounding::product_with_nought(f, c, ZERO);
    let (x, y, z) = (
        arith::product(f, a, ONE),
        arith::product(f, b, ONE),
        arith::product(f, c, ONE),
    );
    let (o, p, q) = (
        arith::product(f, a, ZERO),
        arith::product(f, b, ZERO),
        arith::product(f, c, ZERO),
    );
    rounding::sum_with_nought(f, x, p);
    rounding::sum_with_nought(f, arith::sum(f, x, p), q);
    rounding::sum_with_nought(f, y, o);
    rounding::sum_with_nought(f, arith::sum(f, o, y), q);
    rounding::sum_with_nought(f, o, p);
    rounding::sum_with_nought(f, z, arith::sum(f, o, p));
}

/// Whether two vectors are the same numbers.
pub open spec fn is_same(a: Vec3, b: Vec3) -> bool {
    near::exact(a.x) == near::exact(b.x) && near::exact(a.y) == near::exact(b.y) && near::exact(a.z)
        == near::exact(b.z)
}

/// Whether the components of a vector are finite.
pub open spec fn is_vector(v: Vec3) -> bool {
    double::is_finite(v.x) && double::is_finite(v.y) && double::is_finite(v.z)
}

/// What points up in a frame is the normal, in the world; and the two axes across are its own.
pub proof fn frames_carry_their_axes<F: Fn(Op, u64, u64) -> u64>(f: F, s: Frame)
    requires
        rounding::is_rounding(f),
        is_vector(s.t) && is_vector(s.b) && is_vector(s.n),
    ensures
        is_same(bxdf::outwards(f, s, Vec3::of(ONE, ZERO, ZERO)), s.t),
        is_same(bxdf::outwards(f, s, Vec3::of(ZERO, ONE, ZERO)), s.b),
        is_same(bxdf::outwards(f, s, Vec3::of(ZERO, ZERO, ONE)), s.n),
{
    only_one(f, s.t.x, s.b.x, s.n.x);
    only_one(f, s.t.y, s.b.y, s.n.y);
    only_one(f, s.t.z, s.b.z, s.n.z);
}

/// What a direction of the world is in a frame: how far it goes along each of the axes.
pub proof fn directions_are_measured_along_axes<F: Fn(Op, u64, u64) -> u64>(
    f: F,
    s: Frame,
    t: (int, int, int),
    b: (int, int, int),
    n: (int, int, int),
    w: Vec3,
    x: int,
    y: int,
    z: int,
)
    requires
        rounding::is_rounding(f),
        matrix_laws::is_arrow(s.t, t.0, t.1, t.2, 0x30_0000),
        matrix_laws::is_arrow(s.b, b.0, b.1, b.2, 0x30_0000),
        matrix_laws::is_arrow(s.n, n.0, n.1, n.2, 0x30_0000),
        matrix_laws::is_arrow(w, x, y, z, 0x30_0000),
    ensures
        ({
            let r = bxdf::inwards(f, s, w);
            &&& matrix_laws::is_count(r.x, x * t.0 + y * t.1 + z * t.2)
            &&& matrix_laws::is_count(r.y, x * b.0 + y * b.1 + z * b.2)
            &&& matrix_laws::is_count(r.z, x * n.0 + y * n.1 + z * n.2)
        }),
{
    matrix_laws::dots_count(f, w, x, y, z, s.t, t.0, t.1, t.2);
    matrix_laws::dots_count(f, w, x, y, z, s.b, b.0, b.1, b.2);
    matrix_laws::dots_count(f, w, x, y, z, s.n, n.0, n.1, n.2);
}

/// A surface is left on the side that a walk goes to: the normal points that way.
pub proof fn exits_face_the_way_out<F: Fn(Op, u64, u64) -> u64>(
    f: F,
    n: Vec3,
    a: int,
    b: int,
    c: int,
    d: Vec3,
    x: int,
    y: int,
    z: int,
)
    requires
        rounding::is_rounding(f),
        matrix_laws::is_arrow(n, a, b, c, 0x30_0000),
        matrix_laws::is_arrow(d, x, y, z, 0x30_0000),
    ensures
        ({
            let r = walk::outward(f, n, d);
            &&& is_same(r, n) || near::exact(r.x) == -near::exact(n.x) && near::exact(r.y)
                == -near::exact(n.y) && near::exact(r.z) == -near::exact(n.z)
            &&& near::exact(r.x) * x + near::exact(r.y) * y + near::exact(r.z) * z >= 0
        }),
{
    matrix_laws::dots_count(f, n, a, b, c, d, x, y, z);
    let dot = arith::dot_product(f, n, d);
    rounding::nought_and_one();
    rounding::order_tells(ZERO, dot);
    rounding::negation_is_exact(n.x);
    rounding::negation_is_exact(n.y);
    rounding::negation_is_exact(n.z);
    lemma_pow2_pos(1074);
    let (w, t) = (pow2(1074) as int, a * x + b * y + c * z);
    let (p, q, r) = (near::exact(n.x), near::exact(n.y), near::exact(n.z));
    assert(p * x == (a * x) * w) by (nonlinear_arith)
        requires
            p == a * w,
    ;
    assert(q * y == (b * y) * w) by (nonlinear_arith)
        requires
            q == b * w,
    ;
    assert(r * z == (c * z) * w) by (nonlinear_arith)
        requires
            r == c * w,
    ;
    assert((a * x) * w + (b * y) * w + (c * z) * w == t * w) by (nonlinear_arith)
        requires
            t == a * x + b * y + c * z,
    ;
    assert((-p) * x == -(p * x) && (-q) * y == -(q * y) && (-r) * z == -(r * z)) by (nonlinear_arith);
}

// ---- what turns back -------------------------------------------------------

/// A cosine on a grid: no less than nothing and no more than one.
proof fn cosines_stay(c: u64, k: int)
    requires
        rounding::is_step(c, k, 1054),
        0 <= k <= 0x10_0000,
    ensures
        double::clamped(c, ZERO, ONE) == c,
        rounding::is_step(ONE, 0x10_0000, 1054),
{
    lemma2_to64();
    lemma_pow2_adds(20, 1054);
    lemma_pow2_pos(1054);
    rounding::nought_and_one();
    rounding::order_tells(c, ZERO);
    rounding::order_tells(ONE, c);
    let p = pow2(1054) as int;
    assert(0 <= k * p <= 0x10_0000 * p) by (nonlinear_arith)
        requires
            0 <= k <= 0x10_0000,
            p > 0,
    ;
}

/// Where the sine in front of a boundary is more than its index, all light turns back.
pub proof fn all_light_turns_back_beyond_the_edge<F: Fn(Op, u64, u64) -> u64>(
    f: F,
    cos: u64,
    k: int,
    eta: u64,
    e: int,
)
    requires
        rounding::is_rounding(f),
        rounding::is_step(cos, k, 1054) && 0 <= k <= 0x10_0000,
        rounding::is_step(eta, e, 1054) && 0 < e <= 0x10_0000,
        0x100_0000_0000 - k * k >= e * e,
    ensures
        bxdf::turned_back(f, cos, eta) == ONE,
{
    cosines_stay(cos, k);
    assert(0 <= k * k <= 0x100_0000_0000 && 0 < e * e <= 0x100_0000_0000) by (nonlinear_arith)
        requires
            0 <= k <= 0x10_0000,
            0 < e <= 0x10_0000,
    ;
    rounding::product_of_steps(f, cos, k, 1054, cos, k, 1054);
    rounding::product_of_steps(f, eta, e, 1054, eta, e, 1054);
    lemma2_to64();
    lemma2_to64_rest();
    lemma_pow2_adds(40, 1034);
    rounding::nought_and_one();
    assert(rounding::is_step(ONE, 0x100_0000_0000, 1034));
    let (c2, e2) = (arith::product(f, cos, cos), arith::product(f, eta, eta));
    rounding::difference_of_steps(f, ONE, 0x100_0000_0000, c2, k * k, 1034);
    let d = arith::difference(f, ONE, c2);
    lemma_pow2_pos(1034);
    lemma_pow2_pos(1074);
    let (p, w) = (pow2(1034) as int, rounding::whole());
    let (i, j) = (0x100_0000_0000 - k * k, e * e);
    assert(j * p > 0 && j * p <= i * p) by (nonlinear_arith)
        requires
            0 < j <= i,
            p > 0,
    ;
    let (s, t) = (i * p, j * p);
    assert(w * t <= s * w) by (nonlinear_arith)
        requires
            t <= s,
            w > 0,
    ;
    reveal(rounding::is_rounding);
    assert(near::exact(ONE) * near::exact(e2) <= near::exact(d) * w);
}

/// Where there is no boundary, as the index is one, no light turns back.
pub proof fn no_light_turns_back_without_a_boundary<F: Fn(Op, u64, u64) -> u64>(f: F, cos: u64, k: int)
    requires
        rounding::is_rounding(f),
        rounding::is_step(cos, k, 1054) && 0 < k <= 0x10_0000,
    ensures
        rounding::is_nought(bxdf::turned_back(f, cos, ONE)),
{
    cosines_stay(cos, k);
    assert(0 < k * k <= 0x100_0000_0000) by (nonlinear_arith)
        requires
            0 < k <= 0x10_0000,
    ;
    rounding::product_of_steps(f, cos, k, 1054, cos, k, 1054);
    lemma2_to64();
    lemma2_to64_rest();
    lemma_pow2_adds(40, 1034);
    lemma_pow2_pos(1034);
    lemma_pow2_pos(1054);
    rounding::nought_and_one();
    let one = 0x100_0000_0000int;
    assert(rounding::is_step(ONE, one, 1034));
    let c2 = arith::product(f, cos, cos);
    rounding::difference_of_steps(f, ONE, one, c2, k * k, 1034);
    let d = arith::difference(f, ONE, c2);
    rounding::product_with_one(f, ONE, ONE);
    let e2 = arith::product(f, ONE, ONE);
    assert(1 * pow2(1074) == pow2(1074));
    assert(rounding::is_step(e2, 1, 1074));
    rounding::quotient_of_steps(f, d, one - k * k, 1034, e2, 1, 1074);
    let sin2 = arith::quotient(f, d, e2);
    rounding::order_tells(ONE, sin2);
    let p = pow2(1034) as int;
    let h = one - k * k;
    assert(h * p < one * p) by (nonlinear_arith)
        requires
            h < one,
            p > 0,
    ;
    rounding::difference_of_steps(f, ONE, one, sin2, h, 1034);
    let rest = arith::difference(f, ONE, sin2);
    rounding::root_of_steps(f, rest, k, 1034, 1054);
    let through = arith::value(f, Op::Root, rest, 0);
    assert(k * 1 == k && 1 * k == k);
    rounding::product_of_steps(f, ONE, 1, 1074, cos, k, 1054);
    rounding::product_of_steps(f, ONE, 1, 1074, through, k, 1054);
    let (a, b) = (arith::product(f, ONE, cos), arith::product(f, ONE, through));
    rounding::difference_of_steps(f, a, k, through, k, 1054);
    rounding::difference_of_steps(f, cos, k, b, k, 1054);
    rounding::sum_of_steps(f, a, k, through, k, 1054);
    rounding::sum_of_steps(f, cos, k, b, k, 1054);
    let (u, v) = (arith::sum(f, a, through), arith::sum(f, cos, b));
    let q = pow2(1054) as int;
    assert((k + k) * q > 0) by (nonlinear_arith)
        requires
            k > 0,
            q > 0,
    ;
    assert(0 * q == 0);
    rounding::order_tells(ZERO, u);
    rounding::order_tells(ZERO, v);
    let (n, m) = (arith::difference(f, a, through), arith::difference(f, cos, b));
    rounding::quotient_of_nought(f, n, u);
    rounding::quotient_of_nought(f, m, v);
    let (x, y) = (arith::quotient(f, n, u), arith::quotient(f, m, v));
    rounding::product_with_nought(f, x, x);
    rounding::product_with_nought(f, y, y);
    let (xx, yy) = (arith::product(f, x, x), arith::product(f, y, y));
    rounding::sum_with_nought(f, xx, yy);
    assert(double::is_finite(HALF));
    rounding::product_with_nought(f, HALF, arith::sum(f, xx, yy));
}

/// Light that meets a boundary head on turns back as the square of the difference of the index
/// from one, over the sum with one.
pub proof fn head_on_light_turns_back_by_the_index<F: Fn(Op, u64, u64) -> u64>(f: F, eta: u64, e: int, s: nat)
    requires
        rounding::is_rounding(f),
        matrix_laws::is_count(eta, e),
        e + 1 == pow2(s),
        1 <= s <= 20,
    ensures
        ({
            let r = bxdf::turned_back(f, ONE, eta);
            &&& double::is_finite(r)
            &&& near::exact(r) * ((e + 1) * (e + 1)) == ((e - 1) * (e - 1)) * rounding::whole()
        }),
{
    matrix_laws::small_counts();
    lemma2_to64();
    lemma_pow2_adds(20, 1054);
    assert(0x10_0000 * pow2(1054) == pow2(1074));
    rounding::nought_and_one();
    cosines_stay(ONE, 0x10_0000);
    powers_bound(s);
    matrix_laws::times_counts(f, ONE, 1, ONE, 1, 1, 1);
    let c2 = arith::product(f, ONE, ONE);
    matrix_laws::minus_counts(f, ONE, 1, c2, 1);
    let d = arith::difference(f, ONE, c2);
    let w = pow2(1074) as int;
    assert(0 * w == 0);
    matrix_laws::times_counts(f, eta, e, eta, e, 0x10_0000, 0x10_0000);
    let e2 = arith::product(f, eta, eta);
    lemma_pow2_pos(1074);
    assert((e * e) * w > 0) by (nonlinear_arith)
        requires
            e >= 1,
            w > 0,
    ;
    rounding::order_tells(ZERO, e2);
    rounding::quotient_of_nought(f, d, e2);
    let sin2 = arith::quotient(f, d, e2);
    rounding::order_tells(ONE, sin2);
    assert(matrix_laws::is_count(sin2, 0));
    matrix_laws::minus_counts(f, ONE, 1, sin2, 0);
    let rest = arith::difference(f, ONE, sin2);
    assert(1int * 1 == 1);
    rounding::root_of_steps(f, rest, 1, 1074, 1074);
    let through = arith::value(f, Op::Root, rest, 0);
    matrix_laws::times_counts(f, eta, e, ONE, 1, 0x10_0000, 1);
    matrix_laws::times_counts(f, eta, e, through, 1, 0x10_0000, 1);
    let (a, b) = (arith::product(f, eta, ONE), arith::product(f, eta, through));
    matrix_laws::minus_counts(f, a, e, through, 1);
    matrix_laws::plus_counts(f, a, e, through, 1);
    matrix_laws::minus_counts(f, ONE, 1, b, e);
    matrix_laws::plus_counts(f, ONE, 1, b, e);
    let (n, u) = (arith::difference(f, a, through), arith::sum(f, a, through));
    let (m, v) = (arith::difference(f, ONE, b), arith::sum(f, ONE, b));
    lemma_pow2_adds(s, 1074);
    assert(rounding::is_step(u, 1, 1074 + s));
    assert(rounding::is_step(v, 1, 1074 + s));
    let g = (1074 - s) as nat;
    assert((e - 1) * 1 == e - 1 && (1 - e) * 1 == 1 - e);
    rounding::quotient_of_steps(f, n, e - 1, 1074, u, 1, 1074 + s);
    rounding::quotient_of_steps(f, m, 1 - e, 1074, v, 1, 1074 + s);
    let (x, y) = (arith::quotient(f, n, u), arith::quotient(f, m, v));
    let t = (e - 1) * (e - 1);
    assert((1 - e) * (1 - e) == t) by (nonlinear_arith)
        requires
            t == (e - 1) * (e - 1),
    ;
    assert(0 <= t <= 0x100_0000_0000) by (nonlinear_arith)
        requires
            t == (e - 1) * (e - 1),
            1 <= e <= 0x10_0000,
    ;
    let h = (1074 - 2 * s) as nat;
    rounding::product_of_steps(f, x, e - 1, g, x, e - 1, g);
    rounding::product_of_steps(f, y, 1 - e, g, y, 1 - e, g);
    let (xx, yy) = (arith::product(f, x, x), arith::product(f, y, y));
    rounding::sum_of_steps(f, xx, t, yy, t, h);
    let both = arith::sum(f, xx, yy);
    half_is_exact();
    rounding::product_of_steps(f, HALF, 1, 1073, both, t + t, h);
    let r = arith::product(f, HALF, both);
    let z = pow2((h - 1) as nat) as int;
    lemma_pow2_adds(1, (h - 1) as nat);
    assert((1 * (t + t)) * z == t * (2 * z)) by (nonlinear_arith);
    let k = (e + 1) * (e + 1);
    lemma_pow2_adds(s, s);
    lemma_pow2_adds(2 * s, h);
    let q = pow2(h) as int;
    assert((t * q) * k == t * (k * q)) by (nonlinear_arith);
}

proof fn half_is_exact()
    ensures
        rounding::is_step(HALF, 1, 1073),
{
    subdivision_laws::constants_are_exact();
    lemma2_to64();
    lemma_pow2_adds(1, 1073);
}

proof fn powers_bound(s: nat)
    requires
        1 <= s <= 20,
    ensures
        2 <= pow2(s) <= 0x10_0000,
{
    lemma2_to64();
    if s > 1 {
        lemma_pow2_strictly_increases(1, s);
    }
    if s < 20 {
        lemma_pow2_strictly_increases(s, 20);
    }
}

// ---- media -----------------------------------------------------------------

/// A number less another that is not above nothing is no less.
proof fn less_nothing<F: Fn(Op, u64, u64) -> u64>(f: F, t: u64, a: u64)
    requires
        rounding::is_rounding(f),
        double::is_finite(t),
        double::is_finite(a),
        near::exact(a) <= 0,
    ensures
        double::at_most(t, arith::difference(f, t, a)),
{
    reveal(rounding::is_rounding);
    assert(near::exact(t) * 1 <= near::exact(t) - near::exact(a));
}

/// The next collision in a medium is never behind the last one.
pub proof fn collisions_lie_ahead<F: Fn(Op, u64, u64) -> u64>(f: F, majorant: u64, t: u64, u: u64)
    requires
        rounding::is_rounding(f),
        double::is_finite(t),
        double::is_finite(majorant) && near::exact(majorant) > 0,
        ({
            let l = arith::value(
                f,
                Op::Logarithm,
                double::greater(arith::difference(f, ONE, u), arith::TINY),
                0,
            );
            double::is_finite(l) && near::exact(l) <= 0 && double::is_finite(
                arith::quotient(f, l, majorant),
            )
        }),
    ensures
        double::at_most(t, volume::next_collision(f, majorant, t, u)),
{
    let l = arith::value(
        f,
        Op::Logarithm,
        double::greater(arith::difference(f, ONE, u), arith::TINY),
        0,
    );
    let q = arith::quotient(f, l, majorant);
    reveal(rounding::is_rounding);
    rounding::nought_and_one();
    lemma_pow2_pos(1074);
    let (x, w) = (near::exact(l), rounding::whole());
    assert(x * w <= 0) by (nonlinear_arith)
        requires
            x <= 0,
            w > 0,
    ;
    assert(near::exact(ZERO) * near::exact(majorant) == 0) by (nonlinear_arith)
        requires
            near::exact(ZERO) == 0,
    ;
    rounding::order_tells(q, ZERO);
    less_nothing(f, t, q);
}

/// Where an uneven medium is empty nothing is taken from light, and nothing collides.
pub proof fn empty_media_take_nothing<F: Fn(Op, u64, u64) -> u64>(f: F, m: MediumValues, left: Vec3)
    requires
        rounding::is_rounding(f),
        is_vector(m.sigma_t) && is_vector(left),
        double::is_finite(m.majorant) && near::exact(m.majorant) > 0,
    ensures
        is_same(volume::thinned(f, m, ZERO, left), left),
{
    rounding::nought_and_one();
    rounding::order_tells(ZERO, m.majorant);
    empty_channel(f, m.sigma_t.x, m.majorant, left.x);
    empty_channel(f, m.sigma_t.y, m.majorant, left.y);
    empty_channel(f, m.sigma_t.z, m.majorant, left.z);
}

proof fn empty_channel<F: Fn(Op, u64, u64) -> u64>(f: F, sigma: u64, majorant: u64, left: u64)
    requires
        rounding::is_rounding(f),
        double::is_finite(sigma) && double::is_finite(left),
        double::below(ZERO, majorant),
    ensures
        near::exact(
            arith::product(
                f,
                left,
                arith::difference(
                    f,
                    ONE,
                    arith::quotient(f, arith::product(f, sigma, ZERO), majorant),
                ),
            ),
        ) == near::exact(left),
{
    rounding::nought_and_one();
    rounding::product_with_nought(f, sigma, ZERO);
    let p = arith::product(f, sigma, ZERO);
    rounding::quotient_of_nought(f, p, majorant);
    let q = arith::quotient(f, p, majorant);
    rounding::sum_with_nought(f, ONE, q);
    rounding::product_with_one(f, left, arith::difference(f, ONE, q));
}

/// What is left of light after a distance is, of each colour, the exponential of less than nothing:
/// of the product of the distance and what the medium takes, with its sign turned.
pub proof fn light_is_lost_with_distance<F: Fn(Op, u64, u64) -> u64>(f: F, sigma: Vec3, t: u64)
    requires
        rounding::is_rounding(f),
        is_vector(sigma) && double::is_finite(t),
    ensures
        ({
            let r = volume::left_over(f, sigma, t);
            &&& is_lost(f, r.x, sigma.x, t)
            &&& is_lost(f, r.y, sigma.y, t)
            &&& is_lost(f, r.z, sigma.z, t)
        }),
{
    lost_channel(f, sigma.x, t);
    lost_channel(f, sigma.y, t);
    lost_channel(f, sigma.z, t);
}

/// Whether a part is the exponential of the product of two numbers, with its sign turned.
pub open spec fn is_lost<F: Fn(Op, u64, u64) -> u64>(f: F, r: u64, sigma: u64, t: u64) -> bool {
    exists|e: u64| #[trigger]
        rounding::rounds_to(e, -(near::exact(sigma) * near::exact(t)), rounding::whole()) && r
            == arith::value(f, Op::Exponential, e, 0)
}

proof fn lost_channel<F: Fn(Op, u64, u64) -> u64>(f: F, sigma: u64, t: u64)
    requires
        rounding::is_rounding(f),
        double::is_finite(sigma) && double::is_finite(t),
    ensures
        is_lost(
            f,
            arith::value(
                f,
                Op::Exponential,
                arith::product(f, double::negated(sigma), t),
                0,
            ),
            sigma,
            t,
        ),
{
    rounding::negation_is_exact(sigma);
    reveal(rounding::is_rounding);
    let e = arith::product(f, double::negated(sigma), t);
    let (x, y) = (near::exact(sigma), near::exact(t));
    assert((-x) * y == -(x * y)) by (nonlinear_arith);
    assert(rounding::rounds_to(e, -(x * y), rounding::whole()));
}

/// How far light goes before it collides, where a medium takes `sigma` of it: less the logarithm of
/// what is left of one, over that.
pub open spec fn free_path<F: Fn(Op, u64, u64) -> u64>(f: F, sigma: u64, v: u64) -> u64 {
    arith::quotient(
        f,
        double::negated(
            arith::value(
                f,
                Op::Logarithm,
                double::greater(arith::difference(f, ONE, v), arith::TINY),
                0,
            ),
        ),
        double::greater(sigma, volume::CLEAR),
    )
}

/// The shares of the colours, where light is red only.
proof fn red_has_all_shares<F: Fn(Op, u64, u64) -> u64>(f: F, beta: Vec3, k: int)
    requires
        rounding::is_rounding(f),
        matrix_laws::is_count(beta.x, k) && 0 < k <= 0x1_0000_0000,
        beta.y == ZERO && beta.z == ZERO,
    ensures
        ({
            let w = volume::channel_weights(f, beta);
            &&& double::is_finite(w.x) && near::exact(w.x) == rounding::whole()
            &&& rounding::is_nought(w.y) && rounding::is_nought(w.z)
        }),
{
    rounding::nought_and_one();
    lemma_pow2_pos(1074);
    let one = pow2(1074) as int;
    assert(k * one >= one) by (nonlinear_arith)
        requires
            k > 0,
            one > 0,
    ;
    rounding::order_tells(beta.x, ZERO);
    let x = double::greater(beta.x, ZERO);
    assert(x == beta.x);
    rounding::sum_with_nought(f, x, ZERO);
    let s = arith::sum(f, x, ZERO);
    rounding::sum_with_nought(f, s, ZERO);
    let total = arith::sum(f, s, ZERO);
    assert(double::is_finite(arith::TINY) && double::below(arith::TINY, ONE));
    rounding::order_tells(arith::TINY, ONE);
    rounding::order_tells(total, arith::TINY);
    rounding::order_tells(ZERO, total);
    assert(1 * k == k && 1 * one == one);
    rounding::quotient_of_steps(f, x, 1, 1074, total, k, 1074);
    rounding::quotient_of_nought(f, ZERO, total);
}

/// Light of one colour that gets to the end of a segment in an even medium loses nothing: that it
/// gets there is as likely as what is left of it.
pub proof fn one_colour_passes_whole<F: Fn(Op, u64, u64) -> u64>(
    f: F,
    sigma_s: Vec3,
    st: Vec3,
    t_max: u64,
    beta: Vec3,
    k: int,
    u: u64,
    v: u64,
)
    requires
        rounding::is_rounding(f),
        matrix_laws::is_count(beta.x, k) && 0 < k <= 0x1_0000_0000,
        beta.y == ZERO && beta.z == ZERO,
        double::is_finite(u) && near::exact(u) < rounding::whole(),
        !double::below(free_path(f, st.x, v), t_max),
        is_vector(volume::left_over(f, st, t_max)),
        double::below(volume::VANISHING, volume::left_over(f, st, t_max).x),
    ensures
        volume::even_event(f, sigma_s, st, t_max, beta, u, v) matches MediumEvent::Pass { weight }
            && near::exact(weight.x) == rounding::whole(),
{
    red_has_all_shares(f, beta, k);
    let w = volume::channel_weights(f, beta);
    rounding::order_tells(u, w.x);
    let left = volume::left_over(f, st, t_max);
    rounding::product_with_one(f, left.x, w.x);
    rounding::product_with_nought(f, left.y, w.y);
    rounding::product_with_nought(f, left.z, w.z);
    let (a, b, c) = (
        arith::product(f, w.x, left.x),
        arith::product(f, w.y, left.y),
        arith::product(f, w.z, left.z),
    );
    rounding::sum_with_nought(f, a, b);
    rounding::sum_with_nought(f, arith::sum(f, a, b), c);
    let pdf = arith::sum(f, arith::sum(f, a, b), c);
    assert(double::is_finite(volume::VANISHING) && double::below(ZERO, volume::VANISHING));
    rounding::order_tells(pdf, volume::VANISHING);
    rounding::order_tells(volume::VANISHING, left.x);
    rounding::order_tells(ZERO, volume::VANISHING);
    rounding::nought_and_one();
    reveal(rounding::is_rounding);
    let (x, one) = (near::exact(left.x), rounding::whole());
    assert(one * x == x * one) by (nonlinear_arith);
    rounding::settles(arith::quotient(f, left.x, pdf), x * one, x, ONE);
}

/// Light that collides in an even medium collides before the end of the segment.
pub proof fn collisions_are_before_the_end<F: Fn(Op, u64, u64) -> u64>(
    f: F,
    sigma_s: Vec3,
    st: Vec3,
    t_max: u64,
    beta: Vec3,
    u: u64,
    v: u64,
)
    ensures
        volume::even_event(f, sigma_s, st, t_max, beta, u, v) matches MediumEvent::Scatter { t, .. }
            ==> double::below(t, t_max) && (t == free_path(f, st.x, v) || t == free_path(f, st.y, v)
            || t == free_path(f, st.z, v)),
{
}

/// A direction drawn at random is as high as twice the first draw is below one: all heights are as
/// likely.
pub proof fn heights_are_even<F: Fn(Op, u64, u64) -> u64>(f: F, u: u64, k: int, v: u64)
    requires
        rounding::is_rounding(f),
        rounding::is_step(u, k, 1042) && 0 <= k <= 0x1_0000_0000,
    ensures
        ({
            let d = walk::direction_of(f, u, v);
            double::is_finite(d.z) && near::exact(d.z) == rounding::whole() - 2 * near::exact(u)
        }),
{
    subdivision_laws::constants_are_exact();
    lemma2_to64();
    lemma_pow2_adds(32, 1042);
    rounding::nought_and_one();
    assert(rounding::is_step(TWO, 2, 1074));
    rounding::product_of_steps(f, TWO, 2, 1074, u, k, 1042);
    assert(rounding::is_step(ONE, 0x1_0000_0000, 1042));
    let p = arith::product(f, TWO, u);
    rounding::difference_of_steps(f, ONE, 0x1_0000_0000, p, 2 * k, 1042);
    let q = pow2(1042) as int;
    assert((0x1_0000_0000 - 2 * k) * q == 0x1_0000_0000 * q - 2 * (k * q)) by (nonlinear_arith);
}

// ---- samples ---------------------------------------------------------------

/// A sample that is too bright is dimmed without a change of hue: all the light of it, and the part
/// that was scattered, by one factor; and what it met stays.
pub proof fn bright_samples_keep_their_hue<F: Fn(Op, u64, u64) -> u64>(f: F, s: Sample)
    requires
        rounding::is_rounding(f),
        is_vector(s.light) && is_vector(s.diffuse),
        double::below(records::FIREFLY_CLAMP, records::luminance_of(f, s.light)),
        double::is_finite(
            arith::quotient(f, records::FIREFLY_CLAMP, records::luminance_of(f, s.light)),
        ),
    ensures
        exists|k: u64|
            #[trigger] is_dimmed(s.light, records::dimmed(f, s).light, k) && is_dimmed(
                s.diffuse,
                records::dimmed(f, s).diffuse,
                k,
            ) && (double::is_finite(records::luminance_of(f, s.light)) ==> rounding::rounds_to(
                k,
                near::exact(records::FIREFLY_CLAMP) * rounding::whole(),
                near::exact(records::luminance_of(f, s.light)),
            )),
        records::dimmed(f, s).albedo == s.albedo,
        records::dimmed(f, s).normal == s.normal,
        records::dimmed(f, s).depth == s.depth,
        records::dimmed(f, s).id == s.id,
{
    let bright = records::luminance_of(f, s.light);
    let k = arith::quotient(f, records::FIREFLY_CLAMP, bright);
    reveal(rounding::is_rounding);
    assert(double::is_finite(records::FIREFLY_CLAMP));
    if double::is_finite(bright) {
        rounding::nought_and_one();
        assert(double::below(ZERO, records::FIREFLY_CLAMP));
        rounding::order_tells(ZERO, records::FIREFLY_CLAMP);
        rounding::order_tells(records::FIREFLY_CLAMP, bright);
    }
    assert(is_dimmed(s.light, records::dimmed(f, s).light, k));
}

/// Whether light is other light times a factor, rounded.
pub open spec fn is_dimmed(a: Vec3, r: Vec3, k: u64) -> bool {
    &&& rounding::rounds_to(r.x, near::exact(a.x) * near::exact(k), rounding::whole())
    &&& rounding::rounds_to(r.y, near::exact(a.y) * near::exact(k), rounding::whole())
    &&& rounding::rounds_to(r.z, near::exact(a.z) * near::exact(k), rounding::whole())
}

/// Whether twice a vector is the sum of two others.
pub open spec fn is_middle(r: Vec3, a: Vec3, b: Vec3) -> bool {
    &&& 2 * near::exact(r.x) == near::exact(a.x) + near::exact(b.x)
    &&& 2 * near::exact(r.y) == near::exact(a.y) + near::exact(b.y)
    &&& 2 * near::exact(r.z) == near::exact(a.z) + near::exact(b.z)
}

/// Whether the components of a vector are whole numbers of at most so many bits.
pub open spec fn has_counts(v: Vec3) -> bool {
    exists|x: int, y: int, z: int| #[trigger] matrix_laws::is_arrow(v, x, y, z, 0x10_0000_0000)
}

/// The record of two samples is half of both, in each of its layers.
pub proof fn records_are_halves_of_both<F: Fn(Op, u64, u64) -> u64>(f: F, a: Sample, b: Sample, id: u32)
    requires
        rounding::is_rounding(f),
        has_counts(a.light) && has_counts(b.light),
        has_counts(a.diffuse) && has_counts(b.diffuse),
        has_counts(a.albedo) && has_counts(b.albedo),
        has_counts(a.normal) && has_counts(b.normal),
    ensures
        ({
            let r = records::recorded(f, seq![a, b], id);
            &&& is_middle(r.beauty, a.light, b.light)
            &&& is_middle(r.diffuse, a.diffuse, b.diffuse)
            &&& is_middle(r.albedo, a.albedo, b.albedo)
            &&& is_middle(r.normal, a.normal, b.normal)
        }),
{
    let both = seq![a, b];
    assert(both.drop_last() =~= seq![a]);
    assert(seq![a].drop_last() =~= Seq::<Sample>::empty());
    assert(records::summed(f, both.drop_last()) == records::summed(f, seq![a]));
    assert(records::summed(f, seq![a].drop_last()) == records::summed(f, Seq::<Sample>::empty()));
    middle_vector(f, a.light, b.light);
    middle_vector(f, a.diffuse, b.diffuse);
    middle_vector(f, a.albedo, b.albedo);
    middle_vector(f, a.normal, b.normal);
}

proof fn middle_vector<F: Fn(Op, u64, u64) -> u64>(f: F, a: Vec3, b: Vec3)
    requires
        rounding::is_rounding(f),
        has_counts(a) && has_counts(b),
    ensures
        ({
            let z = Vec3::of(ZERO, ZERO, ZERO);
            let s = arith::vector_sum(f, arith::vector_sum(f, z, a), b);
            is_middle(
                arith::vector_multiple(f, s, arith::quotient(f, ONE, records::whole(2))),
                a,
                b,
            )
        }),
{
    let (i, j, k) = choose|x: int, y: int, z: int| #[trigger]
        matrix_laws::is_arrow(a, x, y, z, 0x10_0000_0000);
    let (l, m, n) = choose|x: int, y: int, z: int| #[trigger]
        matrix_laws::is_arrow(b, x, y, z, 0x10_0000_0000);
    middle_count(f, a.x, i, b.x, l);
    middle_count(f, a.y, j, b.y, m);
    middle_count(f, a.z, k, b.z, n);
}

proof fn middle_count<F: Fn(Op, u64, u64) -> u64>(f: F, a: u64, i: int, b: u64, j: int)
    requires
        rounding::is_rounding(f),
        matrix_laws::is_count(a, i) && matrix_laws::is_within(i, 0x10_0000_0000),
        matrix_laws::is_count(b, j) && matrix_laws::is_within(j, 0x10_0000_0000),
    ensures
        ({
            let s = arith::sum(f, arith::sum(f, ZERO, a), b);
            let r = arith::product(f, s, arith::quotient(f, ONE, records::whole(2)));
            2 * near::exact(r) == near::exact(a) + near::exact(b)
        }),
{
    matrix_laws::small_counts();
    subdivision_laws::count_is_exact(2);
    let two = records::whole(2);
    assert(two == arith::counted(2));
    matrix_laws::plus_counts(f, ZERO, 0, a, i);
    let s = arith::sum(f, ZERO, a);
    matrix_laws::plus_counts(f, s, i, b, j);
    let t = arith::sum(f, s, b);
    lemma2_to64();
    lemma_pow2_adds(1, 1074);
    lemma_pow2_adds(1, 1073);
    assert(2 * pow2(1074) == 1 * pow2(1075));
    assert(rounding::is_step(two, 1, 1075));
    assert(1int * 1 == 1);
    rounding::quotient_of_steps(f, ONE, 1, 1074, two, 1, 1075);
    let h = arith::quotient(f, ONE, two);
    assert((i + j) * 1 == i + j);
    rounding::product_of_steps(f, t, i + j, 1074, h, 1, 1073);
    let p = pow2(1073) as int;
    assert((i + j) * (2 * p) == 2 * ((i + j) * p)) by (nonlinear_arith);
    assert((i + j) * (2 * p) == i * (2 * p) + j * (2 * p)) by (nonlinear_arith);
}

/// A running mean moves by its share of how far off the next sample is: by one of as many parts as
/// there are samples then.
pub proof fn means_move_by_their_share<F: Fn(Op, u64, u64) -> u64>(
    f: F,
    a: Running,
    light: Vec3,
    i: int,
    j: int,
    k: int,
    x: int,
    y: int,
    z: int,
    q: (int, int, int),
)
    requires
        rounding::is_rounding(f),
        a.n + 1 == 1 || a.n + 1 == 2 || a.n + 1 == 4 || a.n + 1 == 8 || a.n + 1 == 16,
        matrix_laws::is_arrow(a.mean, i, j, k, 0x10_0000_0000),
        matrix_laws::is_arrow(light, x, y, z, 0x10_0000_0000),
        x - i == q.0 * (a.n + 1) && y - j == q.1 * (a.n + 1) && z - k == q.2 * (a.n + 1),
    ensures
        ({
            let r = records::moved_on(f, a, light);
            &&& r.n == a.n + 1
            &&& matrix_laws::is_count(r.mean.x, i + q.0)
            &&& matrix_laws::is_count(r.mean.y, j + q.1)
            &&& matrix_laws::is_count(r.mean.z, k + q.2)
        }),
{
    let n = (a.n + 1) as int;
    mean_moves(f, a.mean.x, i, light.x, x, n, q.0);
    mean_moves(f, a.mean.y, j, light.y, y, n, q.1);
    mean_moves(f, a.mean.z, k, light.z, z, n, q.2);
}

proof fn mean_moves<F: Fn(Op, u64, u64) -> u64>(f: F, m: u64, i: int, v: u64, x: int, n: int, q: int)
    requires
        rounding::is_rounding(f),
        n == 1 || n == 2 || n == 4 || n == 8 || n == 16,
        matrix_laws::is_count(m, i) && matrix_laws::is_within(i, 0x10_0000_0000),
        matrix_laws::is_count(v, x) && matrix_laws::is_within(x, 0x10_0000_0000),
        x - i == q * n,
    ensures
        matrix_laws::is_count(
            arith::sum(f, m, arith::quotient(f, arith::difference(f, v, m), records::whole(n))),
            i + q,
        ),
{
    subdivision_laws::count_is_exact(n as nat);
    let c = records::whole(n);
    assert(c == arith::counted(n));
    matrix_laws::minus_counts(f, v, x, m, i);
    let d = arith::difference(f, v, m);
    assert(matrix_laws::is_within(q, 0x20_0000_0000)) by (nonlinear_arith)
        requires
            x - i == q * n,
            n >= 1,
            matrix_laws::is_within(i, 0x10_0000_0000),
            matrix_laws::is_within(x, 0x10_0000_0000),
    ;
    rounding::quotient_of_steps(f, d, q, 1074, c, n, 1074);
    matrix_laws::plus_counts(f, m, i, arith::quotient(f, d, c), q);
}

} // verus!
