//! Denoising guided by the film's layers: edge-avoiding wavelet filtering. The diffuse
//! layer is divided by the albedo, filtered in five passes of widening steps, multiplied
//! by the albedo again, and the specular layer is added back as it is. Neighbours count the
//! less the more their light, normal and depth differ, and those of other objects not at all.

use crate::arith;
use crate::arith::{
    add_vectors, compute, computes, divide_vector, dot_vectors, minus, multiply_vector, over, plus,
    subtract_vectors, times, Op,
};
use crate::double;
use crate::math::{Vec3, HALF, ZERO};
use crate::output::film;
use crate::output::film::{Film, FilmView};
use vstd::prelude::*;

verus! {

/// Passes of the filter.
pub const ITERATIONS: usize = 5;

/// The filter's reach to each side, in steps.
pub const REACH: usize = 2;

/// The double one.
pub const ONE: u64 = 0x3ff0_0000_0000_0000;

/// The smallest depth scale.
pub const LEAST_SCALE: u64 = 0x3f50_624d_d2f1_a9fc;

/// The weights of the colours in the luminance.
pub const RED: u64 = 0x3fcb_367a_0f90_96bc;

pub const GREEN: u64 = 0x3fe6_e2eb_1c43_2ca5;

pub const BLUE: u64 = 0x3fb2_7bb2_fec5_6d5d;

/// 0.05: what an albedo is at least taken as.
pub const LEAST_ALBEDO: u64 = 0x3fa9_9999_9999_999a;

/// 0.02: how fast the weight falls with the depth.
pub const DEPTH_SPREAD: u64 = 0x3f94_7ae1_47ae_147b;

/// 1e-9: the weight below which a pixel stays what it is.
pub const LEAST_WEIGHT: u64 = 0x3e11_2e0b_e826_d695;

/// 32: the power of the cosine between normals.
pub const SHARPNESS: u64 = 0x4040_0000_0000_0000;

/// 1/16, 1/4 and 3/8: the kernel, from its ends to its middle.
pub const KERNEL_END: u64 = 0x3fb0_0000_0000_0000;

pub const KERNEL_SIDE: u64 = 0x3fd0_0000_0000_0000;

pub const KERNEL_MIDDLE: u64 = 0x3fd8_0000_0000_0000;

/// What the filter knows of a pixel.
#[derive(Clone, Copy, Debug, PartialEq, Eq, Structural)]
pub struct Spot {
    pub color: Vec3,
    pub normal: Vec3,
    pub depth: u64,
    pub id: u64,
}

/// A neighbour, and its places in the kernel.
#[derive(Clone, Copy, Debug, PartialEq, Eq, Structural)]
pub struct Tap {
    pub spot: Spot,
    pub row: usize,
    pub column: usize,
}

/// A place along a direction, and its place in the kernel.
#[derive(Clone, Copy, Debug, PartialEq, Eq, Structural)]
pub struct Place {
    pub at: usize,
    pub tap: usize,
}

/// The places that the first `n` taps around `c` have, those outside left out.
pub open spec fn places(c: int, side: int, step: int, n: int) -> Seq<Place>
    decreases n,
{
    if n <= 0 {
        seq![]
    } else {
        let before = places(c, side, step, n - 1);
        let at = c + (n - 1 - REACH) * step;
        if 0 <= at < side {
            before.push(Place { at: at as usize, tap: (n - 1) as usize })
        } else {
            before
        }
    }
}

/// The places of the taps around `c`.
fn list_places(c: usize, side: usize, step: usize) -> (r: Vec<Place>)
    requires
        step <= 0x1_0000,
    ensures
        r@ == places(c as int, side as int, step as int, 5),
{
    let mut out: Vec<Place> = Vec::new();
    let mut k: usize = 0;
    while k < 5
        invariant
            k <= 5,
            step <= 0x1_0000,
            out@ == places(c as int, side as int, step as int, k as int),
        decreases 5 - k,
    {
        assert(-0x2_0000 <= (k - REACH) * step <= 0x2_0000) by (nonlinear_arith)
            requires
                0 <= k < 5,
                REACH == 2,
                0 <= step <= 0x1_0000,
        ;
        let at: i128 = c as i128 + (k as i128 - REACH as i128) * step as i128;
        if 0 <= at && at < side as i128 {
            out.push(Place { at: at as usize, tap: k });
        }
        k += 1;
    }
    out
}

/// What the filter knows of a pixel.
pub open spec fn spot_at(f: FilmView, src: Seq<Seq<Vec3>>, x: int, y: int) -> Spot {
    Spot { color: src[y][x], normal: f.normal[y][x], depth: f.depth[y][x].x, id: f.id[y][x].x }
}

/// Whether two ids are of different objects: they differ by more than a half.
pub open spec fn apart<F: Fn(Op, u64, u64) -> u64>(f: F, a: u64, b: u64) -> bool {
    double::below(HALF, double::magnitude(arith::difference(f, a, b)))
}

/// The neighbours in one row that are of the same object as the pixel with an id.
pub open spec fn row_taps<F: Fn(Op, u64, u64) -> u64>(
    f: F,
    film: FilmView,
    src: Seq<Seq<Vec3>>,
    id: u64,
    row: Place,
    columns: Seq<Place>,
) -> Seq<Tap>
    decreases columns.len(),
{
    if columns.len() == 0 {
        seq![]
    } else {
        let before = row_taps(f, film, src, id, row, columns.drop_last());
        let c = columns.last();
        let spot = spot_at(film, src, c.at as int, row.at as int);
        if apart(f, spot.id, id) {
            before
        } else {
            before.push(Tap { spot, row: row.tap, column: c.tap })
        }
    }
}

/// The neighbours in these rows.
pub open spec fn all_taps<F: Fn(Op, u64, u64) -> u64>(
    f: F,
    film: FilmView,
    src: Seq<Seq<Vec3>>,
    id: u64,
    rows: Seq<Place>,
    columns: Seq<Place>,
) -> Seq<Tap>
    decreases rows.len(),
{
    if rows.len() == 0 {
        seq![]
    } else {
        all_taps(f, film, src, id, rows.drop_last(), columns) + row_taps(
            f,
            film,
            src,
            id,
            rows.last(),
            columns,
        )
    }
}

/// The neighbours of a pixel, of its own object.
pub open spec fn taps_around<F: Fn(Op, u64, u64) -> u64>(
    f: F,
    film: FilmView,
    src: Seq<Seq<Vec3>>,
    x: int,
    y: int,
    w: int,
    h: int,
    step: int,
) -> Seq<Tap> {
    all_taps(f, film, src, film.id[y][x].x, places(y, h, step, 5), places(x, w, step, 5))
}

/// Whether a layer has at least that size.
pub open spec fn reaches(layer: Seq<Seq<Vec3>>, w: int, h: int) -> bool {
    layer.len() >= h && forall|y: int| 0 <= y < h ==> (#[trigger] layer[y]).len() >= w
}

/// Whether every layer that the filter reads has at least the size of the film.
pub open spec fn is_filterable(f: FilmView, w: int, h: int) -> bool {
    &&& reaches(f.diffuse, w, h)
    &&& reaches(f.specular, w, h)
    &&& reaches(f.albedo, w, h)
    &&& reaches(f.normal, w, h)
    &&& reaches(f.depth, w, h)
    &&& reaches(f.id, w, h)
}

// ---- weights ---------------------------------------------------------------

/// The kernel at a tap.
pub open spec fn kernel(tap: usize) -> u64 {
    if tap == 0 || tap == 4 {
        KERNEL_END
    } else if tap == 1 || tap == 3 {
        KERNEL_SIDE
    } else {
        KERNEL_MIDDLE
    }
}

fn find_kernel(tap: usize) -> (r: u64)
    ensures
        r == kernel(tap),
{
    if tap == 0 || tap == 4 {
        KERNEL_END
    } else if tap == 1 || tap == 3 {
        KERNEL_SIDE
    } else {
        KERNEL_MIDDLE
    }
}

/// How far light may differ in a pass: eight at first, and half as far in each one after.
pub open spec fn spread(pass: int) -> u64 {
    if pass == 0 {
        0x4020_0000_0000_0000
    } else if pass == 1 {
        0x4010_0000_0000_0000
    } else if pass == 2 {
        0x4000_0000_0000_0000
    } else if pass == 3 {
        0x3ff0_0000_0000_0000
    } else {
        0x3fe0_0000_0000_0000
    }
}

/// How much a neighbour counts: by its places in the kernel, and by how much its light, its
/// normal and its depth differ.
pub open spec fn weight<F: Fn(Op, u64, u64) -> u64>(f: F, s: Spot, t: Tap, scale: u64, pass: int) -> u64 {
    let (row, column) = (kernel(t.row), kernel(t.column));
    let sigma = spread(pass);
    let d = arith::vector_difference(f, t.spot.color, s.color);
    let dc = arith::sum(
        f,
        arith::sum(f, arith::product(f, RED, d.x), arith::product(f, GREEN, d.y)),
        arith::product(f, BLUE, d.z),
    );
    let light = arith::value(
        f,
        Op::Exponential,
        arith::quotient(
            f,
            double::negated(arith::product(f, dc, dc)),
            arith::product(f, sigma, sigma),
        ),
        0,
    );
    let cos = double::greater(arith::dot_product(f, t.spot.normal, s.normal), ZERO);
    let facing = arith::value(f, Op::Power, cos, SHARPNESS);
    let dd = arith::quotient(f, arith::difference(f, t.spot.depth, s.depth), scale);
    let near = arith::value(
        f,
        Op::Exponential,
        arith::quotient(f, double::negated(arith::product(f, dd, dd)), DEPTH_SPREAD),
        0,
    );
    arith::product(
        f,
        arith::product(f, arith::product(f, arith::product(f, row, column), light), facing),
        near,
    )
}

/// The sum of the first `n` neighbours by their weights, and of the weights.
pub open spec fn weighed_sum<F: Fn(Op, u64, u64) -> u64>(f: F, s: Spot, taps: Seq<Tap>, scale: u64, pass: int, n: int) -> (
    Vec3,
    u64,
)
    decreases n,
{
    if n <= 0 {
        (Vec3::of(ZERO, ZERO, ZERO), ZERO)
    } else {
        let before = weighed_sum(f, s, taps, scale, pass, n - 1);
        let t = taps[n - 1];
        let w = weight(f, s, t, scale, pass);
        (
            arith::vector_sum(f, before.0, arith::vector_multiple(f, t.spot.color, w)),
            arith::sum(f, before.1, w),
        )
    }
}

/// The mean of the neighbours by their weights; where those are next to nothing, the pixel
/// stays what it is.
pub open spec fn average<F: Fn(Op, u64, u64) -> u64>(f: F, s: Spot, taps: Seq<Tap>, scale: u64, pass: int) -> Vec3 {
    let (sum, total) = weighed_sum(f, s, taps, scale, pass, taps.len() as int);
    if double::below(LEAST_WEIGHT, total) {
        arith::vector_part(f, sum, total)
    } else {
        s.color
    }
}

fn find_weight<F: Fn(Op, u64, u64) -> u64>(f: &F, s: &Spot, t: &Tap, scale: u64, pass: usize) -> (r: u64)
    requires
        computes(*f),
    ensures
        r == weight(*f, *s, *t, scale, pass as int),
{
    let (row, column): (u64, u64) = (find_kernel(t.row), find_kernel(t.column));
    let sigma: u64 = if pass == 0 {
        0x4020_0000_0000_0000
    } else if pass == 1 {
        0x4010_0000_0000_0000
    } else if pass == 2 {
        0x4000_0000_0000_0000
    } else if pass == 3 {
        0x3ff0_0000_0000_0000
    } else {
        0x3fe0_0000_0000_0000
    };
    let d: Vec3 = subtract_vectors(f, t.spot.color, s.color);
    let dc: u64 = plus(f, plus(f, times(f, RED, d.x), times(f, GREEN, d.y)), times(f, BLUE, d.z));
    let light: u64 = compute(
        f,
        Op::Exponential,
        over(f, double::negate(times(f, dc, dc)), times(f, sigma, sigma)),
        0,
    );
    let cos: u64 = double::larger_of(dot_vectors(f, t.spot.normal, s.normal), ZERO);
    let facing: u64 = compute(f, Op::Power, cos, SHARPNESS);
    let dd: u64 = over(f, minus(f, t.spot.depth, s.depth), scale);
    let near: u64 = compute(
        f,
        Op::Exponential,
        over(f, double::negate(times(f, dd, dd)), DEPTH_SPREAD),
        0,
    );
    times(f, times(f, times(f, times(f, row, column), light), facing), near)
}

fn find_average<F: Fn(Op, u64, u64) -> u64>(f: &F, s: &Spot, taps: &Vec<Tap>, scale: u64, pass: usize) -> (r: Vec3)
    requires
        computes(*f),
    ensures
        r == average(*f, *s, taps@, scale, pass as int),
{
    let n: usize = taps.len();
    let mut sum: Vec3 = Vec3::zero();
    let mut total: u64 = ZERO;
    let mut i: usize = 0;
    while i < n
        invariant
            i <= n == taps@.len(),
            computes(*f),
            (sum, total) == weighed_sum(*f, *s, taps@, scale, pass as int, i as int),
        decreases n - i,
    {
        let t: Tap = taps[i];
        let w: u64 = find_weight(f, s, &t, scale, pass);
        sum = add_vectors(f, sum, multiply_vector(f, t.spot.color, w));
        total = plus(f, total, w);
        i += 1;
    }
    if double::less(LEAST_WEIGHT, total) {
        divide_vector(f, sum, total)
    } else {
        s.color
    }
}

/// Light without the albedo of the surface.
pub open spec fn without_albedo<F: Fn(Op, u64, u64) -> u64>(f: F, b: Vec3, a: Vec3) -> Vec3 {
    Vec3::of(
        arith::quotient(f, b.x, double::greater(a.x, LEAST_ALBEDO)),
        arith::quotient(f, b.y, double::greater(a.y, LEAST_ALBEDO)),
        arith::quotient(f, b.z, double::greater(a.z, LEAST_ALBEDO)),
    )
}

/// Light with the albedo of the surface, and what is added to it.
pub open spec fn with_albedo<F: Fn(Op, u64, u64) -> u64>(f: F, i: Vec3, a: Vec3, s: Vec3) -> Vec3 {
    Vec3::of(
        arith::sum(f, arith::product(f, i.x, double::greater(a.x, LEAST_ALBEDO)), s.x),
        arith::sum(f, arith::product(f, i.y, double::greater(a.y, LEAST_ALBEDO)), s.y),
        arith::sum(f, arith::product(f, i.z, double::greater(a.z, LEAST_ALBEDO)), s.z),
    )
}

// ---- the depth scale -------------------------------------------------------

/// The depths of a film that are greater than zero, row by row.
pub open spec fn positive(row: Seq<Vec3>) -> Seq<u64>
    decreases row.len(),
{
    if row.len() == 0 {
        seq![]
    } else {
        let before = positive(row.drop_last());
        if double::below(0, row.last().x) {
            before.push(row.last().x)
        } else {
            before
        }
    }
}

/// The positive depths of all rows.
pub open spec fn positive_depths(rows: Seq<Seq<Vec3>>) -> Seq<u64>
    decreases rows.len(),
{
    if rows.len() == 0 {
        seq![]
    } else {
        positive_depths(rows.drop_last()) + positive(rows.last())
    }
}

/// Whether `s` is `v` in ascending order. Positive doubles are ordered as their bits.
pub open spec fn is_sorted_form(s: Seq<u64>, v: Seq<u64>) -> bool {
    &&& s.to_multiset() == v.to_multiset()
    &&& forall|i: int, j: int| 0 <= i <= j < s.len() ==> s[i] <= s[j]
}

/// Sorts numbers, by std's `sort_unstable`: the same numbers, in ascending order.
#[verifier::external_body]
fn sort_numbers(v: &mut Vec<u64>)
    ensures
        is_sorted_form(final(v)@, old(v)@),
{
    v.sort_unstable();
}

/// The positive depths of all rows.
fn list_depths(rows: &Vec<Vec<Vec3>>) -> (r: Vec<u64>)
    ensures
        r@ == positive_depths(film::image_views(rows@)),
{
    let ghost all = film::image_views(rows@);
    let h: usize = rows.len();
    let mut out: Vec<u64> = Vec::new();
    let mut y: usize = 0;
    assert(all.take(0).len() == 0);
    while y < h
        invariant
            y <= h == rows@.len(),
            all == film::image_views(rows@),
            out@ == positive_depths(all.take(y as int)),
        decreases h - y,
    {
        let row: &Vec<Vec3> = &rows[y];
        let w: usize = row.len();
        let ghost before = out@;
        let mut x: usize = 0;
        assert(row@.take(0).len() == 0);
        assert(out@ =~= before + positive(row@.take(0)));
        while x < w
            invariant
                x <= w == row@.len(),
                out@ == before + positive(row@.take(x as int)),
            decreases w - x,
        {
            let d: u64 = row[x].x;
            proof {
                assert(row@.take(x + 1).drop_last() =~= row@.take(x as int));
                assert(row@.take(x + 1).last() == row@[x as int]);
            }
            if double::less(0, d) {
                out.push(d);
            }
            assert(out@ =~= before + positive(row@.take(x + 1)));
            x += 1;
        }
        proof {
            assert(row@.take(w as int) =~= row@);
            assert(all[y as int] == row@);
            assert(all.take(y + 1).drop_last() =~= all.take(y as int));
            assert(all.take(y + 1).last() == row@);
        }
        y += 1;
    }
    assert(all.take(h as int) =~= all);
    out
}

/// Whether that is the scale of the depths: the middle one of the positive ones in their
/// order, or one where there is none, and no less than a thousandth.
pub open spec fn is_depth_scale(depths: Seq<u64>, scale: u64) -> bool {
    exists|s: Seq<u64>| #[trigger]
        is_sorted_form(s, depths) && scale == double::greater(
            if s.len() > 0 { s[s.len() as int / 2] } else { ONE },
            LEAST_SCALE,
        )
}

/// The scale of the depths.
fn depth_scale(rows: &Vec<Vec<Vec3>>) -> (r: u64)
    ensures
        is_depth_scale(positive_depths(film::image_views(rows@)), r),
{
    let mut depths: Vec<u64> = list_depths(rows);
    sort_numbers(&mut depths);
    let n: usize = depths.len();
    let middle: u64 = if n > 0 {
        depths[n / 2]
    } else {
        ONE
    };
    let r: u64 = double::larger_of(middle, LEAST_SCALE);
    assert(is_sorted_form(depths@, positive_depths(film::image_views(rows@))));
    r
}

/// Two sorted forms of the same numbers are the same, so the scale is settled.
pub proof fn depth_scale_is_settled(depths: Seq<u64>, a: u64, b: u64)
    requires
        is_depth_scale(depths, a),
        is_depth_scale(depths, b),
    ensures
        a == b,
{
    let s = choose|s: Seq<u64>| #[trigger]
        is_sorted_form(s, depths) && a == double::greater(
            if s.len() > 0 { s[s.len() as int / 2] } else { ONE },
            LEAST_SCALE,
        );
    let t = choose|s: Seq<u64>| #[trigger]
        is_sorted_form(s, depths) && b == double::greater(
            if s.len() > 0 { s[s.len() as int / 2] } else { ONE },
            LEAST_SCALE,
        );
    sorted_forms_agree(s, t);
}

/// Two ascending lists of the same numbers are the same.
proof fn sorted_forms_agree(s: Seq<u64>, t: Seq<u64>)
    requires
        s.to_multiset() == t.to_multiset(),
        forall|i: int, j: int| 0 <= i <= j < s.len() ==> s[i] <= s[j],
        forall|i: int, j: int| 0 <= i <= j < t.len() ==> t[i] <= t[j],
    ensures
        s == t,
    decreases s.len(),
{
    broadcast use vstd::seq_lib::group_to_multiset_ensures;

    assert(s.len() == s.to_multiset().len());
    assert(t.len() == t.to_multiset().len());
    if s.len() > 0 {
        let a = s.last();
        let b = t.last();
        assert(s.to_multiset().count(a) > 0) by {
            assert(s.contains(a));
        }
        assert(t.to_multiset().count(b) > 0) by {
            assert(t.contains(b));
        }
        assert(t.contains(a));
        assert(s.contains(b));
        let i = choose|i: int| 0 <= i < t.len() && t[i] == a;
        let j = choose|j: int| 0 <= j < s.len() && s[j] == b;
        assert(t[i] <= b);
        assert(s[j] <= a);
        assert(a == b);
        assert(s.drop_last() =~= s.remove(s.len() - 1));
        assert(t.drop_last() =~= t.remove(t.len() - 1));
        assert(s.drop_last().to_multiset() =~= s.to_multiset().remove(a));
        assert(t.drop_last().to_multiset() =~= t.to_multiset().remove(b));
        sorted_forms_agree(s.drop_last(), t.drop_last());
        assert(s =~= s.drop_last().push(a));
        assert(t =~= t.drop_last().push(b));
    } else {
        assert(s =~= t);
    }
}

// ---- the filter ------------------------------------------------------------

/// The steps between the taps of a pass.
pub open spec fn step_of(pass: int) -> int {
    if pass == 0 {
        1
    } else if pass == 1 {
        2
    } else if pass == 2 {
        4
    } else if pass == 3 {
        8
    } else {
        16
    }
}

/// A pass of the filter.
pub open spec fn filtered<F: Fn(Op, u64, u64) -> u64>(
    f: F,
    film: FilmView,
    src: Seq<Seq<Vec3>>,
    w: nat,
    h: nat,
    scale: u64,
    pass: usize,
) -> Seq<Seq<Vec3>> {
    Seq::new(
        h,
        |y: int|
            Seq::new(
                w,
                |x: int|
                    average(
                        f,
                        spot_at(film, src, x, y),
                        taps_around(f, film, src, x, y, w as int, h as int, step_of(pass as int)),
                        scale,
                        pass as int,
                    ),
            ),
    )
}

/// The first `n` passes.
pub open spec fn passes<F: Fn(Op, u64, u64) -> u64>(
    f: F,
    film: FilmView,
    src: Seq<Seq<Vec3>>,
    w: nat,
    h: nat,
    scale: u64,
    n: nat,
) -> Seq<Seq<Vec3>>
    decreases n,
{
    if n == 0 {
        src
    } else {
        filtered(
            f,
            film,
            passes(f, film, src, w, h, scale, (n - 1) as nat),
            w,
            h,
            scale,
            (n - 1) as usize,
        )
    }
}

/// The illumination: the diffuse layer without its albedo.
pub open spec fn illumination<F: Fn(Op, u64, u64) -> u64>(
    f: F,
    film: FilmView,
    w: nat,
    h: nat,
) -> Seq<Seq<Vec3>> {
    Seq::new(
        h,
        |y: int| Seq::new(w, |x: int| without_albedo(f, film.diffuse[y][x], film.albedo[y][x])),
    )
}

/// The picture: illumination with albedo, and the specular layer.
pub open spec fn recomposed<F: Fn(Op, u64, u64) -> u64>(
    f: F,
    film: FilmView,
    light: Seq<Seq<Vec3>>,
    w: nat,
    h: nat,
) -> Seq<Seq<Vec3>> {
    Seq::new(
        h,
        |y: int|
            Seq::new(
                w,
                |x: int| with_albedo(f, light[y][x], film.albedo[y][x], film.specular[y][x]),
            ),
    )
}

/// The neighbours of a pixel, of its own object.
fn list_taps<F: Fn(Op, u64, u64) -> u64>(
    f: &F,
    film: &Film,
    src: &Vec<Vec<Vec3>>,
    id: u64,
    rows: &Vec<Place>,
    columns: &Vec<Place>,
    w: usize,
    h: usize,
) -> (r: Vec<Tap>)
    requires
        computes(*f),
        is_filterable(film@, w as int, h as int),
        reaches(film::image_views(src@), w as int, h as int),
        forall|k: int| 0 <= k < rows@.len() ==> (#[trigger] rows@[k]).at < h,
        forall|k: int| 0 <= k < columns@.len() ==> (#[trigger] columns@[k]).at < w,
    ensures
        r@ == all_taps(*f, film@, film::image_views(src@), id, rows@, columns@),
{
    let ghost s = film::image_views(src@);
    let m: usize = rows.len();
    let n: usize = columns.len();
    let mut out: Vec<Tap> = Vec::new();
    let mut j: usize = 0;
    assert(rows@.take(0).len() == 0);
    while j < m
        invariant
            j <= m == rows@.len(),
            n == columns@.len(),
            computes(*f),
            s == film::image_views(src@),
            is_filterable(film@, w as int, h as int),
            reaches(s, w as int, h as int),
            forall|k: int| 0 <= k < rows@.len() ==> (#[trigger] rows@[k]).at < h,
            forall|k: int| 0 <= k < columns@.len() ==> (#[trigger] columns@[k]).at < w,
            out@ == all_taps(*f, film@, s, id, rows@.take(j as int), columns@),
        decreases m - j,
    {
        let row: Place = rows[j];
        let y: usize = row.at;
        let ghost before = out@;
        let mut i: usize = 0;
        assert(columns@.take(0).len() == 0);
        assert(out@ =~= before + row_taps(*f, film@, s, id, row, columns@.take(0)));
        while i < n
            invariant
                i <= n == columns@.len(),
                y == row.at < h,
                computes(*f),
                s == film::image_views(src@),
                is_filterable(film@, w as int, h as int),
                reaches(s, w as int, h as int),
                forall|k: int| 0 <= k < columns@.len() ==> (#[trigger] columns@[k]).at < w,
                out@ == before + row_taps(*f, film@, s, id, row, columns@.take(i as int)),
            decreases n - i,
        {
            let column: Place = columns[i];
            let x: usize = column.at;
            assert(x < w);
            assert(s[y as int].len() >= w && film@.normal[y as int].len() >= w
                && film@.depth[y as int].len() >= w && film@.id[y as int].len() >= w);
            let spot: Spot = Spot {
                color: src[y][x],
                normal: film.normal[y][x],
                depth: film.depth[y][x].x,
                id: film.id[y][x].x,
            };
            assert(spot == spot_at(film@, s, x as int, y as int));
            assert(columns@.take(i + 1).drop_last() =~= columns@.take(i as int));
            assert(columns@.take(i + 1).last() == column);
            let ghost had = row_taps(*f, film@, s, id, row, columns@.take(i as int));
            if !double::less(HALF, double::absolute(minus(f, spot.id, id))) {
                let tap: Tap = Tap { spot, row: row.tap, column: column.tap };
                out.push(tap);
                assert(out@ =~= before + had.push(tap));
            }
            i += 1;
        }
        proof {
            assert(columns@.take(n as int) =~= columns@);
            assert(rows@.take(j + 1).drop_last() =~= rows@.take(j as int));
            assert(rows@.take(j + 1).last() == row);
        }
        j += 1;
    }
    assert(rows@.take(m as int) =~= rows@);
    out
}

/// The places of taps lie inside.
proof fn places_are_inside(c: int, side: int, step: int, n: int)
    requires
        0 <= side <= usize::MAX,
    ensures
        forall|k: int| 0 <= k < places(c, side, step, n).len() ==> (#[trigger] places(
            c,
            side,
            step,
            n,
        )[k]).at < side,
    decreases n,
{
    if n > 0 {
        places_are_inside(c, side, step, n - 1);
        let before = places(c, side, step, n - 1);
        let all = places(c, side, step, n);
        assert forall|k: int| 0 <= k < all.len() implies (#[trigger] all[k]).at < side by {
            if k < before.len() {
                assert(all[k] == before[k]);
            }
        }
    }
}

/// A pass of the filter.
fn filter_pass<F: Fn(Op, u64, u64) -> u64>(
    f: &F,
    film: &Film,
    src: &Vec<Vec<Vec3>>,
    w: usize,
    h: usize,
    scale: u64,
    pass: usize,
) -> (r: Vec<Vec<Vec3>>)
    requires
        is_filterable(film@, w as int, h as int),
        reaches(film::image_views(src@), w as int, h as int),
        computes(*f),
        pass < 5,
    ensures
        film::image_views(r@) == filtered(
            *f,
            film@,
            film::image_views(src@),
            w as nat,
            h as nat,
            scale,
            pass,
        ),
{
    let ghost s = film::image_views(src@);
    let ghost want = filtered(*f, film@, s, w as nat, h as nat, scale, pass);
    let step: usize = if pass == 0 {
        1
    } else if pass == 1 {
        2
    } else if pass == 2 {
        4
    } else if pass == 3 {
        8
    } else {
        16
    };
    let mut out: Vec<Vec<Vec3>> = Vec::new();
    let mut y: usize = 0;
    while y < h
        invariant
            y <= h,
            step == step_of(pass as int) <= 16,
            s == film::image_views(src@),
            is_filterable(film@, w as int, h as int),
            reaches(s, w as int, h as int),
            computes(*f),
            want == filtered(*f, film@, s, w as nat, h as nat, scale, pass),
            out@.len() == y,
            forall|k: int| 0 <= k < y ==> (#[trigger] out@[k])@ == want[k],
        decreases h - y,
    {
        let rows: Vec<Place> = list_places(y, h, step);
        let mut line: Vec<Vec3> = Vec::new();
        let mut x: usize = 0;
        while x < w
            invariant
                x <= w,
                y < h,
                step == step_of(pass as int) <= 16,
                s == film::image_views(src@),
                is_filterable(film@, w as int, h as int),
                reaches(s, w as int, h as int),
                computes(*f),
                rows@ == places(y as int, h as int, step as int, 5),
                want == filtered(*f, film@, s, w as nat, h as nat, scale, pass),
                line@.len() == x,
                forall|k: int| 0 <= k < x ==> #[trigger] line@[k] == want[y as int][k],
            decreases w - x,
        {
            let columns: Vec<Place> = list_places(x, w, step);
            proof {
                places_are_inside(y as int, h as int, step as int, 5);
                places_are_inside(x as int, w as int, step as int, 5);
            }
                        assert(s[y as int].len() >= w && film@.normal[y as int].len() >= w && film@.depth[y as int].len()
                >= w && film@.id[y as int].len() >= w);
            let spot: Spot = Spot {
                color: src[y][x],
                normal: film.normal[y][x],
                depth: film.depth[y][x].x,
                id: film.id[y][x].x,
            };
            let taps: Vec<Tap> = list_taps(f, film, src, spot.id, &rows, &columns, w, h);
            let v: Vec3 = find_average(f, &spot, &taps, scale, pass);
            assert(spot == spot_at(film@, s, x as int, y as int));
            line.push(v);
            x += 1;
        }
        assert(line@ =~= want[y as int]);
        out.push(line);
        y += 1;
    }
    assert(film::image_views(out@) =~= want);
    out
}

/// The illumination.
fn split_layers<F: Fn(Op, u64, u64) -> u64>(f: &F, film: &Film, w: usize, h: usize) -> (r: Vec<Vec<Vec3>>)
    requires
        is_filterable(film@, w as int, h as int),
        computes(*f),
    ensures
        film::image_views(r@) == illumination(*f, film@, w as nat, h as nat),
{
    let ghost want = illumination(*f, film@, w as nat, h as nat);
    let mut out: Vec<Vec<Vec3>> = Vec::new();
    let mut y: usize = 0;
    while y < h
        invariant
            y <= h,
            is_filterable(film@, w as int, h as int),
            computes(*f),
            want == illumination(*f, film@, w as nat, h as nat),
            out@.len() == y,
            forall|k: int| 0 <= k < y ==> (#[trigger] out@[k])@ == want[k],
        decreases h - y,
    {
        let mut line: Vec<Vec3> = Vec::new();
        let mut x: usize = 0;
        while x < w
            invariant
                x <= w,
                y < h,
                is_filterable(film@, w as int, h as int),
                computes(*f),
                want == illumination(*f, film@, w as nat, h as nat),
                line@.len() == x,
                forall|k: int| 0 <= k < x ==> #[trigger] line@[k] == want[y as int][k],
            decreases w - x,
        {
            assert(film@.diffuse[y as int].len() >= w && film@.albedo[y as int].len() >= w);
            let (b, a): (Vec3, Vec3) = (film.diffuse[y][x], film.albedo[y][x]);
            let v: Vec3 = Vec3::new(
                over(f, b.x, double::larger_of(a.x, LEAST_ALBEDO)),
                over(f, b.y, double::larger_of(a.y, LEAST_ALBEDO)),
                over(f, b.z, double::larger_of(a.z, LEAST_ALBEDO)),
            );
            line.push(v);
            x += 1;
        }
        assert(line@ =~= want[y as int]);
        out.push(line);
        y += 1;
    }
    assert(film::image_views(out@) =~= want);
    out
}

/// The picture.
fn join_layers<F: Fn(Op, u64, u64) -> u64>(
    f: &F,
    film: &Film,
    light: &Vec<Vec<Vec3>>,
    w: usize,
    h: usize,
) -> (r: Vec<Vec<Vec3>>)
    requires
        is_filterable(film@, w as int, h as int),
        reaches(film::image_views(light@), w as int, h as int),
        computes(*f),
    ensures
        film::image_views(r@) == recomposed(
            *f,
            film@,
            film::image_views(light@),
            w as nat,
            h as nat,
        ),
{
    let ghost all = film::image_views(light@);
    let ghost want = recomposed(*f, film@, all, w as nat, h as nat);
    let mut out: Vec<Vec<Vec3>> = Vec::new();
    let mut y: usize = 0;
    while y < h
        invariant
            y <= h,
            is_filterable(film@, w as int, h as int),
            all == film::image_views(light@),
            reaches(all, w as int, h as int),
            computes(*f),
            want == recomposed(*f, film@, all, w as nat, h as nat),
            out@.len() == y,
            forall|k: int| 0 <= k < y ==> (#[trigger] out@[k])@ == want[k],
        decreases h - y,
    {
        let mut line: Vec<Vec3> = Vec::new();
        let mut x: usize = 0;
        while x < w
            invariant
                x <= w,
                y < h,
                is_filterable(film@, w as int, h as int),
                all == film::image_views(light@),
                reaches(all, w as int, h as int),
                computes(*f),
                want == recomposed(*f, film@, all, w as nat, h as nat),
                line@.len() == x,
                forall|k: int| 0 <= k < x ==> #[trigger] line@[k] == want[y as int][k],
            decreases w - x,
        {
            assert(all[y as int].len() >= w && film@.specular[y as int].len() >= w && film@.albedo[y as int].len()
                >= w);
            let (i, a): (Vec3, Vec3) = (light[y][x], film.albedo[y][x]);
            let s: Vec3 = film.specular[y][x];
            let v: Vec3 = Vec3::new(
                plus(f, times(f, i.x, double::larger_of(a.x, LEAST_ALBEDO)), s.x),
                plus(f, times(f, i.y, double::larger_of(a.y, LEAST_ALBEDO)), s.y),
                plus(f, times(f, i.z, double::larger_of(a.z, LEAST_ALBEDO)), s.z),
            );
            line.push(v);
            x += 1;
        }
        assert(line@ =~= want[y as int]);
        out.push(line);
        y += 1;
    }
    assert(film::image_views(out@) =~= want);
    out
}

/// A copy of an image.
fn copy_image(image: &Vec<Vec<Vec3>>) -> (r: Vec<Vec<Vec3>>)
    ensures
        film::image_views(r@) == film::image_views(image@),
{
    let n: usize = image.len();
    let mut out: Vec<Vec<Vec3>> = Vec::new();
    let mut y: usize = 0;
    while y < n
        invariant
            y <= n == image@.len(),
            out@.len() == y,
            forall|k: int| 0 <= k < y ==> (#[trigger] out@[k])@ == image@[k]@,
        decreases n - y,
    {
        let mut row: Vec<Vec3> = Vec::new();
        row.extend_from_slice(image[y].as_slice());
        assert(row@ =~= image@[y as int]@);
        out.push(row);
        y += 1;
    }
    assert(film::image_views(out@) =~= film::image_views(image@));
    out
}

/// The denoised picture for a depth scale.
pub open spec fn picture<F: Fn(Op, u64, u64) -> u64>(f: F, film: FilmView, scale: u64) -> Seq<Seq<Vec3>> {
    let (w, h) = (film.beauty[0].len(), film.beauty.len());
    let light = illumination(f, film, w, h);
    recomposed(f, film, passes(f, film, light, w, h, scale, ITERATIONS as nat), w, h)
}

/// Whether a picture is what is denoised of a film: for the scale of the film's depths, and of a
/// film without pixels the beauty layer as it is.
pub open spec fn is_denoised<F: Fn(Op, u64, u64) -> u64>(f: F, film: FilmView, r: Seq<Seq<Vec3>>) -> bool {
    if film.beauty.len() == 0 || film.beauty[0].len() == 0 {
        r == film.beauty
    } else {
        exists|scale: u64| #[trigger]
            is_depth_scale(positive_depths(film.depth), scale) && r == picture(f, film, scale)
    }
}

/// The denoised picture. A film without pixels is left as it is.
pub fn denoise<F: Fn(Op, u64, u64) -> u64>(film: &Film, f: &F) -> (r: Vec<Vec<Vec3>>)
    requires
        computes(*f),
        film@.beauty.len() > 0 && film@.beauty[0].len() > 0 ==> is_filterable(
            film@,
            film@.beauty[0].len() as int,
            film@.beauty.len() as int,
        ),
    ensures
        is_denoised(*f, film@, film::image_views(r@)),
{
    let h: usize = film.height();
    let w: usize = film.width();
    if h == 0 || w == 0 {
        return copy_image(&film.beauty);
    }
    let ghost first = illumination(*f, film@, w as nat, h as nat);
    let mut light: Vec<Vec<Vec3>> = split_layers(f, film, w, h);
    let scale: u64 = depth_scale(&film.depth);
    let mut pass: usize = 0;
    while pass < ITERATIONS
        invariant
            pass <= ITERATIONS,
            is_filterable(film@, w as int, h as int),
            computes(*f),
            reaches(film::image_views(light@), w as int, h as int),
            film::image_views(light@) == passes(
                *f,
                film@,
                first,
                w as nat,
                h as nat,
                scale,
                pass as nat,
            ),
        decreases ITERATIONS - pass,
    {
        let next: Vec<Vec<Vec3>> = filter_pass(f, film, &light, w, h, scale, pass);
        light = next;
        pass += 1;
    }
    let r: Vec<Vec<Vec3>> = join_layers(f, film, &light, w, h);
    assert(film::image_views(r@) == picture(*f, film@, scale));
    r
}

// ---- objects stay apart ------------------------------------------------------

/// Whether a place is one of the film.
pub open spec fn is_inside(film: FilmView, y: int, x: int) -> bool {
    0 <= y < film.beauty.len() && 0 <= x < film.beauty[0].len()
}

/// Whether two films differ at most in the diffuse light of the object with an id.
pub open spec fn alike_but(a: FilmView, b: FilmView, id: u64) -> bool {
    &&& a.beauty.len() == b.beauty.len()
    &&& a.beauty.len() > 0 ==> a.beauty[0].len() == b.beauty[0].len()
    &&& a.albedo == b.albedo && a.normal == b.normal && a.depth == b.depth && a.id == b.id
    &&& a.specular == b.specular
    &&& forall|y: int, x: int|
        #![trigger a.diffuse[y][x]]
        #![trigger b.diffuse[y][x]]
        is_inside(a, y, x) && a.id[y][x].x != id ==> a.diffuse[y][x] == b.diffuse[y][x]
}

/// Whether no place of the film has an id.
spec fn is_absent(film: FilmView, id: u64) -> bool {
    forall|y: int, x: int| is_inside(film, y, x) ==> (#[trigger] film.id[y][x]).x != id
}

/// Whether different ids are those of different objects, as whole numbers are.
pub open spec fn tells_objects<F: Fn(Op, u64, u64) -> u64>(f: F, film: FilmView) -> bool {
    forall|y: int, x: int, v: int, u: int|
        is_inside(film, y, x) && is_inside(film, v, u) && (#[trigger] film.id[y][x]).x != (
        #[trigger] film.id[v][u]).x ==> apart(f, film.id[y][x].x, film.id[v][u].x)
}

/// Whether two images of a size are the same outside the object with an id.
pub open spec fn same_outside(
    film: FilmView,
    a: Seq<Seq<Vec3>>,
    b: Seq<Seq<Vec3>>,
    w: int,
    h: int,
    id: u64,
) -> bool {
    forall|y: int, x: int|
        #![trigger a[y][x]]
        #![trigger b[y][x]]
        0 <= y < h && 0 <= x < w && film.id[y][x].x != id ==> a[y][x] == b[y][x]
}

proof fn same_row_taps<F: Fn(Op, u64, u64) -> u64>(
    f: F,
    a: FilmView,
    b: FilmView,
    s: Seq<Seq<Vec3>>,
    t: Seq<Seq<Vec3>>,
    id: u64,
    own: u64,
    row: Place,
    columns: Seq<Place>,
    w: int,
    h: int,
)
    requires
        alike_but(a, b, id),
        same_outside(a, s, t, w, h, id),
        is_absent(a, id) || apart(f, id, own),
        h == a.beauty.len(),
        w == a.beauty[0].len(),
        row.at < h,
        forall|k: int| 0 <= k < columns.len() ==> (#[trigger] columns[k]).at < w,
    ensures
        row_taps(f, a, s, own, row, columns) == row_taps(f, b, t, own, row, columns),
    decreases columns.len(),
{
    if columns.len() > 0 {
        assert forall|k: int| 0 <= k < columns.drop_last().len() implies (#[trigger] columns.drop_last()[k]).at < w by {
            assert(columns.drop_last()[k] == columns[k]);
        }
        same_row_taps(f, a, b, s, t, id, own, row, columns.drop_last(), w, h);
        let c = columns.last();
        let (y, x) = (row.at as int, c.at as int);
        assert(is_inside(a, y, x));
        assert(a.id[y][x] == b.id[y][x]);
        if a.id[y][x].x != id {
            assert(s[y][x] == t[y][x]);
        }
    }
}

proof fn same_taps<F: Fn(Op, u64, u64) -> u64>(
    f: F,
    a: FilmView,
    b: FilmView,
    s: Seq<Seq<Vec3>>,
    t: Seq<Seq<Vec3>>,
    id: u64,
    own: u64,
    rows: Seq<Place>,
    columns: Seq<Place>,
    w: int,
    h: int,
)
    requires
        alike_but(a, b, id),
        same_outside(a, s, t, w, h, id),
        is_absent(a, id) || apart(f, id, own),
        h == a.beauty.len(),
        w == a.beauty[0].len(),
        forall|k: int| 0 <= k < rows.len() ==> (#[trigger] rows[k]).at < h,
        forall|k: int| 0 <= k < columns.len() ==> (#[trigger] columns[k]).at < w,
    ensures
        all_taps(f, a, s, own, rows, columns) == all_taps(f, b, t, own, rows, columns),
    decreases rows.len(),
{
    if rows.len() > 0 {
        assert forall|k: int| 0 <= k < rows.drop_last().len() implies (#[trigger] rows.drop_last()[k]).at
            < h by {
            assert(rows.drop_last()[k] == rows[k]);
        }
        same_taps(f, a, b, s, t, id, own, rows.drop_last(), columns, w, h);
        same_row_taps(f, a, b, s, t, id, own, rows.last(), columns, w, h);
    }
}

proof fn same_passes<F: Fn(Op, u64, u64) -> u64>(f: F, a: FilmView, b: FilmView, w: nat, h: nat, scale: u64, id: u64, n: nat)
    requires
        alike_but(a, b, id),
        tells_objects(f, a),
        w <= usize::MAX,
        h <= usize::MAX,
        h == a.beauty.len() && h > 0,
        w == a.beauty[0].len(),
        n <= ITERATIONS,
    ensures
        ({
            let s = passes(f, a, illumination(f, a, w, h), w, h, scale, n);
            let t = passes(f, b, illumination(f, b, w, h), w, h, scale, n);
            forall|y: int, x: int|
                0 <= y < h && 0 <= x < w && a.id[y][x].x != id ==> #[trigger] s[y][x] == t[y][x]
        }),
    decreases n,
{
    let (p, q) = (illumination(f, a, w, h), illumination(f, b, w, h));
    if n > 0 {
        same_passes(f, a, b, w, h, scale, id, (n - 1) as nat);
        let s = passes(f, a, p, w, h, scale, (n - 1) as nat);
        let t = passes(f, b, q, w, h, scale, (n - 1) as nat);
        let (u, v) = (passes(f, a, p, w, h, scale, n), passes(f, b, q, w, h, scale, n));
        assert forall|y: int, x: int|
            0 <= y < h && 0 <= x < w && a.id[y][x].x != id implies #[trigger] u[y][x] == v[y][x] by {
            let own = a.id[y][x].x;
            let step = step_of(n - 1);
            places_are_inside(y, h as int, step, 5);
            places_are_inside(x, w as int, step, 5);
            assert(is_absent(a, id) || apart(f, id, own)) by {
                if !is_absent(a, id) {
                    let (v, u) = choose|v: int, u: int|
                        is_inside(a, v, u) && (#[trigger] a.id[v][u]).x == id;
                    assert(is_inside(a, y, x));
                    assert(apart(f, a.id[v][u].x, a.id[y][x].x));
                }
            }
            same_taps(
                f,
                a,
                b,
                s,
                t,
                id,
                own,
                places(y, h as int, step, 5),
                places(x, w as int, step, 5),
                w as int,
                h as int,
            );
            assert(s[y][x] == t[y][x]);
        }
    } else {
        assert forall|y: int, x: int|
            0 <= y < h && 0 <= x < w && a.id[y][x].x != id implies #[trigger] p[y][x] == q[y][x] by {
            assert(is_inside(a, y, x));
            assert(a.diffuse[y][x] == b.diffuse[y][x]);
        }
    }
}

/// What is denoised of an object does not depend on the light of another: films that differ
/// only in the diffuse light of one object give the same pixels outside it.
pub proof fn objects_stay_apart<F: Fn(Op, u64, u64) -> u64>(
    f: F,
    a: FilmView,
    b: FilmView,
    r: Seq<Seq<Vec3>>,
    t: Seq<Seq<Vec3>>,
    id: u64,
    y: int,
    x: int,
)
    requires
        alike_but(a, b, id),
        tells_objects(f, a),
        is_denoised(f, a, r),
        is_denoised(f, b, t),
        a.beauty.len() <= usize::MAX,
        a.beauty[0].len() <= usize::MAX,
        is_inside(a, y, x),
        a.id[y][x].x != id,
    ensures
        r[y][x] == t[y][x],
{
    let (w, h) = (a.beauty[0].len(), a.beauty.len());
    let depths = positive_depths(a.depth);
    let scale = choose|scale: u64| #[trigger]
        is_depth_scale(depths, scale) && r == picture(f, a, scale);
    let other = choose|scale: u64| #[trigger]
        is_depth_scale(depths, scale) && t == picture(f, b, scale);
    depth_scale_is_settled(depths, scale, other);
    same_passes(f, a, b, w, h, scale, id, ITERATIONS as nat);
    let s = passes(f, a, illumination(f, a, w, h), w, h, scale, ITERATIONS as nat);
    assert(s[y][x] == passes(f, b, illumination(f, b, w, h), w, h, scale, ITERATIONS as nat)[y][x]);
}

/// A denoised picture has the size of its film.
pub proof fn size_is_kept<F: Fn(Op, u64, u64) -> u64>(f: F, film: FilmView, r: Seq<Seq<Vec3>>)
    requires
        is_denoised(f, film, r),
    ensures
        r.len() == film.beauty.len(),
        forall|y: int|
            0 <= y < r.len() && film.beauty[0].len() > 0 ==> (#[trigger] r[y]).len()
                == film.beauty[0].len(),
{
}

/// The pixels of a layer in single precision, three numbers each, row by row.
pub open spec fn packed(rows: Seq<Seq<Vec3>>) -> Seq<u32>
    decreases rows.len(),
{
    if rows.len() == 0 {
        seq![]
    } else {
        packed(rows.drop_last()) + packed_row(rows.last())
    }
}

pub open spec fn packed_row(row: Seq<Vec3>) -> Seq<u32>
    decreases row.len(),
{
    if row.len() == 0 {
        seq![]
    } else {
        packed_row(row.drop_last()) + seq![
            double::narrowed(row.last().x),
            double::narrowed(row.last().y),
            double::narrowed(row.last().z),
        ]
    }
}

/// The pixels of a layer in single precision, as an outside denoiser takes them.
pub fn pack(image: &Vec<Vec<Vec3>>) -> (r: Vec<u32>)
    ensures
        r@ == packed(film::image_views(image@)),
{
    let ghost all = film::image_views(image@);
    let h: usize = image.len();
    let mut out: Vec<u32> = Vec::new();
    let mut y: usize = 0;
    assert(all.take(0).len() == 0);
    while y < h
        invariant
            y <= h == image@.len(),
            all == film::image_views(image@),
            out@ == packed(all.take(y as int)),
        decreases h - y,
    {
        let row: &Vec<Vec3> = &image[y];
        let w: usize = row.len();
        let ghost before = out@;
        let mut x: usize = 0;
        assert(row@.take(0).len() == 0);
        assert(out@ =~= before + packed_row(row@.take(0)));
        while x < w
            invariant
                x <= w == row@.len(),
                out@ == before + packed_row(row@.take(x as int)),
            decreases w - x,
        {
            let p: Vec3 = row[x];
            out.push(double::narrow(p.x));
            out.push(double::narrow(p.y));
            out.push(double::narrow(p.z));
            proof {
                assert(row@.take(x + 1).drop_last() =~= row@.take(x as int));
                assert(row@.take(x + 1).last() == p);
                assert(out@ =~= before + packed_row(row@.take(x + 1)));
            }
            x += 1;
        }
        proof {
            assert(row@.take(w as int) =~= row@);
            assert(all[y as int] == row@);
            assert(all.take(y + 1).drop_last() =~= all.take(y as int));
            assert(all.take(y + 1).last() == row@);
        }
        y += 1;
    }
    assert(all.take(h as int) =~= all);
    out
}

} // verus!
