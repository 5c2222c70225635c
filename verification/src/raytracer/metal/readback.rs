//! What is read back from the GPU: images, sums and weights from the accumulation, and
//! the layers of a film from the auxiliary buffer.

use crate::arith;
use crate::arith::{computes, minus, over, times, Op};
use crate::double;
use crate::math::{Vec3, ONE, ZERO};
use crate::output::film;
use crate::output::film::{Film, FilmView};
use vstd::prelude::*;

verus! {

// ---- the accumulation ------------------------------------------------------

/// A pixel of an accumulation: three sums and a weight.
pub open spec fn accum_pixel(data: Seq<u32>, i: int) -> Vec3 {
    Vec3::of(
        double::widened(data[4 * i]),
        double::widened(data[4 * i + 1]),
        double::widened(data[4 * i + 2]),
    )
}

/// The sums of an accumulation as an image.
pub open spec fn accum_image(data: Seq<u32>, w: nat, h: nat) -> Seq<Seq<Vec3>> {
    Seq::new(h, |y: int| Seq::new(w, |x: int| accum_pixel(data, y * w + x)))
}

/// The weights of an accumulation.
pub open spec fn accum_weights(data: Seq<u32>, w: nat, h: nat) -> Seq<Seq<u64>> {
    Seq::new(h, |y: int| Seq::new(w, |x: int| double::widened(data[4 * (y * w + x) + 3])))
}

/// The rows of weights.
pub open spec fn weight_views(v: Seq<Vec<u64>>) -> Seq<Seq<u64>> {
    v.map_values(|row: Vec<u64>| row@)
}

/// Raw accumulation: per-pixel radiance sums and sample weights.
pub fn sum_and_weight(data: &Vec<u32>, w: usize, h: usize) -> (r: (Vec<Vec<Vec3>>, Vec<Vec<u64>>))
    requires
        data@.len() == 4 * (w * h),
    ensures
        film::image_views(r.0@) == accum_image(data@, w as nat, h as nat),
        weight_views(r.1@) == accum_weights(data@, w as nat, h as nat),
{
    let total: usize = data.len();
    let ghost sums_model = accum_image(data@, w as nat, h as nat);
    let ghost weights_model = accum_weights(data@, w as nat, h as nat);
    let mut sums: Vec<Vec<Vec3>> = Vec::new();
    let mut weights: Vec<Vec<u64>> = Vec::new();
    let mut y: usize = 0;
    let mut base: usize = 0;
    assert(0 * w == 0) by (nonlinear_arith);
    while y < h
        invariant
            y <= h,
            total == data@.len() == 4 * (w * h),
            base == y * w,
            sums_model == accum_image(data@, w as nat, h as nat),
            weights_model == accum_weights(data@, w as nat, h as nat),
            sums@.len() == y,
            weights@.len() == y,
            forall|k: int| 0 <= k < y ==> (#[trigger] sums@[k])@ == sums_model[k],
            forall|k: int| 0 <= k < y ==> (#[trigger] weights@[k])@ == weights_model[k],
        decreases h - y,
    {
        assert(base + w <= w * h) by (nonlinear_arith)
            requires
                base == y * w,
                y < h,
        ;
        let mut row: Vec<Vec3> = Vec::new();
        let mut line: Vec<u64> = Vec::new();
        let mut x: usize = 0;
        while x < w
            invariant
                x <= w,
                total == data@.len() == 4 * (w * h),
                base == y * w,
                base + w <= w * h,
                row@.len() == x,
                line@.len() == x,
                forall|k: int| 0 <= k < x ==> #[trigger] row@[k] == accum_pixel(data@, y * w + k),
                forall|k: int|
                    0 <= k < x ==> #[trigger] line@[k] == double::widened(
                        data@[4 * (y * w + k) + 3],
                    ),
            decreases w - x,
        {
            let i: usize = 4 * (base + x);
            row.push(
                Vec3::new(
                    double::widen(data[i]),
                    double::widen(data[i + 1]),
                    double::widen(data[i + 2]),
                ),
            );
            line.push(double::widen(data[i + 3]));
            x += 1;
        }
        proof {
            assert(row@ =~= sums_model[y as int]);
            assert(line@ =~= weights_model[y as int]);
            assert((y + 1) * w == y * w + w) by (nonlinear_arith);
        }
        sums.push(row);
        weights.push(line);
        base += w;
        y += 1;
    }
    proof {
        assert(film::image_views(sums@) =~= sums_model);
        assert(weight_views(weights@) =~= weights_model);
    }
    (sums, weights)
}

/// One, in single precision.
pub const ONE_SINGLE: u32 = 0x3f80_0000;

/// The quotient of two single-precision numbers.
pub open spec fn quotient<D: Fn(u32, u32) -> u32>(over: D, a: u32, b: u32) -> u32 {
    choose|r: u32| over.ensures((a, b), r)
}

/// Every pair of single-precision numbers has one result.
pub open spec fn divides<D: Fn(u32, u32) -> u32>(over: D) -> bool {
    &&& forall|a: u32, b: u32| #[trigger] over.requires((a, b))
    &&& forall|a: u32, b: u32, r: u32, s: u32| #[trigger]
        over.ensures((a, b), r) && #[trigger] over.ensures((a, b), s) ==> r == s
}

/// What sums are divided by: the weight, but at least one.
pub open spec fn divisor(weight: u32) -> u32 {
    if double::below(ONE, double::widened(weight)) {
        weight
    } else {
        ONE_SINGLE
    }
}

/// A pixel of the image so far: its sums over its weight.
pub open spec fn mean_pixel<D: Fn(u32, u32) -> u32>(over: D, data: Seq<u32>, i: int) -> Vec3 {
    let d = divisor(data[4 * i + 3]);
    Vec3::of(
        double::widened(quotient(over, data[4 * i], d)),
        double::widened(quotient(over, data[4 * i + 1], d)),
        double::widened(quotient(over, data[4 * i + 2], d)),
    )
}

/// The image so far.
pub open spec fn mean_image<D: Fn(u32, u32) -> u32>(
    over: D,
    data: Seq<u32>,
    w: nat,
    h: nat,
) -> Seq<Seq<Vec3>> {
    Seq::new(h, |y: int| Seq::new(w, |x: int| mean_pixel(over, data, y * w + x)))
}

fn divide<D: Fn(u32, u32) -> u32>(over: &D, a: u32, b: u32) -> (r: u32)
    requires
        divides(*over),
    ensures
        r == quotient(*over, a, b),
{
    over(a, b)
}

/// The accumulated image so far.
pub fn image<D: Fn(u32, u32) -> u32>(data: &Vec<u32>, w: usize, h: usize, over: &D) -> (r: Vec<
    Vec<Vec3>,
>)
    requires
        data@.len() == 4 * (w * h),
        divides(*over),
    ensures
        film::image_views(r@) == mean_image(*over, data@, w as nat, h as nat),
{
    let ghost model = mean_image(*over, data@, w as nat, h as nat);
    let total: usize = data.len();
    let mut out: Vec<Vec<Vec3>> = Vec::new();
    let mut y: usize = 0;
    let mut base: usize = 0;
    assert(0 * w == 0) by (nonlinear_arith);
    while y < h
        invariant
            y <= h,
            total == data@.len() == 4 * (w * h),
            divides(*over),
            base == y * w,
            model == mean_image(*over, data@, w as nat, h as nat),
            out@.len() == y,
            forall|k: int| 0 <= k < y ==> (#[trigger] out@[k])@ == model[k],
        decreases h - y,
    {
        assert(base + w <= w * h) by (nonlinear_arith)
            requires
                base == y * w,
                y < h,
        ;
        let mut row: Vec<Vec3> = Vec::new();
        let mut x: usize = 0;
        while x < w
            invariant
                x <= w,
                total == data@.len() == 4 * (w * h),
                divides(*over),
                base == y * w,
                base + w <= w * h,
                row@.len() == x,
                forall|k: int|
                    0 <= k < x ==> #[trigger] row@[k] == mean_pixel(*over, data@, y * w + k),
            decreases w - x,
        {
            let i: usize = 4 * (base + x);
            let weight: u32 = data[i + 3];
            let d: u32 = if double::less(ONE, double::widen(weight)) {
                weight
            } else {
                ONE_SINGLE
            };
            row.push(
                Vec3::new(
                    double::widen(divide(over, data[i], d)),
                    double::widen(divide(over, data[i + 1], d)),
                    double::widen(divide(over, data[i + 2], d)),
                ),
            );
            x += 1;
        }
        proof {
            assert(row@ =~= model[y as int]);
            assert((y + 1) * w == y * w + w) by (nonlinear_arith);
        }
        out.push(row);
        base += w;
        y += 1;
    }
    assert(film::image_views(out@) =~= model);
    out
}

// ---- the auxiliary buffer --------------------------------------------------

/// The layers of a pixel besides its color.
#[derive(Clone, Copy, Debug, PartialEq, Eq, Structural)]
pub struct AuxPixel {
    pub diffuse: Vec3,
    pub specular: Vec3,
    pub albedo: Vec3,
    pub normal: Vec3,
    pub depth: Vec3,
    pub id: Vec3,
}

/// A number of the auxiliary buffer.
pub open spec fn aux_number(aux: Seq<u32>, p: int) -> u64 {
    double::widened(aux[p])
}

/// Three numbers of the auxiliary buffer, scaled.
pub open spec fn scaled_three<F: Fn(Op, u64, u64) -> u64>(
    f: F,
    aux: Seq<u32>,
    p: int,
    scale: u64,
) -> Vec3 {
    Vec3::of(
        arith::product(f, aux_number(aux, p), scale),
        arith::product(f, aux_number(aux, p + 1), scale),
        arith::product(f, aux_number(aux, p + 2), scale),
    )
}

/// What is left of a color once its diffuse part is taken out, and no less than nothing.
pub open spec fn left_over<F: Fn(Op, u64, u64) -> u64>(f: F, a: u64, b: u64) -> u64 {
    let rest = arith::difference(f, a, b);
    if double::below(ZERO, rest) {
        rest
    } else {
        ZERO
    }
}

/// The layers of pixel `i`, whose twelve numbers are albedo, normal, depth, id, diffuse
/// and hits: sums over the samples are scaled by one over their number,
/// depth is the mean over the samples that hit, coverage is at most one, and specular is
/// what diffuse leaves of the color.
pub open spec fn aux_pixel<F: Fn(Op, u64, u64) -> u64>(
    f: F,
    color: Vec3,
    aux: Seq<u32>,
    i: int,
    scale: u64,
) -> AuxPixel {
    let p = 12 * i;
    let hits = aux_number(aux, p + 11);
    let covered = arith::product(f, hits, scale);
    let diffuse = scaled_three(f, aux, p + 8, scale);
    AuxPixel {
        diffuse,
        specular: Vec3::of(
            left_over(f, color.x, diffuse.x),
            left_over(f, color.y, diffuse.y),
            left_over(f, color.z, diffuse.z),
        ),
        albedo: scaled_three(f, aux, p, scale),
        normal: scaled_three(f, aux, p + 3, scale),
        depth: Vec3::of(
            if double::below(ZERO, hits) {
                arith::quotient(f, aux_number(aux, p + 6), hits)
            } else {
                ZERO
            },
            ZERO,
            ZERO,
        ),
        id: Vec3::of(
            aux_number(aux, p + 7),
            if double::below(covered, ONE) {
                covered
            } else {
                ONE
            },
            ZERO,
        ),
    }
}

fn scale_three<F: Fn(Op, u64, u64) -> u64>(f: &F, aux: &Vec<u32>, p: usize, scale: u64) -> (r: Vec3)
    requires
        computes(*f),
        p + 3 <= aux@.len(),
    ensures
        r == scaled_three(*f, aux@, p as int, scale),
{
    let total: usize = aux.len();
    Vec3::new(
        times(f, double::widen(aux[p]), scale),
        times(f, double::widen(aux[p + 1]), scale),
        times(f, double::widen(aux[p + 2]), scale),
    )
}

fn leave<F: Fn(Op, u64, u64) -> u64>(f: &F, a: u64, b: u64) -> (r: u64)
    requires
        computes(*f),
    ensures
        r == left_over(*f, a, b),
{
    let rest: u64 = minus(f, a, b);
    if double::less(ZERO, rest) {
        rest
    } else {
        ZERO
    }
}

fn read_pixel<F: Fn(Op, u64, u64) -> u64>(
    f: &F,
    color: Vec3,
    aux: &Vec<u32>,
    i: usize,
    scale: u64,
) -> (r: AuxPixel)
    requires
        computes(*f),
        12 * i + 12 <= aux@.len(),
    ensures
        r == aux_pixel(*f, color, aux@, i as int, scale),
{
    let total: usize = aux.len();
    let p: usize = 12 * i;
    let hits: u64 = double::widen(aux[p + 11]);
    let covered: u64 = times(f, hits, scale);
    let diffuse: Vec3 = scale_three(f, aux, p + 8, scale);
    let depth: u64 = if double::less(ZERO, hits) {
        over(f, double::widen(aux[p + 6]), hits)
    } else {
        ZERO
    };
    let coverage: u64 = if double::less(covered, ONE) {
        covered
    } else {
        ONE
    };
    AuxPixel {
        diffuse,
        specular: Vec3::new(
            leave(f, color.x, diffuse.x),
            leave(f, color.y, diffuse.y),
            leave(f, color.z, diffuse.z),
        ),
        albedo: scale_three(f, aux, p, scale),
        normal: scale_three(f, aux, p + 3, scale),
        depth: Vec3::new(depth, ZERO, ZERO),
        id: Vec3::new(double::widen(aux[p + 7]), coverage, ZERO),
    }
}

/// The layers besides the color.
#[derive(Clone, Copy, Debug, PartialEq, Eq, Structural)]
pub enum AuxLayer {
    Diffuse,
    Specular,
    Albedo,
    Normal,
    Depth,
    Id,
}

/// What a pixel has in a layer.
pub open spec fn in_layer(layer: AuxLayer, p: AuxPixel) -> Vec3 {
    match layer {
        AuxLayer::Diffuse => p.diffuse,
        AuxLayer::Specular => p.specular,
        AuxLayer::Albedo => p.albedo,
        AuxLayer::Normal => p.normal,
        AuxLayer::Depth => p.depth,
        AuxLayer::Id => p.id,
    }
}

fn pick(layer: AuxLayer, p: &AuxPixel) -> (r: Vec3)
    ensures
        r == in_layer(layer, *p),
{
    match layer {
        AuxLayer::Diffuse => p.diffuse,
        AuxLayer::Specular => p.specular,
        AuxLayer::Albedo => p.albedo,
        AuxLayer::Normal => p.normal,
        AuxLayer::Depth => p.depth,
        AuxLayer::Id => p.id,
    }
}

/// An image of `w` by `h` that has a layer of its pixels, row after row.
pub open spec fn plane(pixels: Seq<AuxPixel>, w: nat, h: nat, layer: AuxLayer) -> Seq<Seq<Vec3>> {
    Seq::new(h, |y: int| Seq::new(w, |x: int| in_layer(layer, pixels[y * w + x])))
}

fn layer_plane(pixels: &Vec<AuxPixel>, w: usize, h: usize, layer: AuxLayer) -> (r: Vec<Vec<Vec3>>)
    requires
        pixels@.len() == w * h,
    ensures
        film::image_views(r@) == plane(pixels@, w as nat, h as nat, layer),
{
    let ghost model = plane(pixels@, w as nat, h as nat, layer);
    let total: usize = pixels.len();
    let mut out: Vec<Vec<Vec3>> = Vec::new();
    let mut y: usize = 0;
    let mut base: usize = 0;
    assert(0 * w == 0) by (nonlinear_arith);
    while y < h
        invariant
            y <= h,
            total == pixels@.len() == w * h,
            base == y * w,
            model == plane(pixels@, w as nat, h as nat, layer),
            out@.len() == y,
            forall|k: int| 0 <= k < y ==> (#[trigger] out@[k])@ == model[k],
        decreases h - y,
    {
        assert(base + w <= w * h) by (nonlinear_arith)
            requires
                base == y * w,
                y < h,
        ;
        let mut row: Vec<Vec3> = Vec::new();
        let mut x: usize = 0;
        while x < w
            invariant
                x <= w,
                total == pixels@.len() == w * h,
                base == y * w,
                base + w <= w * h,
                row@.len() == x,
                forall|k: int|
                    0 <= k < x ==> #[trigger] row@[k] == in_layer(layer, pixels@[y * w + k]),
            decreases w - x,
        {
            row.push(pick(layer, &pixels[base + x]));
            x += 1;
        }
        proof {
            assert(row@ =~= model[y as int]);
            assert((y + 1) * w == y * w + w) by (nonlinear_arith);
        }
        out.push(row);
        base += w;
        y += 1;
    }
    assert(film::image_views(out@) =~= model);
    out
}

/// Whether an image has `h` rows of `w` pixels.
pub open spec fn is_image(image: Seq<Seq<Vec3>>, w: int, h: int) -> bool {
    image.len() == h && forall|y: int| 0 <= y < h ==> (#[trigger] image[y]).len() == w
}

/// The pixels of an auxiliary buffer, row after row.
pub open spec fn aux_pixels<F: Fn(Op, u64, u64) -> u64>(
    f: F,
    colors: Seq<Seq<Vec3>>,
    aux: Seq<u32>,
    w: nat,
    h: nat,
    scale: u64,
) -> Seq<AuxPixel> {
    Seq::new(
        w * h,
        |i: int|
            aux_pixel(f, colors[i / w as int][i % w as int], aux, i, scale),
    )
}

/// The film of a beauty image and the auxiliary buffer beside it. `scale` is one over the
/// number of samples.
pub fn film_of<F: Fn(Op, u64, u64) -> u64>(
    beauty: Vec<Vec<Vec3>>,
    aux: &Vec<u32>,
    w: usize,
    h: usize,
    scale: u64,
    manifest: Vec<(u32, String)>,
    f: &F,
) -> (r: Film)
    requires
        is_image(film::image_views(beauty@), w as int, h as int),
        aux@.len() == 12 * (w * h),
        computes(*f),
    ensures
        ({
            let colors = film::image_views(beauty@);
            let pixels = aux_pixels(
                *f,
                colors,
                aux@,
                w as nat,
                h as nat,
                scale,
            );
            r@ == (FilmView {
                beauty: colors,
                diffuse: plane(pixels, w as nat, h as nat, AuxLayer::Diffuse),
                specular: plane(pixels, w as nat, h as nat, AuxLayer::Specular),
                albedo: plane(pixels, w as nat, h as nat, AuxLayer::Albedo),
                normal: plane(pixels, w as nat, h as nat, AuxLayer::Normal),
                depth: plane(pixels, w as nat, h as nat, AuxLayer::Depth),
                id: plane(pixels, w as nat, h as nat, AuxLayer::Id),
                manifest: film::manifest_views(manifest@),
            })
        }),
{
    let ghost colors = film::image_views(beauty@);
    let ghost model = aux_pixels(*f, colors, aux@, w as nat, h as nat, scale);
    let total: usize = aux.len();
    let mut pixels: Vec<AuxPixel> = Vec::new();
    let mut y: usize = 0;
    assert(0 * w == 0) by (nonlinear_arith);
    while y < h
        invariant
            y <= h,
            colors == film::image_views(beauty@),
            is_image(colors, w as int, h as int),
            total == aux@.len() == 12 * (w * h),
            computes(*f),
            model == aux_pixels(*f, colors, aux@, w as nat, h as nat, scale),
            pixels@.len() == y * w,
            forall|k: int| 0 <= k < y * w ==> #[trigger] pixels@[k] == model[k],
        decreases h - y,
    {
        assert(y * w + w <= w * h) by (nonlinear_arith)
            requires
                y < h,
        ;
        let row: &Vec<Vec3> = &beauty[y];
        assert(row@ == colors[y as int]);
        let mut x: usize = 0;
        while x < w
            invariant
                x <= w,
                y < h,
                y * w + w <= w * h,
                row@ == colors[y as int],
                row@.len() == w,
                total == aux@.len() == 12 * (w * h),
                computes(*f),
                model == aux_pixels(*f, colors, aux@, w as nat, h as nat, scale),
                pixels@.len() == y * w + x,
                forall|k: int| 0 <= k < y * w + x ==> #[trigger] pixels@[k] == model[k],
            decreases w - x,
        {
            let i: usize = pixels.len();
            assert(i / w == y && i % w == x) by (nonlinear_arith)
                requires
                    i == y * w + x,
                    x < w,
            ;
            let pixel: AuxPixel = read_pixel(f, row[x], aux, i, scale);
            assert(pixel == model[i as int]);
            pixels.push(pixel);
            x += 1;
        }
        assert((y + 1) * w == y * w + w) by (nonlinear_arith);
        y += 1;
    }
    assert(h * w == w * h) by (nonlinear_arith);
    assert(pixels@ =~= model);
    Film {
        diffuse: layer_plane(&pixels, w, h, AuxLayer::Diffuse),
        specular: layer_plane(&pixels, w, h, AuxLayer::Specular),
        albedo: layer_plane(&pixels, w, h, AuxLayer::Albedo),
        normal: layer_plane(&pixels, w, h, AuxLayer::Normal),
        depth: layer_plane(&pixels, w, h, AuxLayer::Depth),
        id: layer_plane(&pixels, w, h, AuxLayer::Id),
        beauty,
        manifest,
    }
}

} // verus!
