//! Accumulation of samples. Each sample of a pixel has its own generator, so which
//! machine takes which samples, and in which passes, changes none of them.

use crate::double;
use crate::math::{Vec3, ZERO};
use crate::output::film;
use crate::output::film::{Film, FilmView};
use crate::raytracer::pt::sampler;
use crate::raytracer::pt::sampler::Pcg32;
use vstd::prelude::*;

verus! {

/// What tracing gives for a pixel and a generator.
pub open spec fn traced<V, T: Fn(usize, usize, Pcg32) -> V>(
    trace: T,
    x: usize,
    y: usize,
    rng: Pcg32,
) -> V {
    choose|v: V| trace.ensures((x, y, rng), v)
}

/// What adding a sample gives.
pub open spec fn added<A, V, F: Fn(A, V) -> A>(add_sample: F, a: A, v: V) -> A {
    choose|r: A| add_sample.ensures((a, v), r)
}

/// Whether a pixel needs no more samples.
pub open spec fn settled<A, P: Fn(A, u32) -> bool>(done: P, a: A, n: u32) -> bool {
    choose|r: bool| done.ensures((a, n), r)
}

/// Tracing and adding have one result each.
pub open spec fn is_sampling<V, A, T: Fn(usize, usize, Pcg32) -> V, F: Fn(A, V) -> A>(
    trace: T,
    add_sample: F,
) -> bool {
    &&& forall|x: usize, y: usize, rng: Pcg32| #[trigger] trace.requires((x, y, rng))
    &&& forall|x: usize, y: usize, rng: Pcg32, r: V, s: V| #[trigger]
        trace.ensures((x, y, rng), r) && #[trigger] trace.ensures((x, y, rng), s) ==> r == s
    &&& forall|a: A, v: V| #[trigger] add_sample.requires((a, v))
    &&& forall|a: A, v: V, r: A, s: A| #[trigger]
        add_sample.ensures((a, v), r) && #[trigger] add_sample.ensures((a, v), s) ==> r == s
}

/// The test has one result.
pub open spec fn is_test<A, P: Fn(A, u32) -> bool>(done: P) -> bool {
    &&& forall|a: A, n: u32| #[trigger] done.requires((a, n))
    &&& forall|a: A, n: u32, r: bool, s: bool| #[trigger]
        done.ensures((a, n), r) && #[trigger] done.ensures((a, n), s) ==> r == s
}

/// The number of a pixel, row by row.
pub open spec fn pixel_index(x: usize, y: usize, width: usize) -> u64 {
    (y * width + x) as u64
}

/// The samples `[from, to)` of a pixel added up in their order.
pub open spec fn gathered<V, A, T: Fn(usize, usize, Pcg32) -> V, F: Fn(A, V) -> A>(
    trace: T,
    add_sample: F,
    start: A,
    x: usize,
    y: usize,
    width: usize,
    from: int,
    to: int,
) -> A
    decreases to - from,
{
    if to <= from {
        start
    } else {
        let rng = sampler::sample_rng(pixel_index(x, y, width), (to - 1) as u64);
        added(
            add_sample,
            gathered(trace, add_sample, start, x, y, width, from, to - 1),
            traced(trace, x, y, rng),
        )
    }
}

/// Add up the samples `[from, to)` of a pixel.
pub fn gather_pixel<V, A, T: Fn(usize, usize, Pcg32) -> V, F: Fn(A, V) -> A>(
    trace: &T,
    add_sample: &F,
    start: A,
    x: usize,
    y: usize,
    width: usize,
    from: u32,
    to: u32,
) -> (r: A)
    requires
        is_sampling(*trace, *add_sample),
        y * width + x <= usize::MAX,
    ensures
        r == gathered(*trace, *add_sample, start, x, y, width, from as int, to as int),
{
    let pixel: u64 = pixel_number(x, y, width);
    let mut sum: A = start;
    let mut s: u32 = from;
    while s < to
        invariant
            is_sampling(*trace, *add_sample),
            from <= s,
            s <= to || s == from,
            pixel == pixel_index(x, y, width),
            sum == gathered(*trace, *add_sample, start, x, y, width, from as int, s as int),
        decreases to - s,
    {
        let rng: Pcg32 = Pcg32::for_pixel_sample(pixel, s as u64);
        let ghost before = sum;
        let v: V = trace(x, y, rng);
        proof {
            assert(trace.ensures((x, y, rng), v));
        }
        let ghost value = v;
        sum = add_sample(sum, v);
        assert(add_sample.ensures((before, value), sum));
        s += 1;
    }
    sum
}

fn pixel_number(x: usize, y: usize, width: usize) -> (r: u64)
    requires
        y * width + x <= usize::MAX,
    ensures
        r == pixel_index(x, y, width),
{
    assert(0 <= y * width <= usize::MAX) by (nonlinear_arith)
        requires
            y * width + x <= usize::MAX,
            x >= 0,
            y >= 0,
            width >= 0,
    ;
    (y * width + x) as u64
}

/// A row of pixels, each with the samples `[from, to)`.
pub fn gather_row<V, A: Copy, T: Fn(usize, usize, Pcg32) -> V, F: Fn(A, V) -> A>(
    trace: &T,
    add_sample: &F,
    start: A,
    y: usize,
    width: usize,
    from: u32,
    to: u32,
) -> (r: Vec<A>)
    requires
        is_sampling(*trace, *add_sample),
        (y + 1) * width <= usize::MAX,
    ensures
        r@.len() == width,
        forall|x: int|
            0 <= x < width ==> #[trigger] r@[x] == gathered(
                *trace,
                *add_sample,
                start,
                x as usize,
                y,
                width,
                from as int,
                to as int,
            ),
{
    let mut row: Vec<A> = Vec::new();
    let mut x: usize = 0;
    while x < width
        invariant
            is_sampling(*trace, *add_sample),
            (y + 1) * width <= usize::MAX,
            x <= width,
            row@.len() == x,
            forall|k: int|
                0 <= k < x ==> #[trigger] row@[k] == gathered(
                    *trace,
                    *add_sample,
                    start,
                    k as usize,
                    y,
                    width,
                    from as int,
                    to as int,
                ),
        decreases width - x,
    {
        assert(y * width + x <= usize::MAX) by (nonlinear_arith)
            requires
                (y + 1) * width <= usize::MAX,
                x < width,
        ;
        row.push(gather_pixel(trace, add_sample, start, x, y, width, from, to));
        x += 1;
    }
    row
}

/// Samples before a pixel is first tested, and between tests.
pub const WARMUP: u32 = 32;

pub const CHECK_EVERY: u32 = 16;

/// Whether a pixel is tested after `n` samples.
pub open spec fn is_checked(n: int) -> bool {
    n >= WARMUP && n % (CHECK_EVERY as int) == 0
}

/// Samples of a pixel from the `n`th on, until it is settled or `most` are taken: their
/// sum and how many there are.
pub open spec fn adapted<
    V,
    A,
    T: Fn(usize, usize, Pcg32) -> V,
    F: Fn(A, V) -> A,
    P: Fn(A, u32) -> bool,
>(
    trace: T,
    add_sample: F,
    done: P,
    sum: A,
    x: usize,
    y: usize,
    width: usize,
    n: int,
    most: int,
) -> (A, int)
    decreases most - n,
{
    if n >= most {
        (sum, n)
    } else {
        let rng = sampler::sample_rng(pixel_index(x, y, width), n as u64);
        let next = added(add_sample, sum, traced(trace, x, y, rng));
        if is_checked(n + 1) && settled(done, next, (n + 1) as u32) {
            (next, n + 1)
        } else {
            adapted(trace, add_sample, done, next, x, y, width, n + 1, most)
        }
    }
}

/// Sample a pixel until it is settled: at least once, at most `max_spp` times.
pub fn adapt_pixel<
    V,
    A: Copy,
    T: Fn(usize, usize, Pcg32) -> V,
    F: Fn(A, V) -> A,
    P: Fn(A, u32) -> bool,
>(
    trace: &T,
    add_sample: &F,
    done: &P,
    start: A,
    x: usize,
    y: usize,
    width: usize,
    max_spp: u32,
) -> (r: (A, u32))
    requires
        is_sampling(*trace, *add_sample),
        is_test(*done),
        y * width + x <= usize::MAX,
    ensures
        (r.0, r.1 as int) == adapted(
            *trace,
            *add_sample,
            *done,
            start,
            x,
            y,
            width,
            0,
            if max_spp == 0 {
                1
            } else {
                max_spp as int
            },
        ),
        1 <= r.1,
        max_spp > 0 ==> r.1 <= max_spp,
{
    let pixel: u64 = pixel_number(x, y, width);
    let most: u32 = if max_spp == 0 {
        1
    } else {
        max_spp
    };
    let mut sum: A = start;
    let mut n: u32 = 0;
    while n < most
        invariant
            is_sampling(*trace, *add_sample),
            is_test(*done),
            n <= most,
            pixel == pixel_index(x, y, width),
            adapted(*trace, *add_sample, *done, start, x, y, width, 0, most as int) == adapted(
                *trace,
                *add_sample,
                *done,
                sum,
                x,
                y,
                width,
                n as int,
                most as int,
            ),
            most == if max_spp == 0 {
                1
            } else {
                max_spp
            },
        decreases most - n,
    {
        let rng: Pcg32 = Pcg32::for_pixel_sample(pixel, n as u64);
        let ghost before = sum;
        let v: V = trace(x, y, rng);
        assert(trace.ensures((x, y, rng), v));
        let ghost value = v;
        sum = add_sample(sum, v);
        assert(add_sample.ensures((before, value), sum));
        n += 1;
        if n >= WARMUP && n % CHECK_EVERY == 0 {
            let enough: bool = done(sum, n);
            assert(done.ensures((sum, n), enough));
            if enough {
                return (sum, n);
            }
        }
    }
    (sum, n)
}

/// What the samples of a pixel come to.
#[derive(Clone, Copy, Debug, PartialEq, Eq, Structural)]
pub struct PixelRecord {
    pub beauty: Vec3,
    pub diffuse: Vec3,
    pub specular: Vec3,
    pub albedo: Vec3,
    pub normal: Vec3,
    pub depth: u64,
    pub id: u32,
    pub coverage: u64,
}

/// The number as a double.
pub open spec fn id_double(id: u32) -> u64 {
    double::dyadic(id as int, 0)
}

/// The layers of a film.
#[derive(Clone, Copy, Debug, PartialEq, Eq, Structural)]
pub enum Layer {
    Beauty,
    Diffuse,
    Specular,
    Albedo,
    Normal,
    Depth,
    Id,
}

/// What a record says for a layer.
pub open spec fn shown(layer: Layer, p: PixelRecord) -> Vec3 {
    match layer {
        Layer::Beauty => p.beauty,
        Layer::Diffuse => p.diffuse,
        Layer::Specular => p.specular,
        Layer::Albedo => p.albedo,
        Layer::Normal => p.normal,
        Layer::Depth => Vec3::of(p.depth, ZERO, ZERO),
        Layer::Id => Vec3::of(id_double(p.id), p.coverage, ZERO),
    }
}

fn show(layer: Layer, p: &PixelRecord) -> (r: Vec3)
    ensures
        r == shown(layer, *p),
{
    match layer {
        Layer::Beauty => p.beauty,
        Layer::Diffuse => p.diffuse,
        Layer::Specular => p.specular,
        Layer::Albedo => p.albedo,
        Layer::Normal => p.normal,
        Layer::Depth => Vec3::new(p.depth, ZERO, ZERO),
        Layer::Id => Vec3::new(double::dyadic_double(p.id as i64, 0), p.coverage, ZERO),
    }
}

/// The rows of a layer.
pub open spec fn layer_rows(layer: Layer, rows: Seq<Vec<PixelRecord>>) -> Seq<Seq<Vec3>> {
    Seq::new(
        rows.len(),
        |y: int| Seq::new(rows[y]@.len(), |x: int| shown(layer, rows[y]@[x])),
    )
}

fn layer_of(layer: Layer, rows: &Vec<Vec<PixelRecord>>) -> (r: Vec<Vec<Vec3>>)
    ensures
        film::image_views(r@) == layer_rows(layer, rows@),
{
    let ghost all = layer_rows(layer, rows@);
    let h: usize = rows.len();
    let mut out: Vec<Vec<Vec3>> = Vec::new();
    let mut y: usize = 0;
    while y < h
        invariant
            y <= h == rows@.len(),
            all == layer_rows(layer, rows@),
            out@.len() == y,
            forall|k: int| 0 <= k < y ==> (#[trigger] out@[k])@ == all[k],
        decreases h - y,
    {
        let row: &Vec<PixelRecord> = &rows[y];
        let w: usize = row.len();
        let mut line: Vec<Vec3> = Vec::new();
        let mut x: usize = 0;
        while x < w
            invariant
                x <= w == row@.len(),
                line@.len() == x,
                forall|k: int| 0 <= k < x ==> #[trigger] line@[k] == shown(layer, row@[k]),
            decreases w - x,
        {
            line.push(show(layer, &row[x]));
            x += 1;
        }
        assert(line@ =~= all[y as int]);
        out.push(line);
        y += 1;
    }
    assert(film::image_views(out@) =~= all);
    out
}

/// The film of rows of pixel records: each layer holds what the records say for it;
/// scalar layers live in x.
pub fn assemble(rows: &Vec<Vec<PixelRecord>>, manifest: Vec<(u32, String)>) -> (r: Film)
    ensures
        r@ == (FilmView {
            beauty: layer_rows(Layer::Beauty, rows@),
            diffuse: layer_rows(Layer::Diffuse, rows@),
            specular: layer_rows(Layer::Specular, rows@),
            albedo: layer_rows(Layer::Albedo, rows@),
            normal: layer_rows(Layer::Normal, rows@),
            depth: layer_rows(Layer::Depth, rows@),
            id: layer_rows(Layer::Id, rows@),
            manifest: film::manifest_views(manifest@),
        }),
{
    Film {
        beauty: layer_of(Layer::Beauty, rows),
        diffuse: layer_of(Layer::Diffuse, rows),
        specular: layer_of(Layer::Specular, rows),
        albedo: layer_of(Layer::Albedo, rows),
        normal: layer_of(Layer::Normal, rows),
        depth: layer_of(Layer::Depth, rows),
        id: layer_of(Layer::Id, rows),
        manifest,
    }
}

// ---- laws ------------------------------------------------------------------

/// Samples taken in two passes, the second going on where the first stopped, add up to
/// what one pass gives.
pub proof fn passes_join<V, A, T: Fn(usize, usize, Pcg32) -> V, F: Fn(A, V) -> A>(
    trace: T,
    add_sample: F,
    start: A,
    x: usize,
    y: usize,
    width: usize,
    a: int,
    b: int,
    c: int,
)
    requires
        a <= b <= c,
    ensures
        gathered(trace, add_sample, start, x, y, width, a, c) == gathered(
            trace,
            add_sample,
            gathered(trace, add_sample, start, x, y, width, a, b),
            x,
            y,
            width,
            b,
            c,
        ),
    decreases c - b,
{
    if c > b {
        passes_join(trace, add_sample, start, x, y, width, a, b, c - 1);
    }
}

} // verus!
