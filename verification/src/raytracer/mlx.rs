//! The wavefront renderer's outer loop: pixels are traced in chunks, each as one batch,
//! and the material table is handed over column by column.

use crate::double;
use crate::geometry::mesh;
use crate::geometry::mesh::Single3;
use crate::math::Vec3;
use crate::output::film;
use crate::raytracer::flatten::FlatMaterial;
use crate::raytracer::metal::schedule::chunk_pixels;
use vstd::prelude::*;

verus! {

/// Whether a chunk of pixels is traced, one colour for each, the same for the same chunk.
pub open spec fn is_tracer<F: Fn(usize, usize) -> Vec<Single3>>(trace: F) -> bool {
    &&& forall|start: usize, end: usize| start < end ==> #[trigger] call_requires(trace, (start, end))
    &&& forall|start: usize, end: usize, v: Vec<Single3>|
        #[trigger] call_ensures(trace, (start, end), v) ==> v@.len() == end - start
    &&& forall|start: usize, end: usize, v: Vec<Single3>, w: Vec<Single3>|
        #[trigger] call_ensures(trace, (start, end), v) && #[trigger] call_ensures(
            trace,
            (start, end),
            w,
        ) ==> v@ == w@
}

/// The colours of a chunk.
pub open spec fn chunk<F: Fn(usize, usize) -> Vec<Single3>>(
    trace: F,
    start: usize,
    end: usize,
) -> Seq<Single3> {
    (choose|v: Vec<Single3>| call_ensures(trace, (start, end), v))@
}

/// The colours of the pixels from `start` on, traced in chunks of `size`.
pub open spec fn colors_from<F: Fn(usize, usize) -> Vec<Single3>>(
    trace: F,
    start: int,
    total: int,
    size: int,
) -> Seq<Single3>
    decreases total - start,
{
    if size <= 0 || start >= total {
        seq![]
    } else {
        let end = if total - start < size {
            total
        } else {
            start + size
        };
        chunk(trace, start as usize, end as usize) + colors_from(trace, end, total, size)
    }
}

/// A colour in double precision.
pub open spec fn shown(c: Single3) -> Vec3 {
    mesh::widened3(c)
}

/// The image with these colours, row by row.
pub open spec fn image_of(colors: Seq<Single3>, width: nat, height: nat) -> Seq<Seq<Vec3>> {
    Seq::new(
        height,
        |y: int| Seq::new(width, |x: int| shown(colors[y * width + x])),
    )
}

/// Traces the pixels in chunks of so many that about a million samples are in flight.
fn trace_all<F: Fn(usize, usize) -> Vec<Single3>>(
    total: usize,
    spp: usize,
    trace: &F,
) -> (r: Vec<Single3>)
    requires
        spp >= 1,
        is_tracer(*trace),
    ensures
        r@.len() == total,
        r@ == colors_from(*trace, 0, total as int, chunk_size(spp as int)),
{
    let size: usize = chunk_pixels(spp);
    let ghost all = colors_from(*trace, 0, total as int, size as int);
    let mut out: Vec<Single3> = Vec::new();
    let mut start: usize = 0;
    assert(out@ + all =~= all);
    while start < total
        invariant
            start <= total,
            size >= 1,
            is_tracer(*trace),
            out@.len() == start,
            all == out@ + colors_from(*trace, start as int, total as int, size as int),
        decreases total - start,
    {
        let end: usize = if total - start < size {
            total
        } else {
            start + size
        };
        let mut colors: Vec<Single3> = trace(start, end);
        let ghost before = out@;
        let ghost part = colors@;
        let ghost rest = colors_from(*trace, end as int, total as int, size as int);
        assert(part == chunk(*trace, start, end));
        out.append(&mut colors);
        assert(before + (part + rest) =~= out@ + rest);
        start = end;
    }
    assert(out@ + colors_from(*trace, start as int, total as int, size as int) =~= out@);
    out
}

/// How many pixels are traced together.
pub open spec fn chunk_size(spp: int) -> int {
    if 1048576int / spp >= 1 {
        1048576int / spp
    } else {
        1
    }
}

/// The image of a scene: traced chunk by chunk, or plain background where there is
/// nothing to hit.
pub fn render<F: Fn(usize, usize) -> Vec<Single3>>(
    width: usize,
    height: usize,
    spp: usize,
    background: Single3,
    is_bare: bool,
    trace: &F,
) -> (r: Vec<Vec<Vec3>>)
    requires
        !is_bare ==> spp >= 1,
        width * height <= usize::MAX,
        is_tracer(*trace),
    ensures
        film::image_views(r@) == if is_bare {
            Seq::new(height as nat, |y: int| Seq::new(width as nat, |x: int| shown(background)))
        } else {
            image_of(
                colors_from(*trace, 0, width * height, chunk_size(spp as int)),
                width as nat,
                height as nat,
            )
        },
{
    let bg: Vec3 = Vec3::new(
        double::widen(background.x),
        double::widen(background.y),
        double::widen(background.z),
    );
    let mut colors: Vec<Single3> = Vec::new();
    if !is_bare {
        colors = trace_all(width * height, spp, trace);
    }
    let ghost want = if is_bare {
        Seq::new(height as nat, |y: int| Seq::new(width as nat, |x: int| shown(background)))
    } else {
        image_of(colors@, width as nat, height as nat)
    };
    let mut image: Vec<Vec<Vec3>> = Vec::new();
    let mut y: usize = 0;
    while y < height
        invariant
            y <= height,
            width * height <= usize::MAX,
            !is_bare ==> colors@.len() == width * height,
            bg == shown(background),
            want == if is_bare {
                Seq::new(
                    height as nat,
                    |y: int| Seq::new(width as nat, |x: int| shown(background)),
                )
            } else {
                image_of(colors@, width as nat, height as nat)
            },
            image@.len() == y,
            forall|k: int| 0 <= k < y ==> (#[trigger] image@[k])@ == want[k],
        decreases height - y,
    {
        let mut row: Vec<Vec3> = Vec::new();
        let mut x: usize = 0;
        proof {
            assert(y * width + width <= width * height) by (nonlinear_arith)
                requires
                    y + 1 <= height,
            ;
            assert(0 <= y * width) by (nonlinear_arith);
        }
        while x < width
            invariant
                x <= width,
                y < height,
                0 <= y * width,
                y * width + width <= width * height <= usize::MAX,
                !is_bare ==> colors@.len() == width * height,
                bg == shown(background),
                want == if is_bare {
                    Seq::new(
                        height as nat,
                        |y: int| Seq::new(width as nat, |x: int| shown(background)),
                    )
                } else {
                    image_of(colors@, width as nat, height as nat)
                },
                row@.len() == x,
                forall|k: int| 0 <= k < x ==> #[trigger] row@[k] == want[y as int][k],
            decreases width - x,
        {
            if is_bare {
                row.push(bg);
            } else {
                let c: Single3 = colors[y * width + x];
                row.push(
                    Vec3::new(double::widen(c.x), double::widen(c.y), double::widen(c.z)),
                );
            }
            x += 1;
        }
        assert(row@ =~= want[y as int]);
        image.push(row);
        y += 1;
    }
    assert(film::image_views(image@) =~= want);
    image
}

/// A column of the material table.
#[derive(Clone, Copy, Debug, PartialEq, Eq, Structural)]
pub enum Column {
    Red,
    Green,
    Blue,
    Ka,
    Kd,
    Ks,
    Shininess,
    Reflectivity,
}

/// The entry of a material in a column.
pub open spec fn entry(m: FlatMaterial, c: Column) -> u32 {
    match c {
        Column::Red => m.color.x,
        Column::Green => m.color.y,
        Column::Blue => m.color.z,
        Column::Ka => m.ka,
        Column::Kd => m.kd,
        Column::Ks => m.ks,
        Column::Shininess => m.shininess,
        Column::Reflectivity => m.reflectivity,
    }
}

/// A column of the material table.
pub fn column(materials: &Vec<FlatMaterial>, c: Column) -> (r: Vec<u32>)
    ensures
        r@ == materials@.map_values(|m: FlatMaterial| entry(m, c)),
{
    let n: usize = materials.len();
    let mut out: Vec<u32> = Vec::new();
    let mut i: usize = 0;
    while i < n
        invariant
            i <= n == materials@.len(),
            out@.len() == i,
            forall|k: int| 0 <= k < i ==> #[trigger] out@[k] == entry(materials@[k], c),
        decreases n - i,
    {
        let m: &FlatMaterial = &materials[i];
        out.push(
            match c {
                Column::Red => m.color.x,
                Column::Green => m.color.y,
                Column::Blue => m.color.z,
                Column::Ka => m.ka,
                Column::Kd => m.kd,
                Column::Ks => m.ks,
                Column::Shininess => m.shininess,
                Column::Reflectivity => m.reflectivity,
            },
        );
        i += 1;
    }
    assert(out@ =~= materials@.map_values(|m: FlatMaterial| entry(m, c)));
    out
}

/// Which materials are metals.
pub fn metal_column(materials: &Vec<FlatMaterial>) -> (r: Vec<bool>)
    ensures
        r@ == materials@.map_values(|m: FlatMaterial| m.is_metal),
{
    let n: usize = materials.len();
    let mut out: Vec<bool> = Vec::new();
    let mut i: usize = 0;
    while i < n
        invariant
            i <= n == materials@.len(),
            out@.len() == i,
            forall|k: int| 0 <= k < i ==> #[trigger] out@[k] == materials@[k].is_metal,
        decreases n - i,
    {
        out.push(materials[i].is_metal);
        i += 1;
    }
    assert(out@ =~= materials@.map_values(|m: FlatMaterial| m.is_metal));
    out
}

} // verus!
