//! Accumulation images for distributed rendering: a node renders a sample range and
//! keeps the raw radiance sum plus a per-pixel sample count; merging averages any number
//! of them.

use crate::double;
use crate::math::{Vec3, ZERO};
use crate::output::film;
use vstd::prelude::*;

verus! {

/// The sum of samples and how many there were, for each pixel.
#[derive(Debug)]
pub struct Accum {
    pub sum: Vec<Vec<Vec3>>,
    pub count: Vec<Vec<u64>>,
}

/// What an accumulation is.
pub struct AccumView {
    pub sum: Seq<Seq<Vec3>>,
    pub count: Seq<Seq<u64>>,
}

pub open spec fn count_views(v: Seq<Vec<u64>>) -> Seq<Seq<u64>> {
    v.map_values(|row: Vec<u64>| row@)
}

impl View for Accum {
    type V = AccumView;

    open spec fn view(&self) -> AccumView {
        AccumView { sum: film::image_views(self.sum@), count: count_views(self.count@) }
    }
}

pub open spec fn accum_views(v: Seq<Accum>) -> Seq<AccumView> {
    v.map_values(|a: Accum| a@)
}

/// Whether every row of an accumulation is `w` wide, and there are `h`.
pub open spec fn has_size(a: AccumView, w: int, h: int) -> bool {
    &&& a.sum.len() == h
    &&& a.count.len() == h
    &&& forall|y: int| 0 <= y < h ==> (#[trigger] a.sum[y]).len() == w
    &&& forall|y: int| 0 <= y < h ==> (#[trigger] a.count[y]).len() == w
}

/// A rectangle of pixels with at least one row.
pub open spec fn is_accum(a: AccumView) -> bool {
    a.sum.len() > 0 && has_size(a, a.sum[0].len() as int, a.sum.len() as int)
}

/// Why accumulations cannot be merged.
#[derive(Clone, Copy, Debug, PartialEq, Eq, Structural)]
pub enum MergeError {
    /// There is none.
    NoFiles,
    /// The one at this index has another resolution than the first.
    ResolutionMismatch(usize),
}

/// What adding two numbers gives.
pub open spec fn summed<F: Fn(u64, u64) -> u64>(f: F, a: u64, b: u64) -> u64 {
    choose|r: u64| f.ensures((a, b), r)
}

/// Every pair of numbers has one result.
pub open spec fn is_operation<F: Fn(u64, u64) -> u64>(f: F) -> bool {
    &&& forall|a: u64, b: u64| #[trigger] f.requires((a, b))
    &&& forall|a: u64, b: u64, r: u64, s: u64| #[trigger]
        f.ensures((a, b), r) && #[trigger] f.ensures((a, b), s) ==> r == s
}

/// The sum of a pixel over the first `n` accumulations.
pub open spec fn total_sum<F: Fn(u64, u64) -> u64>(
    plus: F,
    parts: Seq<AccumView>,
    n: int,
    y: int,
    x: int,
) -> Vec3
    decreases n,
{
    if n <= 1 {
        parts[0].sum[y][x]
    } else {
        let before = total_sum(plus, parts, n - 1, y, x);
        let more = parts[n - 1].sum[y][x];
        Vec3::of(
            summed(plus, before.x, more.x),
            summed(plus, before.y, more.y),
            summed(plus, before.z, more.z),
        )
    }
}

/// The sample count of a pixel over the first `n` accumulations.
pub open spec fn total_count<F: Fn(u64, u64) -> u64>(
    plus: F,
    parts: Seq<AccumView>,
    n: int,
    y: int,
    x: int,
) -> u64
    decreases n,
{
    if n <= 1 {
        parts[0].count[y][x]
    } else {
        summed(plus, total_count(plus, parts, n - 1, y, x), parts[n - 1].count[y][x])
    }
}

/// The mean of a pixel: its sum over its count, or black where there were no samples.
pub open spec fn mean<D: Fn(u64, u64) -> u64>(over: D, sum: Vec3, count: u64) -> Vec3 {
    if double::below(ZERO, count) {
        Vec3::of(summed(over, sum.x, count), summed(over, sum.y, count), summed(over, sum.z, count))
    } else {
        Vec3::of(ZERO, ZERO, ZERO)
    }
}

/// The first of the accumulations from `n` on with another resolution than the first.
pub open spec fn first_mismatch(parts: Seq<AccumView>, n: int) -> Option<int>
    decreases parts.len() - n,
{
    if !(0 <= n < parts.len()) {
        None
    } else if parts[n].sum.len() != parts[0].sum.len() || parts[n].sum[0].len()
        != parts[0].sum[0].len() {
        Some(n)
    } else {
        first_mismatch(parts, n + 1)
    }
}

/// The mean image of accumulations.
pub open spec fn mean_image<F: Fn(u64, u64) -> u64, D: Fn(u64, u64) -> u64>(
    plus: F,
    over: D,
    parts: Seq<AccumView>,
) -> Seq<Seq<Vec3>> {
    let n = parts.len() as int;
    Seq::new(
        parts[0].sum.len(),
        |y: int|
            Seq::new(
                parts[0].sum[0].len(),
                |x: int|
                    mean(
                        over,
                        total_sum(plus, parts, n, y, x),
                        total_count(plus, parts, n, y, x),
                    ),
            ),
    )
}

fn ask<F: Fn(u64, u64) -> u64>(f: &F, a: u64, b: u64) -> (r: u64)
    requires
        is_operation(*f),
    ensures
        r == summed(*f, a, b),
{
    let r: u64 = f(a, b);
    assert(f.ensures((a, b), r));
    r
}

/// The mean of one pixel over all accumulations.
fn merge_pixel<F: Fn(u64, u64) -> u64, D: Fn(u64, u64) -> u64>(
    plus: &F,
    over: &D,
    parts: &Vec<Accum>,
    y: usize,
    x: usize,
) -> (r: Vec3)
    requires
        is_operation(*plus),
        is_operation(*over),
        parts@.len() > 0,
        forall|k: int|
            0 <= k < parts@.len() ==> y < (#[trigger] parts@[k]).sum@.len() && x
                < parts@[k].sum@[y as int]@.len() && y < parts@[k].count@.len() && x
                < parts@[k].count@[y as int]@.len(),
    ensures
        r == mean(
            *over,
            total_sum(*plus, accum_views(parts@), parts@.len() as int, y as int, x as int),
            total_count(*plus, accum_views(parts@), parts@.len() as int, y as int, x as int),
        ),
{
    let ghost views = accum_views(parts@);
    let n: usize = parts.len();
    let mut sum: Vec3 = parts[0].sum[y][x];
    let mut count: u64 = parts[0].count[y][x];
    let mut k: usize = 1;
    proof {
        assert(views[0] == parts@[0]@);
        assert(views[0].sum[y as int] == parts@[0].sum@[y as int]@);
        assert(views[0].count[y as int] == parts@[0].count@[y as int]@);
    }
    while k < n
        invariant
            is_operation(*plus),
            1 <= k <= n == parts@.len(),
            views == accum_views(parts@),
            forall|k: int|
                0 <= k < parts@.len() ==> y < (#[trigger] parts@[k]).sum@.len() && x
                    < parts@[k].sum@[y as int]@.len() && y < parts@[k].count@.len() && x
                    < parts@[k].count@[y as int]@.len(),
            sum == total_sum(*plus, views, k as int, y as int, x as int),
            count == total_count(*plus, views, k as int, y as int, x as int),
        decreases n - k,
    {
        proof {
            assert(views[k as int] == parts@[k as int]@);
            assert(views[k as int].sum[y as int] == parts@[k as int].sum@[y as int]@);
            assert(views[k as int].count[y as int] == parts@[k as int].count@[y as int]@);
        }
        let more: Vec3 = parts[k].sum[y][x];
        sum = Vec3::new(ask(plus, sum.x, more.x), ask(plus, sum.y, more.y), ask(plus, sum.z, more.z));
        count = ask(plus, count, parts[k].count[y][x]);
        k += 1;
    }
    if double::less(ZERO, count) {
        Vec3::new(ask(over, sum.x, count), ask(over, sum.y, count), ask(over, sum.z, count))
    } else {
        Vec3::zero()
    }
}

/// Merge accumulations into a mean image. `plus` and `over` add and divide.
pub fn merge<F: Fn(u64, u64) -> u64, D: Fn(u64, u64) -> u64>(
    plus: &F,
    over: &D,
    parts: &Vec<Accum>,
) -> (r: Result<Vec<Vec<Vec3>>, MergeError>)
    requires
        is_operation(*plus),
        is_operation(*over),
        forall|k: int| 0 <= k < parts@.len() ==> is_accum(#[trigger] accum_views(parts@)[k]),
    ensures
        match first_mismatch(accum_views(parts@), 1) {
            _ if parts@.len() == 0 => r == Err::<Vec<Vec<Vec3>>, MergeError>(MergeError::NoFiles),
            Some(k) => r matches Err(MergeError::ResolutionMismatch(i)) && i == k,
            None => r matches Ok(image) && film::image_views(image@) == mean_image(
                *plus,
                *over,
                accum_views(parts@),
            ),
        },
{
    let ghost views = accum_views(parts@);
    let n: usize = parts.len();
    if n == 0 {
        return Err(MergeError::NoFiles);
    }
    proof {
        assert(views[0] == parts@[0]@);
        assert(is_accum(views[0]));
        assert(views[0].sum[0] == parts@[0].sum@[0]@);
    }
    let h: usize = parts[0].sum.len();
    let w: usize = parts[0].sum[0].len();
    let mut k: usize = 1;
    while k < n
        invariant
            1 <= k <= n == parts@.len(),
            views == accum_views(parts@),
            forall|k: int| 0 <= k < parts@.len() ==> is_accum(#[trigger] views[k]),
            h == views[0].sum.len(),
            w == views[0].sum[0].len(),
            first_mismatch(views, 1) == first_mismatch(views, k as int),
            forall|j: int|
                1 <= j < k ==> (#[trigger] views[j]).sum.len() == h && views[j].sum[0].len() == w,
        decreases n - k,
    {
        proof {
            assert(views[k as int] == parts@[k as int]@);
            assert(is_accum(views[k as int]));
            assert(views[k as int].sum[0] == parts@[k as int].sum@[0]@);
        }
        if parts[k].sum.len() != h || parts[k].sum[0].len() != w {
            return Err(MergeError::ResolutionMismatch(k));
        }
        k += 1;
    }
    let ghost all = mean_image(*plus, *over, views);
    let mut out: Vec<Vec<Vec3>> = Vec::new();
    let mut y: usize = 0;
    proof {
        assert forall|j: int| 0 <= j < n implies has_size(#[trigger] views[j], w as int, h as int) by {
            assert(is_accum(views[j]));
        }
    }
    while y < h
        invariant
            is_operation(*plus),
            is_operation(*over),
            n == parts@.len(),
            n > 0,
            views == accum_views(parts@),
            h == views[0].sum.len(),
            w == views[0].sum[0].len(),
            forall|j: int| 0 <= j < n ==> has_size(#[trigger] views[j], w as int, h as int),
            y <= h,
            all == mean_image(*plus, *over, views),
            out@.len() == y,
            forall|j: int| 0 <= j < y ==> (#[trigger] out@[j])@ == all[j],
        decreases h - y,
    {
        let mut row: Vec<Vec3> = Vec::new();
        let mut x: usize = 0;
        while x < w
            invariant
                is_operation(*plus),
                is_operation(*over),
                n == parts@.len(),
                n > 0,
                views == accum_views(parts@),
                forall|j: int| 0 <= j < n ==> has_size(#[trigger] views[j], w as int, h as int),
                y < h,
                x <= w,
                row@.len() == x,
                forall|j: int|
                    0 <= j < x ==> #[trigger] row@[j] == mean(
                        *over,
                        total_sum(*plus, views, n as int, y as int, j),
                        total_count(*plus, views, n as int, y as int, j),
                    ),
            decreases w - x,
        {
            proof {
                assert forall|k: int| 0 <= k < parts@.len() implies y < (
                #[trigger] parts@[k]).sum@.len() && x < parts@[k].sum@[y as int]@.len() && y
                    < parts@[k].count@.len() && x < parts@[k].count@[y as int]@.len() by {
                    assert(views[k] == parts@[k]@);
                    assert(has_size(views[k], w as int, h as int));
                    assert(views[k].sum[y as int] == parts@[k].sum@[y as int]@);
                    assert(views[k].count[y as int] == parts@[k].count@[y as int]@);
                }
            }
            row.push(merge_pixel(plus, over, parts, y, x));
            x += 1;
        }
        assert(row@ =~= all[y as int]);
        out.push(row);
        y += 1;
    }
    assert(film::image_views(out@) =~= all);
    Ok(out)
}

} // verus!
