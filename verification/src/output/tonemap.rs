//! Display output transforms. The film is linear; display formats pass through one of
//! these before quantization:
//! - linear: clamp only (debugging)
//! - srgb: the sRGB encoding
//! - aces: a filmic fit, then the sRGB encoding; the shoulder rolls highlights off
//!   smoothly instead of clipping.

use crate::arith;
use crate::arith::{compute, computes, minus, over, plus, times, Op};
use crate::double;
use crate::math::{Vec3, ONE, ZERO};
use crate::output::film;
use crate::text::same_text;
use vstd::prelude::*;
use vstd::string::*;

verus! {

/// 0.0031308: up to here the sRGB encoding is a straight line.
pub const KNEE: u64 = 0x3f69_a5c3_7387_b719;

/// 12.92, 1.055, 0.055 and 1/2.4: the line, and the curve behind it.
pub const SLOPE: u64 = 0x4029_d70a_3d70_a3d7;

pub const GAIN: u64 = 0x3ff0_e147_ae14_7ae1;

pub const OFFSET: u64 = 0x3fac_28f5_c28f_5c29;

pub const EXPONENT: u64 = 0x3fda_aaaa_aaaa_aaab;

/// 2.51, 0.03, 2.43, 0.59 and 0.14: the filmic fit.
pub const FIT_A: u64 = 0x4004_147a_e147_ae14;

pub const FIT_B: u64 = 0x3f9e_b851_eb85_1eb8;

pub const FIT_C: u64 = 0x4003_70a3_d70a_3d71;

pub const FIT_D: u64 = 0x3fe2_e147_ae14_7ae1;

pub const FIT_E: u64 = 0x3fc1_eb85_1eb8_51ec;

/// A display transform.
#[derive(Debug, Clone, Copy, PartialEq, Eq, Structural)]
pub enum Tonemap {
    Linear,
    Srgb,
    Aces,
}

/// The transform of a name.
pub open spec fn named_tonemap(name: Seq<char>) -> Option<Tonemap> {
    if name == "linear"@ {
        Some(Tonemap::Linear)
    } else if name == "srgb"@ {
        Some(Tonemap::Srgb)
    } else if name == "aces"@ {
        Some(Tonemap::Aces)
    } else {
        None
    }
}

impl Tonemap {
    /// The transform of a name.
    pub fn from_name(name: &str) -> (r: Option<Tonemap>)
        ensures
            r == named_tonemap(name@),
    {
        if same_text(name, "linear") {
            Some(Tonemap::Linear)
        } else if same_text(name, "srgb") {
            Some(Tonemap::Srgb)
        } else if same_text(name, "aces") {
            Some(Tonemap::Aces)
        } else {
            None
        }
    }
}

/// A value brought into [0, 1]; a NaN stays what it is.
pub open spec fn clamped(v: u64) -> u64 {
    if double::below(v, ZERO) {
        ZERO
    } else if double::below(ONE, v) {
        ONE
    } else {
        v
    }
}

/// A value brought into [0, 1].
pub fn clamp_unit(v: u64) -> (r: u64)
    ensures
        r == clamped(v),
{
    if double::less(v, ZERO) {
        ZERO
    } else if double::less(ONE, v) {
        ONE
    } else {
        v
    }
}

/// The sRGB encoding, from [0, 1] into it.
pub open spec fn srgb_encoded<F: Fn(Op, u64, u64) -> u64>(f: F, v: u64) -> u64 {
    let c = clamped(v);
    let curve = arith::value(f, Op::RealPower, c, EXPONENT);
    clamped(
        if double::at_most(c, KNEE) {
            arith::product(f, SLOPE, c)
        } else {
            arith::difference(f, arith::product(f, GAIN, curve), OFFSET)
        },
    )
}

/// The sRGB encoding.
pub fn srgb_encode<F: Fn(Op, u64, u64) -> u64>(v: u64, f: &F) -> (r: u64)
    requires
        computes(*f),
    ensures
        r == srgb_encoded(*f, v),
{
    let c: u64 = clamp_unit(v);
    let e: u64 = if double::less_or_equal(c, KNEE) {
        times(f, SLOPE, c)
    } else {
        let curve: u64 = compute(f, Op::RealPower, c, EXPONENT);
        minus(f, times(f, GAIN, curve), OFFSET)
    };
    clamp_unit(e)
}

/// The filmic fit.
pub open spec fn fitted<F: Fn(Op, u64, u64) -> u64>(f: F, v: u64) -> u64 {
    let x = v;
    clamped(arith::quotient(
        f,
        arith::product(f, x, arith::sum(f, arith::product(f, FIT_A, x), FIT_B)),
        arith::sum(
            f,
            arith::product(f, x, arith::sum(f, arith::product(f, FIT_C, x), FIT_D)),
            FIT_E,
        ),
    ))
}

/// The filmic fit.
pub fn aces_fit<F: Fn(Op, u64, u64) -> u64>(v: u64, f: &F) -> (r: u64)
    requires
        computes(*f),
    ensures
        r == fitted(*f, v),
{
    let x: u64 = v;
    clamp_unit(over(
        f,
        times(f, x, plus(f, times(f, FIT_A, x), FIT_B)),
        plus(f, times(f, x, plus(f, times(f, FIT_C, x), FIT_D)), FIT_E),
    ))
}

/// One component after the transform.
pub open spec fn toned<F: Fn(Op, u64, u64) -> u64>(f: F, tonemap: Tonemap, v: u64) -> u64 {
    match tonemap {
        Tonemap::Linear => clamped(v),
        Tonemap::Srgb => srgb_encoded(f, v),
        Tonemap::Aces => srgb_encoded(f, fitted(f, v)),
    }
}

/// What is shown lies in [0, 1], where the arithmetic gives a number at all.
pub proof fn shown_values_are_in_range<F: Fn(Op, u64, u64) -> u64>(f: F, tonemap: Tonemap, v: u64)
    ensures
        ({
            let r = toned(f, tonemap, v);
            double::is_nan(r) || double::at_most(ZERO, r) && double::at_most(r, ONE)
        }),
{
}

/// Without an encoding what lies in [0, 1] stays what it is; with the sRGB encoding what lies
/// above is shown as one is, and what lies below as zero is.
pub proof fn ends_are_flat<F: Fn(Op, u64, u64) -> u64>(f: F, v: u64)
    ensures
        double::at_most(ZERO, v) && double::at_most(v, ONE) ==> toned(f, Tonemap::Linear, v) == v,
        double::below(ONE, v) ==> toned(f, Tonemap::Srgb, v) == toned(f, Tonemap::Srgb, ONE),
        double::below(v, ZERO) ==> toned(f, Tonemap::Srgb, v) == toned(f, Tonemap::Srgb, ZERO),
{
}

/// A pixel after the transform.
pub open spec fn toned_pixel<F: Fn(Op, u64, u64) -> u64>(f: F, tonemap: Tonemap, c: Vec3) -> Vec3 {
    Vec3::of(toned(f, tonemap, c.x), toned(f, tonemap, c.y), toned(f, tonemap, c.z))
}

fn tone<F: Fn(Op, u64, u64) -> u64>(tonemap: Tonemap, v: u64, f: &F) -> (r: u64)
    requires
        computes(*f),
    ensures
        r == toned(*f, tonemap, v),
{
    match tonemap {
        Tonemap::Linear => clamp_unit(v),
        Tonemap::Srgb => srgb_encode(v, f),
        Tonemap::Aces => srgb_encode(aces_fit(v, f), f),
    }
}

/// Apply the transform to one linear pixel.
pub fn apply<F: Fn(Op, u64, u64) -> u64>(tonemap: Tonemap, c: &Vec3, f: &F) -> (r: Vec3)
    requires
        computes(*f),
    ensures
        r == toned_pixel(*f, tonemap, *c),
{
    Vec3::new(tone(tonemap, c.x, f), tone(tonemap, c.y, f), tone(tonemap, c.z, f))
}

/// An image after the transform.
pub open spec fn toned_image<F: Fn(Op, u64, u64) -> u64>(f: F, tonemap: Tonemap, image: Seq<Seq<Vec3>>) -> Seq<Seq<Vec3>> {
    Seq::new(
        image.len(),
        |y: int|
            Seq::new(image[y].len(), |x: int| toned_pixel(f, tonemap, image[y][x])),
    )
}

/// Transform a whole (linear) image to display space.
pub fn apply_image<F: Fn(Op, u64, u64) -> u64>(tonemap: Tonemap, image: &Vec<Vec<Vec3>>, f: &F) -> (r: Vec<Vec<Vec3>>)
    requires
        computes(*f),
    ensures
        film::image_views(r@) == toned_image(*f, tonemap, film::image_views(image@)),
{
    let ghost all = toned_image(*f, tonemap, film::image_views(image@));
    let h: usize = image.len();
    let mut out: Vec<Vec<Vec3>> = Vec::new();
    let mut y: usize = 0;
    while y < h
        invariant
            computes(*f),
            y <= h == image@.len(),
            all == toned_image(*f, tonemap, film::image_views(image@)),
            out@.len() == y,
            forall|k: int| 0 <= k < y ==> (#[trigger] out@[k])@ == all[k],
        decreases h - y,
    {
        let line: &Vec<Vec3> = &image[y];
        let w: usize = line.len();
        let mut row: Vec<Vec3> = Vec::new();
        let mut x: usize = 0;
        while x < w
            invariant
                computes(*f),
                x <= w == line@.len(),
                row@.len() == x,
                forall|k: int|
                    0 <= k < x ==> #[trigger] row@[k] == toned_pixel(*f, tonemap, line@[k]),
            decreases w - x,
        {
            row.push(apply(tonemap, &line[x], f));
            x += 1;
        }
        proof {
            assert(film::image_views(image@)[y as int] == line@);
            assert(row@ =~= all[y as int]);
        }
        out.push(row);
        y += 1;
    }
    assert(film::image_views(out@) =~= all);
    out
}

} // verus!
