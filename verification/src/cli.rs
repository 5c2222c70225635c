//! What the command line asks for.

use crate::text;
use crate::text::{chars_of, same_text};
use vstd::prelude::*;
use vstd::string::*;

verus! {

/// The value of decimal digits.
pub open spec fn digits_value(s: Seq<char>) -> nat
    decreases s.len(),
{
    if s.len() == 0 {
        0
    } else {
        (digits_value(s.drop_last()) * 10 + (s.last() as int - '0' as int)) as nat
    }
}

pub open spec fn is_digit(c: char) -> bool {
    '0' <= c <= '9'
}

/// A number: digits, perhaps after a plus sign, of a value that 32 bits hold.
pub open spec fn number_in(s: Seq<char>) -> Option<u32> {
    let digits = if s.len() > 0 && s[0] == '+' {
        s.drop_first()
    } else {
        s
    };
    digits_number(digits)
}

/// The number of digits alone.
pub open spec fn digits_number(digits: Seq<char>) -> Option<u32> {
    if digits.len() > 0 && (forall|i: int| 0 <= i < digits.len() ==> is_digit(#[trigger] digits[i]))
        && digits_value(digits) <= u32::MAX {
        Some(digits_value(digits) as u32)
    } else {
        None
    }
}

proof fn digits_grow(s: Seq<char>, n: int)
    requires
        0 <= n <= s.len(),
        forall|i: int| 0 <= i < s.len() ==> is_digit(#[trigger] s[i]),
    ensures
        digits_value(s.take(n)) <= digits_value(s),
    decreases s.len() - n,
{
    if n == s.len() {
        assert(s.take(n) =~= s);
    } else {
        assert(s.take(n + 1).drop_last() =~= s.take(n));
        assert(is_digit(s[n]));
        digits_grow(s, n + 1);
    }
}

/// The number that `chars[from..to]` is.
fn read_number(chars: &Vec<char>, from: usize, to: usize) -> (r: Option<u32>)
    requires
        from <= to <= chars@.len(),
    ensures
        r == number_in(chars@.subrange(from as int, to as int)),
{
    let ghost s = chars@.subrange(from as int, to as int);
    let start: usize = if from < to && chars[from] == '+' {
        from + 1
    } else {
        from
    };
    let ghost digits = chars@.subrange(start as int, to as int);
    proof {
        if s.len() > 0 && s[0] == '+' {
            assert(s.drop_first() =~= digits);
        } else {
            assert(s =~= digits);
        }
    }
    if start == to {
        return None;
    }
    let mut i: usize = start;
    while i < to
        invariant
            start <= i <= to <= chars@.len(),
            digits == chars@.subrange(start as int, to as int),
            number_in(chars@.subrange(from as int, to as int)) == digits_number(digits),
            forall|k: int| start <= k < i ==> is_digit(#[trigger] chars@[k]),
        decreases to - i,
    {
        let c: char = chars[i];
        if !('0' <= c && c <= '9') {
            assert(!is_digit(digits[i - start]));
            return None;
        }
        i += 1;
    }
    proof {
        assert forall|k: int| 0 <= k < digits.len() implies is_digit(#[trigger] digits[k]) by {
            assert(is_digit(chars@[start + k]));
        }
    }
    let mut value: u64 = 0;
    let mut k: usize = start;
    assert(digits.take(0) =~= seq![]);
    while k < to
        invariant
            start <= k <= to <= chars@.len(),
            digits == chars@.subrange(start as int, to as int),
            number_in(chars@.subrange(from as int, to as int)) == digits_number(digits),
            forall|k: int| 0 <= k < digits.len() ==> is_digit(#[trigger] digits[k]),
            value <= u32::MAX,
            value == digits_value(digits.take(k - start)),
        decreases to - k,
    {
        proof {
            assert(digits.take(k + 1 - start).drop_last() =~= digits.take(k - start));
            assert(digits[k - start] == chars@[k as int]);
            assert(is_digit(digits[k - start]));
            digits_grow(digits, k + 1 - start);
        }
        value = value * 10 + (chars[k] as u64 - '0' as u64);
        if value > u32::MAX as u64 {
            return None;
        }
        k += 1;
    }
    assert(digits.take(to - start) =~= digits);
    Some(value as u32)
}

/// Why a text is no sample range.
#[derive(Clone, Copy, Debug, PartialEq, Eq, Structural)]
pub enum RangeError {
    /// It is not of the form A:B.
    NotARange,
    /// It holds no sample.
    Empty(u32, u32),
}

/// Where the first colon stands from `p` on, or the end.
pub open spec fn colon(s: Seq<char>, p: int) -> int
    decreases s.len() - p,
{
    if 0 <= p < s.len() && s[p] != ':' {
        colon(s, p + 1)
    } else {
        p
    }
}

/// The samples `[a, b)` that a text of the form A:B names.
pub open spec fn range_in(s: Seq<char>) -> Result<(u32, u32), RangeError> {
    let c = colon(s, 0);
    if c >= s.len() {
        Err(RangeError::NotARange)
    } else {
        match (number_in(s.take(c)), number_in(s.skip(c + 1))) {
            (Some(a), Some(b)) => if b <= a {
                Err(RangeError::Empty(a, b))
            } else {
                Ok((a, b))
            },
            _ => Err(RangeError::NotARange),
        }
    }
}

/// The samples `[a, b)` that a text of the form A:B names.
pub fn parse_sample_range(range: &str) -> (r: Result<(u32, u32), RangeError>)
    ensures
        r == range_in(range@),
{
    let chars: Vec<char> = chars_of(range);
    let n: usize = chars.len();
    let mut c: usize = 0;
    while c < n && chars[c] != ':'
        invariant
            c <= n == chars@.len(),
            colon(chars@, 0) == colon(chars@, c as int),
        decreases n - c,
    {
        c += 1;
    }
    if c >= n {
        return Err(RangeError::NotARange);
    }
    proof {
        assert(chars@.subrange(0, c as int) =~= chars@.take(c as int));
        assert(chars@.subrange(c + 1, n as int) =~= chars@.skip(c + 1));
    }
    match (read_number(&chars, 0, c), read_number(&chars, c + 1, n)) {
        (Some(a), Some(b)) => {
            if b <= a {
                Err(RangeError::Empty(a, b))
            } else {
                Ok((a, b))
            }
        },
        _ => Err(RangeError::NotARange),
    }
}

/// Least number of samples per pixel of the path integrator.
pub const LEAST_SPP: u32 = 64;

/// Samples per pixel: as asked for, else those of the scene, but at least 64.
pub fn samples_per_pixel(spp: Option<u32>, pixel_samples: (u32, u32)) -> (r: u32)
    requires
        pixel_samples.0 * pixel_samples.1 <= u32::MAX,
    ensures
        r == match spp {
            Some(n) => n as int,
            None => if pixel_samples.0 * pixel_samples.1 > LEAST_SPP {
                pixel_samples.0 * pixel_samples.1
            } else {
                LEAST_SPP as int
            },
        },
{
    match spp {
        Some(n) => n,
        None => {
            let product: u32 = pixel_samples.0 * pixel_samples.1;
            if product > LEAST_SPP {
                product
            } else {
                LEAST_SPP
            }
        },
    }
}

/// A format of image files.
#[derive(Clone, Copy, Debug, PartialEq, Eq, Structural)]
pub enum OutputFormat {
    Ppm,
    PpmAscii,
    Png,
    Exr,
}

/// The format of a name; any other name is a binary pixmap.
pub open spec fn named_format(name: Seq<char>) -> OutputFormat {
    if name == "png"@ {
        OutputFormat::Png
    } else if name == "exr"@ {
        OutputFormat::Exr
    } else if name == "ppm-ascii"@ {
        OutputFormat::PpmAscii
    } else {
        OutputFormat::Ppm
    }
}

/// The format of a name.
pub fn output_format(name: &str) -> (r: OutputFormat)
    ensures
        r == named_format(name@),
{
    if same_text(name, "png") {
        OutputFormat::Png
    } else if same_text(name, "exr") {
        OutputFormat::Exr
    } else if same_text(name, "ppm-ascii") {
        OutputFormat::PpmAscii
    } else {
        OutputFormat::Ppm
    }
}

/// What is asked for, as far as it decides how the image comes about.
#[derive(Clone, Copy, Debug, PartialEq, Eq, Structural)]
pub struct RunRequest {
    pub preview: bool,
    pub aovs: bool,
    pub denoise: bool,
    /// The path integrator, not the direct one.
    pub path: bool,
    /// The GPU backend.
    pub metal: bool,
    pub has_range: bool,
    pub adaptive: bool,
    pub wavefront: bool,
}

/// How the image comes about.
#[derive(Clone, Copy, Debug, PartialEq, Eq, Structural)]
pub enum RunPlan {
    Preview,
    /// The film with all its layers, on the GPU or not.
    Film { metal: bool },
    /// A sample range.
    Range { metal: bool },
    /// A sample range was asked for without the path integrator.
    RangeNeedsPath,
    Path,
    AdaptivePath,
    GpuWavefront { adaptive: bool },
    GpuMegakernel,
    Direct { metal: bool },
}

/// How the image comes about: a preview first, then the layers of the path integrator,
/// then a sample range, then an image.
pub open spec fn planned(q: RunRequest) -> RunPlan {
    if q.preview {
        RunPlan::Preview
    } else if (q.aovs || q.denoise) && q.path {
        RunPlan::Film { metal: q.metal }
    } else if q.has_range {
        if q.path {
            RunPlan::Range { metal: q.metal }
        } else {
            RunPlan::RangeNeedsPath
        }
    } else if !q.path {
        RunPlan::Direct { metal: q.metal }
    } else if !q.metal {
        if q.adaptive {
            RunPlan::AdaptivePath
        } else {
            RunPlan::Path
        }
    } else if q.wavefront {
        RunPlan::GpuWavefront { adaptive: q.adaptive }
    } else {
        RunPlan::GpuMegakernel
    }
}

/// How the image comes about.
pub fn plan_run(q: RunRequest) -> (r: RunPlan)
    ensures
        r == planned(q),
{
    if q.preview {
        RunPlan::Preview
    } else if (q.aovs || q.denoise) && q.path {
        RunPlan::Film { metal: q.metal }
    } else if q.has_range {
        if q.path {
            RunPlan::Range { metal: q.metal }
        } else {
            RunPlan::RangeNeedsPath
        }
    } else if !q.path {
        RunPlan::Direct { metal: q.metal }
    } else if !q.metal {
        if q.adaptive {
            RunPlan::AdaptivePath
        } else {
            RunPlan::Path
        }
    } else if q.wavefront {
        RunPlan::GpuWavefront { adaptive: q.adaptive }
    } else {
        RunPlan::GpuMegakernel
    }
}

/// The colour that an object id is shown in: the low bytes of a multiplicative hash, and
/// black for no object.
pub open spec fn id_hash(id: u32) -> u32 {
    ((id * 2654435761) % 0x1_0000_0000) as u32
}

/// The colour that an object id is shown in.
pub fn id_color(id: u32) -> (r: (u8, u8, u8))
    ensures
        id == 0 ==> r == (0u8, 0u8, 0u8),
        id != 0 ==> r == (
            (id_hash(id) % 256) as u8,
            (id_hash(id) / 256 % 256) as u8,
            (id_hash(id) / 65536 % 256) as u8,
        ),
{
    if id == 0 {
        return (0, 0, 0);
    }
    let h: u64 = (id as u64 * 2654435761) % 0x1_0000_0000;
    ((h % 256) as u8, (h / 256 % 256) as u8, (h / 65536 % 256) as u8)
}

} // verus!
