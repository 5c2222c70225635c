//! Portable pixmaps: a header with the size, then the pixels.

use crate::text;
use crate::text::{push_decimal, push_text};
use vstd::prelude::*;
use vstd::string::*;

verus! {

/// A quantized pixel.
#[derive(Debug, Clone, Copy, PartialEq, Eq, Structural)]
pub struct Rgb8 {
    pub r: u8,
    pub g: u8,
    pub b: u8,
}

/// The rows of an image.
pub open spec fn pixel_rows(v: Seq<Vec<Rgb8>>) -> Seq<Seq<Rgb8>> {
    v.map_values(|row: Vec<Rgb8>| row@)
}

/// The length of the first row, or 0 where there is none.
pub open spec fn image_width(rows: Seq<Seq<Rgb8>>) -> nat {
    if rows.len() > 0 {
        rows[0].len()
    } else {
        0
    }
}

/// The header: the kind, the size and the largest value.
pub open spec fn header(kind: Seq<char>, rows: Seq<Seq<Rgb8>>) -> Seq<char> {
    kind + "\n"@ + text::decimal(image_width(rows)) + " "@ + text::decimal(rows.len()) + "\n255\n"@
}

/// The bytes of a row of pixels.
pub open spec fn row_bytes(row: Seq<Rgb8>) -> Seq<u8>
    decreases row.len(),
{
    if row.len() == 0 {
        seq![]
    } else {
        row_bytes(row.drop_last()) + seq![row.last().r, row.last().g, row.last().b]
    }
}

/// The bytes of the pixels, row after row.
pub open spec fn pixel_bytes(rows: Seq<Seq<Rgb8>>) -> Seq<u8>
    decreases rows.len(),
{
    if rows.len() == 0 {
        seq![]
    } else {
        pixel_bytes(rows.drop_last()) + row_bytes(rows.last())
    }
}

/// The line of a pixel.
pub open spec fn pixel_line(p: Rgb8) -> Seq<char> {
    text::decimal(p.r as nat) + " "@ + text::decimal(p.g as nat) + " "@ + text::decimal(p.b as nat)
        + "\n"@
}

/// The lines of a row of pixels.
pub open spec fn row_lines(row: Seq<Rgb8>) -> Seq<char>
    decreases row.len(),
{
    if row.len() == 0 {
        seq![]
    } else {
        row_lines(row.drop_last()) + pixel_line(row.last())
    }
}

/// The lines of the pixels, row after row.
pub open spec fn pixel_lines(rows: Seq<Seq<Rgb8>>) -> Seq<char>
    decreases rows.len(),
{
    if rows.len() == 0 {
        seq![]
    } else {
        pixel_lines(rows.drop_last()) + row_lines(rows.last())
    }
}

/// The header of an image.
fn header_text(kind: &str, image: &Vec<Vec<Rgb8>>) -> (r: String)
    ensures
        r@ == header(kind@, pixel_rows(image@)),
{
    let h: usize = image.len();
    let w: usize = if h > 0 {
        image[0].len()
    } else {
        0
    };
    let mut out: String = String::new();
    push_text(&mut out, kind);
    push_text(&mut out, "\n");
    push_decimal(&mut out, w as u64);
    push_text(&mut out, " ");
    push_decimal(&mut out, h as u64);
    push_text(&mut out, "\n255\n");
    proof {
        assert(image_width(pixel_rows(image@)) == w);
        assert(out@ =~= header(kind@, pixel_rows(image@)));
    }
    out
}

/// A binary pixmap (P6): its header as text, and its pixels.
pub fn ppm_parts(image: &Vec<Vec<Rgb8>>) -> (r: (String, Vec<u8>))
    ensures
        r.0@ == header("P6"@, pixel_rows(image@)),
        r.1@ == pixel_bytes(pixel_rows(image@)),
{
    let ghost rows = pixel_rows(image@);
    let h: usize = image.len();
    let mut out: Vec<u8> = Vec::new();
    let mut y: usize = 0;
    assert(rows.take(0) =~= seq![]);
    while y < h
        invariant
            y <= h == image@.len(),
            rows == pixel_rows(image@),
            out@ == pixel_bytes(rows.take(y as int)),
        decreases h - y,
    {
        let row: &Vec<Rgb8> = &image[y];
        let w: usize = row.len();
        let ghost before = out@;
        let mut x: usize = 0;
        proof {
            assert(row@.take(0) =~= seq![]);
            assert(before + row_bytes(row@.take(0)) =~= before);
        }
        while x < w
            invariant
                x <= w == row@.len(),
                out@ == before + row_bytes(row@.take(x as int)),
            decreases w - x,
        {
            let p: Rgb8 = row[x];
            let ghost was = out@;
            out.push(p.r);
            out.push(p.g);
            out.push(p.b);
            proof {
                assert(row@.take(x + 1).drop_last() =~= row@.take(x as int));
                assert(out@ =~= before + row_bytes(row@.take(x + 1)));
            }
            x += 1;
        }
        proof {
            assert(row@.take(w as int) =~= row@);
            assert(rows.take(y + 1).drop_last() =~= rows.take(y as int));
            assert(rows.take(y + 1).last() == row@);
        }
        y += 1;
    }
    assert(rows.take(h as int) =~= rows);
    (header_text("P6", image), out)
}

/// A text pixmap (P3).
pub fn ppm_ascii(image: &Vec<Vec<Rgb8>>) -> (r: String)
    ensures
        r@ == header("P3"@, pixel_rows(image@)) + pixel_lines(pixel_rows(image@)),
{
    let ghost rows = pixel_rows(image@);
    let h: usize = image.len();
    let mut out: String = header_text("P3", image);
    let ghost head = out@;
    let mut y: usize = 0;
    proof {
        assert(rows.take(0) =~= seq![]);
        assert(head + pixel_lines(rows.take(0)) =~= head);
    }
    while y < h
        invariant
            y <= h == image@.len(),
            rows == pixel_rows(image@),
            out@ == head + pixel_lines(rows.take(y as int)),
        decreases h - y,
    {
        let row: &Vec<Rgb8> = &image[y];
        let w: usize = row.len();
        let ghost before = out@;
        let mut x: usize = 0;
        proof {
            assert(row@.take(0) =~= seq![]);
            assert(before + row_lines(row@.take(0)) =~= before);
        }
        while x < w
            invariant
                x <= w == row@.len(),
                out@ == before + row_lines(row@.take(x as int)),
            decreases w - x,
        {
            let p: Rgb8 = row[x];
            push_decimal(&mut out, p.r as u64);
            push_text(&mut out, " ");
            push_decimal(&mut out, p.g as u64);
            push_text(&mut out, " ");
            push_decimal(&mut out, p.b as u64);
            push_text(&mut out, "\n");
            proof {
                assert(row@.take(x + 1).drop_last() =~= row@.take(x as int));
                assert(out@ =~= before + row_lines(row@.take(x + 1)));
            }
            x += 1;
        }
        proof {
            assert(row@.take(w as int) =~= row@);
            assert(rows.take(y + 1).drop_last() =~= rows.take(y as int));
            assert(rows.take(y + 1).last() == row@);
            assert(out@ =~= head + pixel_lines(rows.take(y + 1)));
        }
        y += 1;
    }
    assert(rows.take(h as int) =~= rows);
    out
}

/// A pixmap whose rows all have the width of the first holds three bytes for each of
/// width times height pixels.
pub proof fn pixmap_size(rows: Seq<Seq<Rgb8>>, w: nat)
    requires
        forall|y: int| 0 <= y < rows.len() ==> (#[trigger] rows[y]).len() == w,
    ensures
        pixel_bytes(rows).len() == 3 * w * rows.len(),
    decreases rows.len(),
{
    if rows.len() > 0 {
        let rest = rows.drop_last();
        assert forall|y: int| 0 <= y < rest.len() implies (#[trigger] rest[y]).len() == w by {
            assert(rows[y].len() == w);
        }
        pixmap_size(rest, w);
        row_size(rows.last());
        assert(rows[rows.len() - 1].len() == w);
        assert(3 * w * (rows.len() - 1) + 3 * w == 3 * w * rows.len()) by (nonlinear_arith)
            requires
                rows.len() > 0,
        ;
    } else {
        assert(3 * w * 0 == 0) by (nonlinear_arith);
    }
}

proof fn row_size(row: Seq<Rgb8>)
    ensures
        row_bytes(row).len() == 3 * row.len(),
    decreases row.len(),
{
    if row.len() > 0 {
        row_size(row.drop_last());
    }
}

} // verus!
