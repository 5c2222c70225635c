//! Multilayer output: the full film as one list of named single-precision channels,
//! compositor-style (the prefix of a dotted name is its layer), and the id manifest as
//! one string.

use crate::double;
use crate::math::Vec3;
use crate::output::film;
use crate::output::film::{Film, FilmView};
use crate::text;
use crate::text::push_decimal;
use vstd::prelude::*;
use vstd::string::*;

verus! {

/// A channel: its name and its samples, row after row.
#[derive(Debug)]
pub struct Channel {
    pub name: String,
    pub samples: Vec<u32>,
}

/// What a channel is.
pub struct ChannelView {
    pub name: Seq<char>,
    pub samples: Seq<u32>,
}

impl View for Channel {
    type V = ChannelView;

    open spec fn view(&self) -> ChannelView {
        ChannelView { name: self.name@, samples: self.samples@ }
    }
}

pub open spec fn channel_views(v: Seq<Channel>) -> Seq<ChannelView> {
    v.map_values(|c: Channel| c@)
}

/// One component of a pixel: x, y or z.
pub open spec fn component(p: Vec3, c: u8) -> u64 {
    if c == 0 {
        p.x
    } else if c == 1 {
        p.y
    } else {
        p.z
    }
}

/// The samples of a row.
pub open spec fn row_samples(row: Seq<Vec3>, c: u8) -> Seq<u32> {
    row.map_values(|p: Vec3| double::narrowed(component(p, c)))
}

/// The samples of an image, row after row.
pub open spec fn plane(image: Seq<Seq<Vec3>>, c: u8) -> Seq<u32>
    decreases image.len(),
{
    if image.len() == 0 {
        seq![]
    } else {
        plane(image.drop_last(), c) + row_samples(image.last(), c)
    }
}

pub open spec fn channel(name: Seq<char>, image: Seq<Seq<Vec3>>, c: u8) -> ChannelView {
    ChannelView { name, samples: plane(image, c) }
}

/// The channels of a film, in the order of their names.
pub open spec fn film_channels(f: FilmView) -> Seq<ChannelView> {
    seq![
        channel("B"@, f.beauty, 2),
        channel("G"@, f.beauty, 1),
        channel("N.X"@, f.normal, 0),
        channel("N.Y"@, f.normal, 1),
        channel("N.Z"@, f.normal, 2),
        channel("R"@, f.beauty, 0),
        channel("albedo.B"@, f.albedo, 2),
        channel("albedo.G"@, f.albedo, 1),
        channel("albedo.R"@, f.albedo, 0),
        channel("depth.Z"@, f.depth, 0),
        channel("diffuse.B"@, f.diffuse, 2),
        channel("diffuse.G"@, f.diffuse, 1),
        channel("diffuse.R"@, f.diffuse, 0),
        channel("id.coverage"@, f.id, 1),
        channel("id.x"@, f.id, 0),
        channel("specular.B"@, f.specular, 2),
        channel("specular.G"@, f.specular, 1),
        channel("specular.R"@, f.specular, 0),
    ]
}

fn list_plane(name: &str, image: &Vec<Vec<Vec3>>, c: u8) -> (r: Channel)
    ensures
        r@ == channel(name@, film::image_views(image@), c),
{
    let ghost rows = film::image_views(image@);
    let h: usize = image.len();
    let mut out: Vec<u32> = Vec::new();
    let mut y: usize = 0;
    assert(rows.take(0) =~= seq![]);
    while y < h
        invariant
            y <= h == image@.len(),
            rows == film::image_views(image@),
            out@ == plane(rows.take(y as int), c),
        decreases h - y,
    {
        let row: &Vec<Vec3> = &image[y];
        let w: usize = row.len();
        let ghost before = out@;
        let ghost all = row_samples(row@, c);
        let mut x: usize = 0;
        assert(before + all.take(0) =~= before);
        while x < w
            invariant
                x <= w == row@.len(),
                all == row_samples(row@, c),
                out@ == before + all.take(x as int),
            decreases w - x,
        {
            let p: Vec3 = row[x];
            let v: u64 = if c == 0 {
                p.x
            } else if c == 1 {
                p.y
            } else {
                p.z
            };
            out.push(double::narrow(v));
            x += 1;
            assert(out@ =~= before + all.take(x as int));
        }
        proof {
            assert(all.take(w as int) =~= all);
            assert(rows.take(y + 1).drop_last() =~= rows.take(y as int));
            assert(rows.take(y + 1).last() == row@);
        }
        y += 1;
    }
    assert(rows.take(h as int) =~= rows);
    Channel { name: text::copy_of(name), samples: out }
}

/// The channels of a film, in the order of their names.
pub fn list_channels(f: &Film) -> (r: Vec<Channel>)
    ensures
        channel_views(r@) == film_channels(f@),
{
    let out: Vec<Channel> = vec![
        list_plane("B", &f.beauty, 2),
        list_plane("G", &f.beauty, 1),
        list_plane("N.X", &f.normal, 0),
        list_plane("N.Y", &f.normal, 1),
        list_plane("N.Z", &f.normal, 2),
        list_plane("R", &f.beauty, 0),
        list_plane("albedo.B", &f.albedo, 2),
        list_plane("albedo.G", &f.albedo, 1),
        list_plane("albedo.R", &f.albedo, 0),
        list_plane("depth.Z", &f.depth, 0),
        list_plane("diffuse.B", &f.diffuse, 2),
        list_plane("diffuse.G", &f.diffuse, 1),
        list_plane("diffuse.R", &f.diffuse, 0),
        list_plane("id.coverage", &f.id, 1),
        list_plane("id.x", &f.id, 0),
        list_plane("specular.B", &f.specular, 2),
        list_plane("specular.G", &f.specular, 1),
        list_plane("specular.R", &f.specular, 0),
    ];
    assert(channel_views(out@) =~= film_channels(f@));
    out
}

/// The entries of a manifest as `id:name`, with semicolons between them.
pub open spec fn manifest_string(m: Seq<(u32, Seq<char>)>) -> Seq<char>
    decreases m.len(),
{
    if m.len() == 0 {
        seq![]
    } else {
        let entry = text::decimal(m.last().0 as nat) + seq![':'] + m.last().1;
        if m.len() == 1 {
            entry
        } else {
            manifest_string(m.drop_last()) + seq![';'] + entry
        }
    }
}

/// The manifest of a film as one string.
pub fn manifest_text(f: &Film) -> (r: String)
    ensures
        r@ == manifest_string(f@.manifest),
{
    let ghost all = f@.manifest;
    let n: usize = f.manifest.len();
    let mut out: String = String::new();
    let mut i: usize = 0;
    proof {
        assert(all.take(0) =~= seq![]);
        assert(out@ =~= seq![]);
    }
    while i < n
        invariant
            i <= n == f.manifest@.len(),
            all == f@.manifest,
            out@ == manifest_string(all.take(i as int)),
        decreases n - i,
    {
        let ghost before = out@;
        if i > 0 {
            out.push(';');
        }
        push_decimal(&mut out, f.manifest[i].0 as u64);
        out.push(':');
        text::push_text(&mut out, f.manifest[i].1.as_str());
        proof {
            assert(all.take(i + 1).drop_last() =~= all.take(i as int));
            assert(all.take(i + 1).last() == (
                f.manifest@[i as int].0,
                f.manifest@[i as int].1@,
            ));
            assert(out@ =~= manifest_string(all.take(i + 1)));
        }
        i += 1;
    }
    assert(all.take(n as int) =~= all);
    out
}

} // verus!
