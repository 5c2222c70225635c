//! Texture files: which files a name stands for, and what was found of them. The mark
//! `<UDIM>` in a name stands for the number of a tile.

use crate::raytracer::metal::pattern_codegen;
use crate::raytracer::metal::pattern_codegen::TexRef;
use crate::text;
use crate::text::{chars_of, push_decimal};
use vstd::prelude::*;
use vstd::string::*;

verus! {

/// The first and the last tile that is looked for.
pub const FIRST_TILE: u32 = 1001;

pub const LAST_TILE: u32 = 1100;

/// The mark for a tile's number.
pub open spec fn tile_mark() -> Seq<char> {
    seq!['<', 'U', 'D', 'I', 'M', '>']
}

/// Whether the mark stands at `p`.
pub open spec fn marked_at(s: Seq<char>, p: int) -> bool {
    0 <= p && p + 6 <= s.len() && s.subrange(p, p + 6) == tile_mark()
}

/// Whether a name has the mark.
pub open spec fn has_tiles(s: Seq<char>) -> bool {
    exists|p: int| #[trigger] marked_at(s, p)
}

/// What a name is from `p` on with every mark replaced by a text.
pub open spec fn filled_from(s: Seq<char>, p: int, number: Seq<char>) -> Seq<char>
    decreases s.len() - p,
{
    if p < 0 || p >= s.len() {
        seq![]
    } else if marked_at(s, p) {
        number + filled_from(s, p + 6, number)
    } else {
        seq![s[p]] + filled_from(s, p + 1, number)
    }
}

/// The file of a tile.
pub open spec fn tile_file(name: Seq<char>, tile: u32) -> Seq<char> {
    filled_from(name, 0, text::decimal(tile as nat))
}

/// The files that a texture may be in.
#[derive(Debug)]
pub enum TextureFiles {
    /// No file is named.
    Unnamed,
    Single(String),
    /// The tiles and their files, in the order of the tiles.
    Tiles(Vec<(u32, String)>),
}

/// What the files of a texture are.
pub enum FilesView {
    Unnamed,
    Single(Seq<char>),
    Tiles(Seq<(u32, Seq<char>)>),
}

pub open spec fn tile_views(v: Seq<(u32, String)>) -> Seq<(u32, Seq<char>)> {
    v.map_values(|t: (u32, String)| (t.0, t.1@))
}

impl View for TextureFiles {
    type V = FilesView;

    open spec fn view(&self) -> FilesView {
        match *self {
            TextureFiles::Unnamed => FilesView::Unnamed,
            TextureFiles::Single(s) => FilesView::Single(s@),
            TextureFiles::Tiles(v) => FilesView::Tiles(tile_views(v@)),
        }
    }
}

/// The files that a name stands for: itself, or one for each tile where it has the mark.
pub open spec fn files_of(name: Seq<char>) -> FilesView {
    if name.len() == 0 {
        FilesView::Unnamed
    } else if has_tiles(name) {
        FilesView::Tiles(
            Seq::new(
                (LAST_TILE - FIRST_TILE + 1) as nat,
                |k: int| ((FIRST_TILE + k) as u32, tile_file(name, (FIRST_TILE + k) as u32)),
            ),
        )
    } else {
        FilesView::Single(name)
    }
}

fn is_marked(s: &Vec<char>, p: usize) -> (r: bool)
    requires
        p <= s@.len(),
    ensures
        r == marked_at(s@, p as int),
{
    let n: usize = s.len();
    if n - p < 6 {
        return false;
    }
    let r: bool = s[p] == '<' && s[p + 1] == 'U' && s[p + 2] == 'D' && s[p + 3] == 'I' && s[p + 4]
        == 'M' && s[p + 5] == '>';
    proof {
        let part = s@.subrange(p as int, p + 6);
        if r {
            assert(part =~= tile_mark());
        } else if part == tile_mark() {
            assert(part[0] == '<' && part[1] == 'U' && part[2] == 'D');
            assert(part[3] == 'I' && part[4] == 'M' && part[5] == '>');
            assert(false);
        }
    }
    r
}

fn find_mark(s: &Vec<char>) -> (r: bool)
    ensures
        r == has_tiles(s@),
{
    let n: usize = s.len();
    let mut p: usize = 0;
    while p < n
        invariant
            p <= n == s@.len(),
            forall|q: int| 0 <= q < p ==> !#[trigger] marked_at(s@, q),
        decreases n - p,
    {
        if is_marked(s, p) {
            return true;
        }
        p += 1;
    }
    false
}

fn fill(s: &Vec<char>, tile: u32) -> (r: String)
    ensures
        r@ == tile_file(s@, tile),
{
    let n: usize = s.len();
    let ghost number = text::decimal(tile as nat);
    let ghost all = filled_from(s@, 0, number);
    let mut out: String = String::new();
    let mut p: usize = 0;
    assert(out@ + all =~= all);
    while p < n
        invariant
            p <= n == s@.len(),
            number == text::decimal(tile as nat),
            all == out@ + filled_from(s@, p as int, number),
        decreases n - p,
    {
        let ghost before = out@;
        if is_marked(s, p) {
            let ghost rest = filled_from(s@, p + 6, number);
            push_decimal(&mut out, tile as u64);
            assert(before + (number + rest) =~= out@ + rest);
            p += 6;
        } else {
            let ghost rest = filled_from(s@, p + 1, number);
            out.push(s[p]);
            assert(before + (seq![s@[p as int]] + rest) =~= out@ + rest);
            p += 1;
        }
    }
    assert(out@ + filled_from(s@, n as int, number) =~= out@);
    out
}

/// The files that a name stands for.
pub fn texture_files(name: &str) -> (r: TextureFiles)
    ensures
        r@ == files_of(name@),
{
    let chars: Vec<char> = chars_of(name);
    if chars.len() == 0 {
        return TextureFiles::Unnamed;
    }
    if !find_mark(&chars) {
        return TextureFiles::Single(text::copy_of(name));
    }
    let ghost all = files_of(name@)->Tiles_0;
    let mut tiles: Vec<(u32, String)> = Vec::new();
    let mut tile: u32 = FIRST_TILE;
    assert(tile_views(tiles@) =~= all.take(0));
    while tile <= LAST_TILE
        invariant
            FIRST_TILE <= tile <= LAST_TILE + 1,
            chars@ == name@,
            files_of(name@) == FilesView::Tiles(all),
            all.len() == LAST_TILE - FIRST_TILE + 1,
            forall|k: int| 0 <= k < all.len() ==> #[trigger] all[k] == (
                (FIRST_TILE + k) as u32,
                tile_file(name@, (FIRST_TILE + k) as u32),
            ),
            tile_views(tiles@) == all.take(tile - FIRST_TILE),
        decreases LAST_TILE + 1 - tile,
    {
        let file: String = fill(&chars, tile);
        let ghost before = tiles@;
        tiles.push((tile, file));
        proof {
            let k = tile - FIRST_TILE;
            assert(all[k] == (tile, file@));
            assert(tile_views(tiles@) =~= tile_views(before).push((tile, file@)));
            assert(all.take(k + 1) =~= all.take(k).push(all[k]));
        }
        tile += 1;
    }
    assert(all.take(all.len() as int) =~= all);
    TextureFiles::Tiles(tiles)
}

/// The tiles of which a file was opened.
pub open spec fn found_tiles(opened: Seq<(u32, Option<u32>)>) -> Seq<(u32, u32)>
    decreases opened.len(),
{
    if opened.len() == 0 {
        seq![]
    } else {
        let before = found_tiles(opened.drop_last());
        match opened.last().1 {
            Some(id) => before.push((opened.last().0, id)),
            None => before,
        }
    }
}

/// The texture of the tiles that were looked for; each with the id that it was opened
/// under, if it was.
pub fn tiled_texture(opened: &Vec<(u32, Option<u32>)>) -> (r: TexRef)
    ensures
        r@ == if found_tiles(opened@).len() == 0 {
            pattern_codegen::TexRefView::Missing
        } else {
            pattern_codegen::TexRefView::Udim(found_tiles(opened@))
        },
{
    let n: usize = opened.len();
    let mut tiles: Vec<(u32, u32)> = Vec::new();
    let mut i: usize = 0;
    assert(opened@.take(0) =~= seq![]);
    while i < n
        invariant
            i <= n == opened@.len(),
            tiles@ == found_tiles(opened@.take(i as int)),
        decreases n - i,
    {
        assert(opened@.take(i + 1).drop_last() =~= opened@.take(i as int));
        assert(opened@.take(i + 1).last() == opened@[i as int]);
        match opened[i].1 {
            Some(id) => tiles.push((opened[i].0, id)),
            None => {},
        }
        i += 1;
    }
    assert(opened@.take(n as int) =~= opened@);
    if tiles.len() == 0 {
        TexRef::Missing
    } else {
        TexRef::Udim(tiles)
    }
}

// ---- laws ------------------------------------------------------------------

/// A name without the mark stands for itself, whatever the tile.
pub proof fn plain_names_stay(s: Seq<char>, p: int, number: Seq<char>)
    requires
        !has_tiles(s),
        0 <= p <= s.len(),
    ensures
        filled_from(s, p, number) == s.skip(p),
    decreases s.len() - p,
{
    if p < s.len() {
        assert(!marked_at(s, p));
        plain_names_stay(s, p + 1, number);
        assert(seq![s[p]] + s.skip(p + 1) =~= s.skip(p));
    } else {
        assert(s.skip(p) =~= seq![]);
    }
}

/// Only tiles that were opened are found, each with the id that it was opened under.
pub proof fn found_tiles_were_opened(opened: Seq<(u32, Option<u32>)>, k: int)
    requires
        0 <= k < found_tiles(opened).len(),
    ensures
        exists|i: int|
            0 <= i < opened.len() && #[trigger] opened[i] == (
                found_tiles(opened)[k].0,
                Some(found_tiles(opened)[k].1),
            ),
    decreases opened.len(),
{
    let before = found_tiles(opened.drop_last());
    if k < before.len() {
        found_tiles_were_opened(opened.drop_last(), k);
        let i = choose|i: int|
            0 <= i < opened.drop_last().len() && #[trigger] opened.drop_last()[i] == (
                before[k].0,
                Some(before[k].1),
            );
        assert(opened[i] == opened.drop_last()[i]);
    } else {
        assert(opened[opened.len() - 1] == opened.last());
    }
}

} // verus!
