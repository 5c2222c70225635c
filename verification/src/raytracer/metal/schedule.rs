//! How GPU work is cut up: row bands that stay clear of the watchdog, slabs and chunks of
//! path queues; and what the kernels are made of.

use crate::text::{chars_of, push_text};
use vstd::prelude::*;
use vstd::string::*;

verus! {

/// Rows of one dispatch of the direct renderer.
pub const ROWS_PER_BAND: usize = 256;

/// Rows of one dispatch after the watchdog stopped a band.
pub const RETRY_ROWS: usize = 8;

/// Paths of a slab.
pub const WF_SLAB: usize = 2097152;

/// Paths of one dispatch.
pub const CHUNK: usize = 262144;

/// Waves after which a slab's paths are given up.
pub const MAX_WAVES: u32 = 128;

/// Samples in flight per chunk of pixels.
pub const TARGET_SAMPLES: usize = 1048576;

// ---- pieces ----------------------------------------------------------------

/// A piece of something long: where it starts and how long it is.
#[derive(Clone, Copy, Debug, PartialEq, Eq, Structural)]
pub struct Piece {
    pub start: usize,
    pub len: usize,
}

/// `[from, to)` in pieces of `size`, the last one shorter where need be.
pub open spec fn pieces_of(from: int, to: int, size: int) -> Seq<Piece>
    decreases to - from,
{
    if size <= 0 || from >= to {
        seq![]
    } else {
        let n = if to - from < size {
            to - from
        } else {
            size
        };
        seq![Piece { start: from as usize, len: n as usize }] + pieces_of(from + n, to, size)
    }
}

/// `[from, to)` in pieces of `size`.
pub fn cut(from: usize, to: usize, size: usize) -> (r: Vec<Piece>)
    requires
        from <= to,
        size >= 1,
    ensures
        r@ == pieces_of(from as int, to as int, size as int),
{
    let ghost all = pieces_of(from as int, to as int, size as int);
    let mut out: Vec<Piece> = Vec::new();
    let mut p: usize = from;
    assert(out@ + all =~= all);
    while p < to
        invariant
            from <= p <= to,
            size >= 1,
            all == out@ + pieces_of(p as int, to as int, size as int),
        decreases to - p,
    {
        let n: usize = if to - p < size {
            to - p
        } else {
            size
        };
        let piece: Piece = Piece { start: p, len: n };
        let ghost before = out@;
        let ghost rest = pieces_of(p + n, to as int, size as int);
        out.push(piece);
        assert(before + (seq![piece] + rest) =~= out@ + rest);
        p += n;
    }
    assert(out@ + pieces_of(p as int, to as int, size as int) =~= out@);
    out
}

/// Pieces follow on each other without gaps, none is empty or longer than asked for, and
/// together they are the whole: every position lies in exactly one.
pub proof fn pieces_cover(from: int, to: int, size: int, p: int)
    requires
        0 <= from <= to <= usize::MAX,
        size >= 1,
        from <= p < to,
    ensures
        exists|k: int|
            0 <= k < pieces_of(from, to, size).len() && (#[trigger] pieces_of(
                from,
                to,
                size,
            )[k]).start <= p < pieces_of(from, to, size)[k].start + pieces_of(
                from,
                to,
                size,
            )[k].len,
        forall|k: int|
            0 <= k < pieces_of(from, to, size).len() ==> 1 <= (#[trigger] pieces_of(
                from,
                to,
                size,
            )[k]).len <= size && from <= pieces_of(from, to, size)[k].start,
        forall|j: int, k: int|
            0 <= j < k < pieces_of(from, to, size).len() ==> (#[trigger] pieces_of(
                from,
                to,
                size,
            )[j]).start + pieces_of(from, to, size)[j].len <= (#[trigger] pieces_of(
                from,
                to,
                size,
            )[k]).start,
    decreases to - from,
{
    let n = if to - from < size {
        to - from
    } else {
        size
    };
    let all = pieces_of(from, to, size);
    let rest = pieces_of(from + n, to, size);
    let first = Piece { start: from as usize, len: n as usize };
    assert(all == seq![first] + rest);
    if from + n < to {
        let q = if p < from + n {
            from + n
        } else {
            p
        };
        pieces_cover(from + n, to, size, q);
        if p >= from + n {
            let k = choose|k: int|
                0 <= k < rest.len() && (#[trigger] rest[k]).start <= q < rest[k].start
                    + rest[k].len;
            assert(all[k + 1] == rest[k]);
        } else {
            assert(all[0] == first);
        }
        assert forall|k: int| 0 <= k < all.len() implies 1 <= (#[trigger] all[k]).len <= size
            && from <= all[k].start by {
            if k > 0 {
                assert(all[k] == rest[k - 1]);
            }
        }
        assert forall|j: int, k: int| 0 <= j < k < all.len() implies (#[trigger] all[j]).start
            + all[j].len <= (#[trigger] all[k]).start by {
            assert(all[k] == rest[k - 1]);
            if j > 0 {
                assert(all[j] == rest[j - 1]);
            }
        }
    } else {
        assert(rest =~= seq![]);
        assert(all[0] == first);
    }
}

/// The dispatches of the direct renderer.
pub fn direct_bands(height: usize) -> (r: Vec<Piece>)
    ensures
        r@ == pieces_of(0, height as int, ROWS_PER_BAND as int),
{
    cut(0, height, ROWS_PER_BAND)
}

/// The dispatches of a queue of paths.
pub fn path_chunks(paths: usize) -> (r: Vec<Piece>)
    ensures
        r@ == pieces_of(0, paths as int, CHUNK as int),
{
    cut(0, paths, CHUNK)
}

/// The slabs of an image's pixels.
pub fn slabs(pixels: usize) -> (r: Vec<Piece>)
    ensures
        r@ == pieces_of(0, pixels as int, WF_SLAB as int),
{
    cut(0, pixels, WF_SLAB)
}

/// `lo`, `hi`, or what lies between them.
pub open spec fn between(v: int, lo: int, hi: int) -> int {
    if v < lo {
        lo
    } else if v > hi {
        hi
    } else {
        v
    }
}

/// Rows of one dispatch of the path tracer: fewer the wider the image is, so that the
/// pixels of a dispatch are bounded; or as asked for, within limits.
pub open spec fn rows_per_band(width: int, asked: Option<usize>) -> int {
    match asked {
        Some(n) => between(n as int, 8, 4096),
        None => between(
            250000int / if width == 0 {
                1
            } else {
                width
            },
            16,
            512,
        ),
    }
}

/// Rows of one dispatch of the path tracer.
pub fn pt_rows_per_band(width: usize, asked: Option<usize>) -> (r: usize)
    ensures
        r == rows_per_band(width as int, asked),
{
    match asked {
        Some(n) => {
            if n < 8 {
                8
            } else if n > 4096 {
                4096
            } else {
                n
            }
        },
        None => {
            let rows: usize = 250000 / if width == 0 {
                1
            } else {
                width
            };
            if rows < 16 {
                16
            } else if rows > 512 {
                512
            } else {
                rows
            }
        },
    }
}

/// The side of a threadgroup.
pub fn threadgroup_side(most_threads: usize) -> (r: usize)
    ensures
        r == if most_threads >= 256 {
            16int
        } else {
            8
        },
{
    if most_threads >= 256 {
        16
    } else {
        8
    }
}

/// How many pixels a chunk holds, for so many samples per pixel.
pub fn chunk_pixels(spp: usize) -> (r: usize)
    requires
        spp >= 1,
    ensures
        r == if TARGET_SAMPLES / spp >= 1 {
            TARGET_SAMPLES / spp
        } else {
            1
        },
{
    let n: usize = TARGET_SAMPLES / spp;
    if n >= 1 {
        n
    } else {
        1
    }
}

/// How many paths a slab holds.
pub fn slab_size(pixels: usize) -> (r: usize)
    ensures
        r == if pixels < WF_SLAB {
            pixels
        } else {
            WF_SLAB
        },
{
    if pixels < WF_SLAB {
        pixels
    } else {
        WF_SLAB
    }
}

/// The waves of a slab: how many paths are alive, how many waves there were, and which of
/// two queues they wait in.
#[derive(Clone, Copy, Debug, PartialEq, Eq, Structural)]
pub struct WaveState {
    pub live: usize,
    pub wave: u32,
    pub in_first: bool,
}

/// The waves of a slab after rays were generated: the counter of the first queue says how
/// many are alive.
pub fn first_wave(counter: usize, slab: usize) -> (r: WaveState)
    ensures
        r == (WaveState {
            live: if counter < slab {
                counter
            } else {
                slab
            },
            wave: 0,
            in_first: true,
        }),
{
    let live: usize = if counter < slab {
        counter
    } else {
        slab
    };
    WaveState { live, wave: 0, in_first: true }
}

/// Whether another wave is due.
pub open spec fn wave_due(s: WaveState) -> bool {
    s.live > 0 && s.wave < MAX_WAVES
}

/// Whether another wave is due.
pub fn is_wave_due(s: &WaveState) -> (r: bool)
    ensures
        r == wave_due(*s),
{
    s.live > 0 && s.wave < MAX_WAVES
}

/// The waves of a slab after one more: the queues change places.
pub fn next_wave(s: WaveState, counter: usize, slab: usize) -> (r: WaveState)
    requires
        wave_due(s),
    ensures
        r == (WaveState {
            live: if counter < slab {
                counter
            } else {
                slab
            },
            wave: (s.wave + 1) as u32,
            in_first: !s.in_first,
        }),
{
    let live: usize = if counter < slab {
        counter
    } else {
        slab
    };
    WaveState { live, wave: s.wave + 1, in_first: !s.in_first }
}

/// Where the wavefront samples of an image are: the sample, the slab of pixels, and the
/// waves of its paths once they were generated.
#[derive(Clone, Copy, Debug, PartialEq, Eq, Structural)]
pub struct SlabState {
    pub sample: u32,
    pub end: u32,
    pub slab: Piece,
    pub waves: Option<WaveState>,
}

/// What is dispatched for a slab.
#[derive(Clone, Copy, Debug, PartialEq, Eq, Structural)]
pub enum SlabJob {
    /// Rays of the slab's pixels, into the first queue.
    Generate { sample: u32, slab: Piece },
    /// One step of the paths that wait in a queue.
    Advance { sample: u32, slab: Piece, live: usize, in_first: bool },
}

/// The slab of `size` that starts at `start`.
pub open spec fn slab_at(start: int, pixels: int, size: int) -> Piece {
    Piece {
        start: start as usize,
        len: if pixels - start < size {
            (pixels - start) as usize
        } else {
            size as usize
        },
    }
}

/// Whether a place in an image of so many pixels is one that its slabs lead to.
pub open spec fn is_slab_place(s: SlabState, pixels: int, size: int) -> bool {
    &&& s.sample <= s.end
    &&& s.sample < s.end ==> s.slab.start < pixels && s.slab == slab_at(
        s.slab.start as int,
        pixels,
        size,
    )
    &&& match s.waves {
        Some(w) => s.sample < s.end && wave_due(w),
        None => true,
    }
}

/// What is dispatched next, or `None` where all samples are done.
pub open spec fn slab_job_at(s: SlabState) -> Option<SlabJob> {
    if s.sample >= s.end {
        None
    } else {
        Some(
            match s.waves {
                None => SlabJob::Generate { sample: s.sample, slab: s.slab },
                Some(w) => SlabJob::Advance {
                    sample: s.sample,
                    slab: s.slab,
                    live: w.live,
                    in_first: w.in_first,
                },
            },
        )
    }
}

/// The waves of a slab after a dispatch, by the counter of the queue that it filled.
pub open spec fn waves_after(s: SlabState, counter: int, size: int) -> WaveState {
    let live = if counter < size {
        counter as usize
    } else {
        size as usize
    };
    match s.waves {
        None => WaveState { live, wave: 0, in_first: true },
        Some(w) => WaveState { live, wave: (w.wave + 1) as u32, in_first: !w.in_first },
    }
}

/// The place after a dispatch: the next wave where one is due, else the next slab, or the
/// first one of the next sample.
pub open spec fn slab_place_after(
    s: SlabState,
    counter: int,
    pixels: int,
    size: int,
) -> SlabState {
    let waves = waves_after(s, counter, size);
    let next = s.slab.start + s.slab.len;
    if wave_due(waves) {
        SlabState { waves: Some(waves), ..s }
    } else if next < pixels {
        SlabState { slab: slab_at(next, pixels, size), waves: None, ..s }
    } else {
        SlabState {
            sample: (s.sample + 1) as u32,
            slab: slab_at(0, pixels, size),
            waves: None,
            ..s
        }
    }
}

fn slab_from(start: usize, pixels: usize, size: usize) -> (r: Piece)
    requires
        start <= pixels,
    ensures
        r == slab_at(start as int, pixels as int, size as int),
{
    let len: usize = if pixels - start < size {
        pixels - start
    } else {
        size
    };
    Piece { start, len }
}

impl SlabState {
    /// The place before the samples `[start, start + count)`; past them where the image
    /// has no pixels.
    pub fn new(start: u32, count: u32, pixels: usize, size: usize) -> (r: SlabState)
        requires
            start + count <= u32::MAX,
        ensures
            r == (SlabState {
                sample: if pixels == 0 {
                    (start + count) as u32
                } else {
                    start
                },
                end: (start + count) as u32,
                slab: slab_at(0, pixels as int, size as int),
                waves: None,
            }),
            is_slab_place(r, pixels as int, size as int),
    {
        let end: u32 = start + count;
        let sample: u32 = if pixels == 0 {
            end
        } else {
            start
        };
        SlabState { sample, end, slab: slab_from(0, pixels, size), waves: None }
    }

    /// What is dispatched next.
    pub fn job(&self) -> (r: Option<SlabJob>)
        ensures
            r == slab_job_at(*self),
    {
        if self.sample >= self.end {
            return None;
        }
        match self.waves {
            None => Some(SlabJob::Generate { sample: self.sample, slab: self.slab }),
            Some(w) => Some(
                SlabJob::Advance {
                    sample: self.sample,
                    slab: self.slab,
                    live: w.live,
                    in_first: w.in_first,
                },
            ),
        }
    }

    /// The place after a dispatch.
    pub fn after(self, counter: usize, pixels: usize, size: usize) -> (r: SlabState)
        requires
            is_slab_place(self, pixels as int, size as int),
            self.sample < self.end,
            size >= 1,
        ensures
            r == slab_place_after(self, counter as int, pixels as int, size as int),
            is_slab_place(r, pixels as int, size as int),
    {
        let waves: WaveState = match self.waves {
            None => first_wave(counter, size),
            Some(w) => next_wave(w, counter, size),
        };
        let mut here: SlabState = self;
        if is_wave_due(&waves) {
            here.waves = Some(waves);
            return here;
        }
        let next: usize = self.slab.start + self.slab.len;
        here.waves = None;
        if next < pixels {
            here.slab = slab_from(next, pixels, size);
        } else {
            here.slab = slab_from(0, pixels, size);
            here.sample = self.sample + 1;
        }
        here
    }
}

/// How many dispatches a place can at most be away from the end of its samples.
pub open spec fn slab_work_left(s: SlabState, pixels: int) -> (int, int, int) {
    (
        s.end - s.sample,
        pixels - s.slab.start,
        match s.waves {
            None => MAX_WAVES + 1,
            Some(w) => MAX_WAVES - w.wave,
        },
    )
}

/// Samples come to an end, whatever the counters say: with every dispatch fewer samples
/// are left, or as many and less of the image, or the same image and fewer waves.
pub proof fn slabs_come_to_an_end(s: SlabState, counter: usize, pixels: int, size: int)
    requires
        is_slab_place(s, pixels, size),
        s.sample < s.end,
        1 <= size <= usize::MAX,
        pixels <= usize::MAX,
    ensures
        ({
            let a = slab_work_left(s, pixels);
            let b = slab_work_left(slab_place_after(s, counter as int, pixels, size), pixels);
            &&& b.0 >= 0
            &&& b.0 < a.0 || (b.0 == a.0 && 0 <= b.1 < a.1) || (b.0 == a.0 && b.1 == a.1 && 0 <= b.2
                < a.2)
        }),
{
}

// ---- the watchdog ----------------------------------------------------------

/// Whether a text holds another at `p`.
pub open spec fn holds_at(s: Seq<char>, part: Seq<char>, p: int) -> bool {
    0 <= p && p + part.len() <= s.len() && s.subrange(p, p + part.len()) == part
}

/// Whether a text holds another.
pub open spec fn holds_text(s: Seq<char>, part: Seq<char>) -> bool {
    exists|p: int| #[trigger] holds_at(s, part, p)
}

/// Whether a text holds another.
pub fn contains_text(s: &str, part: &str) -> (r: bool)
    ensures
        r == holds_text(s@, part@),
{
    let a: Vec<char> = chars_of(s);
    let b: Vec<char> = chars_of(part);
    let n: usize = a.len();
    let m: usize = b.len();
    if m > n {
        return false;
    }
    let last: usize = n - m;
    let mut p: usize = 0;
    loop
        invariant
            p <= last,
            n == a@.len(),
            m == b@.len(),
            last == n - m,
            a@ == s@,
            b@ == part@,
            forall|q: int| 0 <= q < p ==> !#[trigger] holds_at(s@, part@, q),
        decreases last - p,
    {
        let mut k: usize = 0;
        while k < m && a[p + k] == b[k]
            invariant
                k <= m,
                p + m <= n,
                n == a@.len(),
                m == b@.len(),
                forall|j: int| 0 <= j < k ==> a@[p + j] == #[trigger] b@[j],
            decreases m - k,
        {
            k += 1;
        }
        if k == m {
            assert(s@.subrange(p as int, p + m) =~= part@);
            assert(holds_at(s@, part@, p as int));
            return true;
        }
        proof {
            if holds_at(s@, part@, p as int) {
                assert(s@.subrange(p as int, p + m)[k as int] == a@[p + k]);
            }
        }
        if p == last {
            return false;
        }
        p += 1;
    }
}

/// Whether a failed dispatch is tried again in thin slices: only the watchdog's kills are.
pub fn is_watchdog_kill(detail: &str) -> (r: bool)
    ensures
        r == holds_text(detail@, "Interactivity"@),
{
    contains_text(detail, "Interactivity")
}

/// What is dispatched: rows of one sample.
#[derive(Clone, Copy, Debug, PartialEq, Eq, Structural)]
pub struct BandJob {
    pub sample: u32,
    pub y0: usize,
    pub rows: usize,
}

/// Where the samples of an image are: the sample and its band, and, once the watchdog
/// has stopped that band, the first row of it that is still to be done in slices.
#[derive(Clone, Copy, Debug, PartialEq, Eq, Structural)]
pub struct BandState {
    pub sample: u32,
    pub end: u32,
    pub y0: usize,
    pub slice: Option<usize>,
}

/// How a dispatch ended.
#[derive(Clone, Copy, Debug, PartialEq, Eq, Structural)]
pub enum BandEvent {
    Completed,
    /// The watchdog stopped it.
    Killed,
    Failed,
}

/// Why samples are given up.
#[derive(Clone, Copy, Debug, PartialEq, Eq, Structural)]
pub enum BandFailure {
    /// A band failed, and not by the watchdog.
    Band,
    /// A slice failed.
    Slice,
}

/// The end of the band that starts at `y0`.
pub open spec fn band_end(y0: int, height: int, rows: int) -> int {
    if height - y0 < rows {
        height
    } else {
        y0 + rows
    }
}

/// Whether a place in an image of `height` rows is one that its bands lead to.
pub open spec fn is_place(s: BandState, height: int, rows: int) -> bool {
    &&& s.sample <= s.end
    &&& s.sample < s.end ==> s.y0 < height
    &&& match s.slice {
        Some(r) => s.sample < s.end && s.y0 <= r < band_end(s.y0 as int, height, rows),
        None => true,
    }
}

/// What is dispatched next, or `None` where all samples are done.
pub open spec fn job_at(s: BandState, height: int, rows: int) -> Option<BandJob> {
    if s.sample >= s.end {
        None
    } else {
        let end = band_end(s.y0 as int, height, rows);
        Some(
            match s.slice {
                None => BandJob { sample: s.sample, y0: s.y0, rows: (end - s.y0) as usize },
                Some(r) => BandJob {
                    sample: s.sample,
                    y0: r,
                    rows: if end - r < RETRY_ROWS {
                        (end - r) as usize
                    } else {
                        RETRY_ROWS
                    },
                },
            },
        )
    }
}

/// The place behind a band: the next band, or the first one of the next sample.
pub open spec fn behind_band(s: BandState, height: int, rows: int) -> BandState {
    let end = band_end(s.y0 as int, height, rows);
    if end < height {
        BandState { y0: end as usize, slice: None, ..s }
    } else {
        BandState { sample: (s.sample + 1) as u32, y0: 0, slice: None, ..s }
    }
}

/// The place after a dispatch.
pub open spec fn place_after(s: BandState, event: BandEvent, height: int, rows: int) -> Result<
    BandState,
    BandFailure,
> {
    match (s.slice, event) {
        (None, BandEvent::Completed) => Ok(behind_band(s, height, rows)),
        (None, BandEvent::Killed) => Ok(BandState { slice: Some(s.y0), ..s }),
        (None, BandEvent::Failed) => Err(BandFailure::Band),
        (Some(r), BandEvent::Completed) => {
            if r + RETRY_ROWS < band_end(s.y0 as int, height, rows) {
                Ok(BandState { slice: Some((r + RETRY_ROWS) as usize), ..s })
            } else {
                Ok(behind_band(s, height, rows))
            }
        },
        (Some(_), _) => Err(BandFailure::Slice),
    }
}

impl BandState {
    /// The place before the samples `[start, start + count)`; past them where the image
    /// has no rows.
    pub fn new(start: u32, count: u32, height: usize) -> (r: BandState)
        requires
            start + count <= u32::MAX,
        ensures
            r == (BandState {
                sample: if height == 0 {
                    (start + count) as u32
                } else {
                    start
                },
                end: (start + count) as u32,
                y0: 0,
                slice: None,
            }),
            forall|rows: int| is_place(r, height as int, rows),
    {
        let end: u32 = start + count;
        let sample: u32 = if height == 0 {
            end
        } else {
            start
        };
        BandState { sample, end, y0: 0, slice: None }
    }

    /// What is dispatched next.
    pub fn job(&self, height: usize, rows: usize) -> (r: Option<BandJob>)
        requires
            is_place(*self, height as int, rows as int),
            rows >= 1,
        ensures
            r == job_at(*self, height as int, rows as int),
    {
        if self.sample >= self.end {
            return None;
        }
        let end: usize = if height - self.y0 < rows {
            height
        } else {
            self.y0 + rows
        };
        match self.slice {
            None => Some(BandJob { sample: self.sample, y0: self.y0, rows: end - self.y0 }),
            Some(r) => {
                let n: usize = if end - r < RETRY_ROWS {
                    end - r
                } else {
                    RETRY_ROWS
                };
                Some(BandJob { sample: self.sample, y0: r, rows: n })
            },
        }
    }

    /// The place after a dispatch: a band that the watchdog stopped is done again in thin
    /// slices, and every other failure ends the work.
    pub fn after(self, event: BandEvent, height: usize, rows: usize) -> (r: Result<
        BandState,
        BandFailure,
    >)
        requires
            is_place(self, height as int, rows as int),
            self.sample < self.end,
            rows >= 1,
        ensures
            r == place_after(self, event, height as int, rows as int),
            r is Ok ==> is_place(r->Ok_0, height as int, rows as int),
    {
        let end: usize = if height - self.y0 < rows {
            height
        } else {
            self.y0 + rows
        };
        let next: BandState = if end < height {
            BandState { sample: self.sample, end: self.end, y0: end, slice: None }
        } else {
            BandState { sample: self.sample + 1, end: self.end, y0: 0, slice: None }
        };
        let mut here: BandState = self;
        match self.slice {
            None => match event {
                BandEvent::Completed => Ok(next),
                BandEvent::Killed => {
                    here.slice = Some(self.y0);
                    Ok(here)
                },
                BandEvent::Failed => Err(BandFailure::Band),
            },
            Some(r) => match event {
                BandEvent::Completed => {
                    if end - r > RETRY_ROWS {
                        here.slice = Some(r + RETRY_ROWS);
                        Ok(here)
                    } else {
                        Ok(next)
                    }
                },
                BandEvent::Killed => Err(BandFailure::Slice),
                BandEvent::Failed => Err(BandFailure::Slice),
            },
        }
    }
}

/// The dispatches of the bands of a sample from `y0` on, all of which complete.
pub open spec fn smooth_jobs(sample: u32, y0: int, height: int, rows: int) -> Seq<Piece>
    decreases height - y0,
{
    let s = BandState { sample, end: (sample + 1) as u32, y0: y0 as usize, slice: None };
    if y0 < 0 || y0 >= height || rows < 1 {
        seq![]
    } else {
        let job = job_at(s, height, rows)->Some_0;
        let next = place_after(s, BandEvent::Completed, height, rows)->Ok_0;
        seq![Piece { start: job.y0, len: job.rows }] + if next.sample == sample && next.y0 > y0 {
            smooth_jobs(sample, next.y0 as int, height, rows)
        } else {
            seq![]
        }
    }
}

/// Where nothing goes wrong, the dispatches of a sample are its rows in bands.
pub proof fn smooth_samples_are_bands(sample: u32, y0: int, height: int, rows: int)
    requires
        sample < u32::MAX,
        0 <= y0 <= height <= usize::MAX,
        1 <= rows <= usize::MAX,
    ensures
        smooth_jobs(sample, y0, height, rows) == pieces_of(y0, height, rows),
    decreases height - y0,
{
    if y0 < height {
        let end = band_end(y0, height, rows);
        if end < height {
            smooth_samples_are_bands(sample, end, height, rows);
        } else {
            assert(pieces_of(end, height, rows) =~= seq![]);
        }
    }
}

/// The dispatches of the slices of a stopped band from row `r` on, all of which complete.
pub open spec fn slice_jobs(s: BandState, r: int, height: int, rows: int) -> Seq<Piece>
    decreases band_end(s.y0 as int, height, rows) - r,
{
    if r < 0 || r >= band_end(s.y0 as int, height, rows) {
        seq![]
    } else {
        let here = BandState { slice: Some(r as usize), ..s };
        let job = job_at(here, height, rows)->Some_0;
        let next = place_after(here, BandEvent::Completed, height, rows)->Ok_0;
        seq![Piece { start: job.y0, len: job.rows }] + match next.slice {
            Some(n) => if n > r {
                slice_jobs(s, n as int, height, rows)
            } else {
                seq![]
            },
            None => seq![],
        }
    }
}

/// A band that the watchdog stops is done again in slices, and they are all of its rows.
pub proof fn stopped_bands_are_done_again(s: BandState, r: int, height: int, rows: int)
    requires
        is_place(s, height, rows),
        s.sample < s.end,
        s.slice is None,
        height <= usize::MAX,
        1 <= rows <= usize::MAX,
        s.y0 <= r <= band_end(s.y0 as int, height, rows),
    ensures
        place_after(s, BandEvent::Killed, height, rows) == Ok::<BandState, BandFailure>(
            BandState { slice: Some(s.y0), ..s },
        ),
        slice_jobs(s, r, height, rows) == pieces_of(
            r,
            band_end(s.y0 as int, height, rows),
            RETRY_ROWS as int,
        ),
    decreases band_end(s.y0 as int, height, rows) - r,
{
    let end = band_end(s.y0 as int, height, rows);
    if r < end {
        if r + RETRY_ROWS < end {
            stopped_bands_are_done_again(s, r + RETRY_ROWS, height, rows);
        } else {
            assert(pieces_of(end, end, RETRY_ROWS as int) =~= seq![]);
        }
    }
}

// ---- kernel sources --------------------------------------------------------

/// Sources one below the other.
pub open spec fn stacked(a: Seq<char>, b: Seq<char>) -> Seq<char> {
    a + "\n"@ + b
}

fn stack(a: &str, b: &str) -> (r: String)
    ensures
        r@ == stacked(a@, b@),
{
    let mut out: String = String::new();
    push_text(&mut out, a);
    push_text(&mut out, "\n");
    push_text(&mut out, b);
    assert(out@ =~= stacked(a@, b@));
    out
}

/// The source of the direct kernel.
pub fn whitted_source(common: &str, kernel: &str) -> (r: String)
    ensures
        r@ == stacked(common@, kernel@),
{
    stack(common, kernel)
}

/// The source of the path tracing kernel: common intersectors, the pattern runtime, the
/// generated pattern functions, then the kernel itself.
pub fn pt_source(common: &str, prelude: &str, pattern: &str, kernel: &str) -> (r: String)
    ensures
        r@ == stacked(stacked(stacked(common@, prelude@), pattern@), kernel@),
{
    let a: String = stack(common, prelude);
    let b: String = stack(a.as_str(), pattern);
    stack(b.as_str(), kernel)
}

/// The source of the wavefront kernels: all of the path tracing kernel, and the
/// scheduler.
pub fn wf_source(
    common: &str,
    prelude: &str,
    pattern: &str,
    kernel: &str,
    scheduler: &str,
) -> (r: String)
    ensures
        r@ == stacked(
            stacked(stacked(stacked(common@, prelude@), pattern@), kernel@),
            scheduler@,
        ),
{
    let a: String = pt_source(common, prelude, pattern, kernel);
    stack(a.as_str(), scheduler)
}

} // verus!
