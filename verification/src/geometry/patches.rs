//! Parametric patches: basis names, control grids, and the sample grids that
//! they are diced into. Grid vertices are shared across patch boundaries, so the
//! tessellation has no cracks.

use crate::arith;
use crate::arith::{computes, over, Op};
use crate::double;
use crate::text;
use vstd::prelude::*;
use vstd::string::*;

verus! {

/// A cubic basis matrix: one of the named ones, or 16 numbers at index `value` of
/// request `request`.
#[derive(Clone, Copy, Debug, PartialEq, Eq, Structural)]
pub enum Basis {
    Bezier,
    BSpline,
    CatmullRom,
    Hermite,
    Power,
    Given { request: usize, value: usize },
}

/// A basis and how many control points lie between two patches.
#[derive(Clone, Copy, Debug, PartialEq, Eq, Structural)]
pub struct BasisUse {
    pub basis: Basis,
    pub step: usize,
}

/// The basis of that name, with its usual step.
pub open spec fn named_basis(name: Seq<char>) -> Option<BasisUse> {
    if name == "bezier"@ {
        Some(BasisUse { basis: Basis::Bezier, step: 3 })
    } else if name == "b-spline"@ || name == "bspline"@ {
        Some(BasisUse { basis: Basis::BSpline, step: 1 })
    } else if name == "catmull-rom"@ || name == "catmullrom"@ {
        Some(BasisUse { basis: Basis::CatmullRom, step: 1 })
    } else if name == "hermite"@ {
        Some(BasisUse { basis: Basis::Hermite, step: 2 })
    } else if name == "power"@ {
        Some(BasisUse { basis: Basis::Power, step: 4 })
    } else {
        None
    }
}

/// The basis of that name, with its usual step.
pub fn basis_by_name(name: &str) -> (r: Option<BasisUse>)
    ensures
        r == named_basis(name@),
{
    if text::same_text(name, "bezier") {
        Some(BasisUse { basis: Basis::Bezier, step: 3 })
    } else if text::same_text(name, "b-spline") || text::same_text(name, "bspline") {
        Some(BasisUse { basis: Basis::BSpline, step: 1 })
    } else if text::same_text(name, "catmull-rom") || text::same_text(name, "catmullrom") {
        Some(BasisUse { basis: Basis::CatmullRom, step: 1 })
    } else if text::same_text(name, "hermite") {
        Some(BasisUse { basis: Basis::Hermite, step: 2 })
    } else if text::same_text(name, "power") {
        Some(BasisUse { basis: Basis::Power, step: 4 })
    } else {
        None
    }
}

/// How many patches lie along one direction of a bicubic control grid.
pub open spec fn bicubic_spans(n: nat, step: nat, wrap: bool) -> nat {
    if step == 0 {
        0
    } else if wrap {
        n / step
    } else if n < 4 {
        0
    } else {
        ((n - 4) / step as int + 1) as nat
    }
}

/// How many patches lie along one direction of a bicubic control grid; 0 where
/// the grid is too small, or the step is 0.
pub fn bicubic_span_count(n: usize, step: usize, wrap: bool) -> (r: usize)
    ensures
        r == bicubic_spans(n as nat, step as nat, wrap),
{
    if step == 0 {
        0
    } else if wrap {
        n / step
    } else if n < 4 {
        0
    } else {
        let q: usize = (n - 4) / step;
        assert(q <= n - 4) by (nonlinear_arith)
            requires
                q == (n - 4) as nat / step as nat,
                step >= 1,
                n >= 4,
        ;
        q + 1
    }
}

/// How many patches lie along one direction of a bilinear control grid.
pub open spec fn bilinear_spans(n: nat, wrap: bool) -> nat {
    if n < 2 {
        0
    } else if wrap {
        n
    } else {
        (n - 1) as nat
    }
}

/// How many patches lie along one direction of a bilinear control grid.
pub fn bilinear_span_count(n: usize, wrap: bool) -> (r: usize)
    ensures
        r == bilinear_spans(n as nat, wrap),
{
    if n < 2 {
        0
    } else if wrap {
        n
    } else {
        n - 1
    }
}

/// Whether a flat array of triples covers a grid of `nu` by `nv` control points.
pub open spec fn covers_grid(len: nat, nu: nat, nv: nat, stride: nat) -> bool {
    len >= nu * nv * stride
}

/// Whether a flat array covers a grid of control points of `stride` numbers each.
pub fn grid_is_covered(len: usize, nu: usize, nv: usize, stride: usize) -> (r: bool)
    requires
        stride == 3 || stride == 4,
    ensures
        r == covers_grid(len as nat, nu as nat, nv as nat, stride as nat),
{
    let have: u128 = (len / stride) as u128;
    assert(nu * nv <= 0xffff_ffff_ffff_ffff * 0xffff_ffff_ffff_ffff) by (nonlinear_arith)
        requires
            0 <= nu <= 0xffff_ffff_ffff_ffff,
            0 <= nv <= 0xffff_ffff_ffff_ffff,
    ;
    let need: u128 = nu as u128 * nv as u128;
    if stride == 3 {
        assert(len as nat / 3 >= need <==> len >= need * 3);
    } else {
        assert(len as nat / 4 >= need <==> len >= need * 4);
    }
    have >= need
}

/// A grid of samples over patches, and the triangles between them.
#[derive(Debug)]
pub struct PatchGrid {
    /// Samples along each direction.
    pub gu: usize,
    pub gv: usize,
    /// Row by row.
    pub samples: Vec<GridSample>,
    /// Three sample indices per triangle.
    pub indices: Vec<u32>,
}

/// A sample of a grid: its place, and the patch that it lies on.
#[derive(Clone, Copy, Debug, PartialEq, Eq, Structural)]
pub struct GridSample {
    pub su: usize,
    pub sv: usize,
    pub pu: usize,
    pub pv: usize,
}

/// What a grid is.
#[verifier::ext_equal]
pub struct GridView {
    pub gu: int,
    pub gv: int,
    pub samples: Seq<GridSample>,
    pub indices: Seq<u32>,
}

impl View for PatchGrid {
    type V = GridView;

    open spec fn view(&self) -> GridView {
        GridView {
            gu: self.gu as int,
            gv: self.gv as int,
            samples: self.samples@,
            indices: self.indices@,
        }
    }
}

/// How many samples lie along a direction of `spans` patches, each cut into `segs`; a
/// wrapped direction has no second copy of its seam.
pub open spec fn grid_side(spans: int, segs: int, wrap: bool) -> int {
    if wrap {
        spans * segs
    } else {
        spans * segs + 1
    }
}

/// How many cells lie along a direction.
pub open spec fn grid_cells(side: int, wrap: bool) -> int {
    if wrap {
        side
    } else {
        side - 1
    }
}

/// The patch that a sample lies on; the last sample lies on the last one.
pub open spec fn patch_of(s: int, segs: int, spans: int) -> int {
    if s / segs < spans - 1 {
        s / segs
    } else {
        spans - 1
    }
}

/// The index of the sample at a place; places run around.
pub open spec fn place_index(cu: int, cv: int, gu: int, gv: int) -> u32 {
    ((cv % gv) * gu + cu % gu) as u32
}

/// The two triangles of a cell.
pub open spec fn cell_indices(cu: int, cv: int, gu: int, gv: int) -> Seq<u32> {
    let a = place_index(cu, cv, gu, gv);
    let b = place_index(cu + 1, cv, gu, gv);
    let c = place_index(cu + 1, cv + 1, gu, gv);
    let d = place_index(cu, cv + 1, gu, gv);
    seq![a, b, c, a, c, d]
}

/// The triangles of the first `n` cells of a row.
pub open spec fn row_indices(n: int, cv: int, gu: int, gv: int) -> Seq<u32>
    decreases n,
{
    if n <= 0 {
        seq![]
    } else {
        row_indices(n - 1, cv, gu, gv) + cell_indices(n - 1, cv, gu, gv)
    }
}

/// The triangles of the first `n` rows.
pub open spec fn grid_indices(n: int, cells_u: int, gu: int, gv: int) -> Seq<u32>
    decreases n,
{
    if n <= 0 {
        seq![]
    } else {
        grid_indices(n - 1, cells_u, gu, gv) + row_indices(cells_u, n - 1, gu, gv)
    }
}

/// The grid over `npu` by `npv` patches, each cut into `segs_u` by `segs_v`.
pub open spec fn grid_over(
    npu: int,
    npv: int,
    segs_u: int,
    segs_v: int,
    u_wrap: bool,
    v_wrap: bool,
) -> GridView {
    let gu = grid_side(npu, segs_u, u_wrap);
    let gv = grid_side(npv, segs_v, v_wrap);
    GridView {
        gu,
        gv,
        samples: Seq::new(
            (gu * gv) as nat,
            |k: int|
                GridSample {
                    su: (k % gu) as usize,
                    sv: (k / gu) as usize,
                    pu: patch_of(k % gu, segs_u, npu) as usize,
                    pv: patch_of(k / gu, segs_v, npv) as usize,
                },
        ),
        indices: grid_indices(grid_cells(gv, v_wrap), grid_cells(gu, u_wrap), gu, gv),
    }
}

/// Whether the samples of a grid can be counted.
pub open spec fn grid_fits(
    npu: int,
    npv: int,
    segs_u: int,
    segs_v: int,
    u_wrap: bool,
    v_wrap: bool,
) -> bool {
    &&& grid_side(npu, segs_u, u_wrap) <= usize::MAX
    &&& grid_side(npv, segs_v, v_wrap) <= usize::MAX
    &&& grid_side(npu, segs_u, u_wrap) * grid_side(npv, segs_v, v_wrap) <= usize::MAX
}

/// The patch that a sample lies on.
fn patch_index(s: usize, segs: usize, spans: usize) -> (r: usize)
    requires
        segs >= 1,
        spans >= 1,
    ensures
        r == patch_of(s as int, segs as int, spans as int),
{
    if s / segs < spans - 1 {
        s / segs
    } else {
        spans - 1
    }
}

/// The index of the sample at a place.
fn sample_index(cu: usize, cv: usize, gu: usize, gv: usize) -> (r: u32)
    requires
        1 <= gu,
        1 <= gv,
        gu * gv <= usize::MAX,
    ensures
        r == place_index(cu as int, cv as int, gu as int, gv as int),
{
    proof {
        place_is_inside(cu as int, cv as int, gu as int, gv as int);
    }
    #[verifier::truncate] (((cv % gv) * gu + cu % gu) as u32)
}

/// A place has an index among the samples.
proof fn place_is_inside(cu: int, cv: int, gu: int, gv: int)
    requires
        1 <= gu,
        1 <= gv,
    ensures
        0 <= (cv % gv) * gu,
        0 <= (cv % gv) * gu + cu % gu < gu * gv,
{
    assert(0 <= (cv % gv) * gu) by (nonlinear_arith)
        requires
            1 <= gu,
            1 <= gv,
    ;
    assert((cv % gv) * gu + gu <= gu * gv) by (nonlinear_arith)
        requires
            1 <= gu,
            1 <= gv,
    ;
}

/// Appends the triangles of a row.
fn push_row(indices: &mut Vec<u32>, cells_u: usize, cv: usize, gu: usize, gv: usize)
    requires
        1 <= gu,
        1 <= gv,
        gu * gv <= usize::MAX,
        cells_u <= gu,
        cv < gv,
    ensures
        final(indices)@ == old(indices)@ + row_indices(
            cells_u as int,
            cv as int,
            gu as int,
            gv as int,
        ),
{
    let ghost start = indices@;
    let mut cu: usize = 0;
    assert(indices@ =~= start + row_indices(0, cv as int, gu as int, gv as int));
    while cu < cells_u
        invariant
            1 <= gu,
            1 <= gv,
            gu * gv <= usize::MAX,
            cu <= cells_u <= gu,
            cv < gv,
            indices@ == start + row_indices(cu as int, cv as int, gu as int, gv as int),
        decreases cells_u - cu,
    {
        let u1: usize = if cu + 1 < gu {
            cu + 1
        } else {
            0
        };
        let v1: usize = if cv + 1 < gv {
            cv + 1
        } else {
            0
        };
        proof {
            vstd::arithmetic::div_mod::lemma_mod_self_0(gu as int);
            vstd::arithmetic::div_mod::lemma_mod_self_0(gv as int);
            vstd::arithmetic::div_mod::lemma_small_mod(u1 as nat, gu as nat);
            vstd::arithmetic::div_mod::lemma_small_mod(v1 as nat, gv as nat);
            assert((cu + 1) % gu as int == u1 as int % gu as int);
            assert((cv + 1) % gv as int == v1 as int % gv as int);
        }
        let a: u32 = sample_index(cu, cv, gu, gv);
        let b: u32 = sample_index(u1, cv, gu, gv);
        let c: u32 = sample_index(u1, v1, gu, gv);
        let d: u32 = sample_index(cu, v1, gu, gv);
        let ghost before = indices@;
        indices.push(a);
        indices.push(b);
        indices.push(c);
        indices.push(a);
        indices.push(c);
        indices.push(d);
        proof {
            let cell = cell_indices(cu as int, cv as int, gu as int, gv as int);
            assert(indices@ =~= before + cell);
            assert(indices@ =~= start + row_indices(cu + 1, cv as int, gu as int, gv as int));
        }
        cu += 1;
    }
}

/// Lays a grid over patches.
fn lay_grid(
    npu: usize,
    npv: usize,
    segs_u: usize,
    segs_v: usize,
    u_wrap: bool,
    v_wrap: bool,
) -> (r: PatchGrid)
    requires
        npu >= 1,
        npv >= 1,
        segs_u >= 1,
        segs_v >= 1,
        grid_fits(npu as int, npv as int, segs_u as int, segs_v as int, u_wrap, v_wrap),
    ensures
        r@ == grid_over(npu as int, npv as int, segs_u as int, segs_v as int, u_wrap, v_wrap),
{
    let ghost all = grid_over(
        npu as int,
        npv as int,
        segs_u as int,
        segs_v as int,
        u_wrap,
        v_wrap,
    );
    assert(npu * segs_u >= 1 && npv * segs_v >= 1) by (nonlinear_arith)
        requires
            npu >= 1,
            npv >= 1,
            segs_u >= 1,
            segs_v >= 1,
    ;
    let gu: usize = if u_wrap {
        npu * segs_u
    } else {
        npu * segs_u + 1
    };
    let gv: usize = if v_wrap {
        npv * segs_v
    } else {
        npv * segs_v + 1
    };
    let mut samples: Vec<GridSample> = Vec::new();
    let mut sv: usize = 0;
    assert(0 * gu == 0) by (nonlinear_arith);
    assert(all.samples.take(0) =~= samples@);
    while sv < gv
        invariant
            gu >= 1,
            gv >= 1,
            sv <= gv,
            npu >= 1,
            npv >= 1,
            segs_u >= 1,
            segs_v >= 1,
            gu * gv <= usize::MAX,
            gu == grid_side(npu as int, segs_u as int, u_wrap),
            gv == grid_side(npv as int, segs_v as int, v_wrap),
            all == grid_over(
                npu as int,
                npv as int,
                segs_u as int,
                segs_v as int,
                u_wrap,
                v_wrap,
            ),
            0 <= sv * gu,
            samples@ == all.samples.take(sv * gu),
        decreases gv - sv,
    {
        let pv: usize = patch_index(sv, segs_v, npv);
        let mut su: usize = 0;
        proof {
            assert((sv + 1) * gu == sv * gu + gu) by (nonlinear_arith);
            assert(sv * gu + gu <= gu * gv) by (nonlinear_arith)
                requires
                    sv + 1 <= gv,
                    gu >= 1,
            ;
        }
        while su < gu
            invariant
                gu >= 1,
                su <= gu,
                sv < gv,
                npu >= 1,
                segs_u >= 1,
                gu == grid_side(npu as int, segs_u as int, u_wrap),
                gv == grid_side(npv as int, segs_v as int, v_wrap),
                pv == patch_of(sv as int, segs_v as int, npv as int),
                all == grid_over(
                    npu as int,
                    npv as int,
                    segs_u as int,
                    segs_v as int,
                    u_wrap,
                    v_wrap,
                ),
                0 <= sv * gu,
                sv * gu + gu <= gu * gv,
                samples@ == all.samples.take(sv * gu + su),
            decreases gu - su,
        {
            let sample: GridSample = GridSample { su, sv, pu: patch_index(su, segs_u, npu), pv };
            proof {
                let k = sv * gu + su;
                vstd::arithmetic::div_mod::lemma_fundamental_div_mod_converse(
                    k,
                    gu as int,
                    sv as int,
                    su as int,
                );
                assert(all.samples[k] == sample);
                assert(all.samples.take(k + 1) =~= all.samples.take(k).push(sample));
            }
            samples.push(sample);
            su += 1;
        }
        sv += 1;
    }
    assert(gv * gu == gu * gv) by (nonlinear_arith);
    assert(all.samples.take(gv * gu) =~= all.samples);
    let cells_u: usize = if u_wrap {
        gu
    } else {
        gu - 1
    };
    let cells_v: usize = if v_wrap {
        gv
    } else {
        gv - 1
    };
    let mut indices: Vec<u32> = Vec::new();
    let mut cv: usize = 0;
    while cv < cells_v
        invariant
            gu >= 1,
            gv >= 1,
            gu * gv <= usize::MAX,
            cells_u <= gu,
            cv <= cells_v <= gv,
            indices@ == grid_indices(cv as int, cells_u as int, gu as int, gv as int),
        decreases cells_v - cv,
    {
        push_row(&mut indices, cells_u, cv, gu, gv);
        cv += 1;
    }
    let grid: PatchGrid = PatchGrid { gu, gv, samples, indices };
    assert(grid@ =~= all);
    grid
}

/// A patch mesh: how many numbers its control points have, how many of them lie along
/// each direction, and which directions close on themselves.
#[derive(Clone, Copy, Debug, PartialEq, Eq, Structural)]
pub struct PatchMeshDef {
    pub points_len: usize,
    pub nu: usize,
    pub nv: usize,
    pub u_wrap: bool,
    pub v_wrap: bool,
}

/// The grid over a bicubic patch mesh; none where control points are missing or there is
/// no patch.
pub open spec fn bicubic_grid(
    def: PatchMeshDef,
    ustep: nat,
    vstep: nat,
    segs: nat,
) -> Option<GridView> {
    let npu = bicubic_spans(def.nu as nat, ustep, def.u_wrap);
    let npv = bicubic_spans(def.nv as nat, vstep, def.v_wrap);
    if covers_grid(def.points_len as nat, def.nu as nat, def.nv as nat, 3) && npu > 0 && npv > 0 {
        Some(
            grid_over(npu as int, npv as int, segs as int, segs as int, def.u_wrap, def.v_wrap),
        )
    } else {
        None
    }
}

/// Whether a grid, where there is one, can be counted.
pub open spec fn countable(
    npu: int,
    npv: int,
    segs_u: int,
    segs_v: int,
    u_wrap: bool,
    v_wrap: bool,
) -> bool {
    npu > 0 && npv > 0 ==> grid_fits(npu, npv, segs_u, segs_v, u_wrap, v_wrap)
}

/// The grid over a bicubic patch mesh, each patch cut into `segs` along both directions.
pub fn tessellate_bicubic(
    def: &PatchMeshDef,
    ustep: usize,
    vstep: usize,
    segs: usize,
) -> (r: Option<PatchGrid>)
    requires
        ustep >= 1,
        vstep >= 1,
        segs >= 1,
        countable(
            bicubic_spans(def.nu as nat, ustep as nat, def.u_wrap) as int,
            bicubic_spans(def.nv as nat, vstep as nat, def.v_wrap) as int,
            segs as int,
            segs as int,
            def.u_wrap,
            def.v_wrap,
        ),
    ensures
        opt_grid(r) == bicubic_grid(*def, ustep as nat, vstep as nat, segs as nat),
{
    if !grid_is_covered(def.points_len, def.nu, def.nv, 3) {
        return None;
    }
    let npu: usize = bicubic_span_count(def.nu, ustep, def.u_wrap);
    let npv: usize = bicubic_span_count(def.nv, vstep, def.v_wrap);
    if npu == 0 || npv == 0 {
        return None;
    }
    Some(lay_grid(npu, npv, segs, segs, def.u_wrap, def.v_wrap))
}

/// What an optional grid is.
pub open spec fn opt_grid(g: Option<PatchGrid>) -> Option<GridView> {
    match g {
        Some(g) => Some(g@),
        None => None,
    }
}

/// The grid over a bilinear patch mesh.
pub open spec fn bilinear_grid(def: PatchMeshDef, segs: nat) -> Option<GridView> {
    let npu = bilinear_spans(def.nu as nat, def.u_wrap);
    let npv = bilinear_spans(def.nv as nat, def.v_wrap);
    if covers_grid(def.points_len as nat, def.nu as nat, def.nv as nat, 3) && npu > 0 && npv > 0 {
        Some(
            grid_over(npu as int, npv as int, segs as int, segs as int, def.u_wrap, def.v_wrap),
        )
    } else {
        None
    }
}

/// The grid over a bilinear patch mesh, each patch cut into `segs` along both directions.
pub fn tessellate_bilinear(def: &PatchMeshDef, segs: usize) -> (r: Option<PatchGrid>)
    requires
        segs >= 1,
        countable(
            bilinear_spans(def.nu as nat, def.u_wrap) as int,
            bilinear_spans(def.nv as nat, def.v_wrap) as int,
            segs as int,
            segs as int,
            def.u_wrap,
            def.v_wrap,
        ),
    ensures
        opt_grid(r) == bilinear_grid(*def, segs as nat),
{
    if !grid_is_covered(def.points_len, def.nu, def.nv, 3) {
        return None;
    }
    let npu: usize = bilinear_span_count(def.nu, def.u_wrap);
    let npv: usize = bilinear_span_count(def.nv, def.v_wrap);
    if npu == 0 || npv == 0 {
        return None;
    }
    Some(lay_grid(npu, npv, segs, segs, def.u_wrap, def.v_wrap))
}

/// The grid over a NURBS surface of `nu` by `nv` control points, which is one patch; a
/// rational point has four numbers, any other three.
pub fn tessellate_nurbs(
    points_len: usize,
    nu: usize,
    nv: usize,
    rational: bool,
    segs_u: usize,
    segs_v: usize,
) -> (r: Option<PatchGrid>)
    requires
        segs_u >= 1,
        segs_v >= 1,
        grid_fits(1, 1, segs_u as int, segs_v as int, false, false),
    ensures
        opt_grid(r) == if covers_grid(
            points_len as nat,
            nu as nat,
            nv as nat,
            if rational { 4 } else { 3 },
        ) {
            Some(grid_over(1, 1, segs_u as int, segs_v as int, false, false))
        } else {
            None
        },
{
    let stride: usize = if rational {
        4
    } else {
        3
    };
    if !grid_is_covered(points_len, nu, nv, stride) {
        return None;
    }
    Some(lay_grid(1, 1, segs_u, segs_v, false, false))
}

/// The bits of sixteen, of two, of 64, and of a twentieth.
pub const SIXTEEN: u64 = 0x4030_0000_0000_0000;

pub const TWO: u64 = 0x4000_0000_0000_0000;

pub const SIXTY_FOUR: u64 = 0x4050_0000_0000_0000;

pub const TWENTIETH: u64 = 0x3fa9_9999_9999_999a;

/// How many segments a patch is cut into: fewer the larger the shading rate is, from two to
/// 64.
pub open spec fn segments_at<F: Fn(Op, u64, u64) -> u64>(f: F, rate: u64) -> nat {
    double::cut_to(
        double::clamped(
            arith::quotient(f, SIXTEEN, double::greater(rate, TWENTIETH)),
            TWO,
            SIXTY_FOUR,
        ),
        usize::MAX as nat,
    )
}

/// How many segments a patch is cut into at a shading rate.
pub fn dice_segments<F: Fn(Op, u64, u64) -> u64>(rate: u64, f: &F) -> (r: usize)
    requires
        computes(*f),
    ensures
        r == segments_at(*f, rate),
{
    let q: u64 = over(f, SIXTEEN, double::larger_of(rate, TWENTIETH));
    double::to_usize(double::clamp(q, TWO, SIXTY_FOUR))
}

/// The segments along a direction of a NURBS surface: `base` for each of its spans, but at
/// least four and at most 128.
pub open spec fn segments_along(base: int, n: int, order: int) -> int {
    let spans = if n > order {
        n - order + 1
    } else {
        1
    };
    if base * spans < 4 {
        4
    } else if base * spans > 128 {
        128
    } else {
        base * spans
    }
}

/// The segments along a direction of a NURBS surface of `n` control points.
pub fn nurbs_segments(base: usize, n: usize, order: usize) -> (r: usize)
    ensures
        r == segments_along(base as int, n as int, order as int),
{
    let spans: u128 = if n > order {
        (n - order) as u128 + 1
    } else {
        1
    };
    assert(0 <= base * spans <= 0xffff_ffff_ffff_ffff * 0x1_0000_0000_0000_0000) by (nonlinear_arith)
        requires
            0 <= base <= 0xffff_ffff_ffff_ffff,
            1 <= spans <= 0x1_0000_0000_0000_0000,
    ;
    let total: u128 = base as u128 * spans;
    if total < 4 {
        4
    } else if total > 128 {
        128
    } else {
        total as usize
    }
}

/// The control point at a place; places run around.
pub open spec fn control_at(i: int, j: int, nu: int, nv: int) -> int {
    (j % nv) * nu + i % nu
}

/// The `across` by `across` control points from a place on, row by row.
pub fn controls(nu: usize, nv: usize, i: usize, j: usize, across: usize) -> (r: Vec<usize>)
    requires
        1 <= nu,
        1 <= nv,
        nu * nv <= usize::MAX,
        across <= 4,
        i + across <= usize::MAX,
        j + across <= usize::MAX,
    ensures
        r@.len() == across * across,
        forall|a: int, b: int|
            0 <= a < across && 0 <= b < across ==> #[trigger] r@[b * across + a] == control_at(
                i + a,
                j + b,
                nu as int,
                nv as int,
            ),
        forall|k: int| 0 <= k < r@.len() ==> #[trigger] r@[k] < nu * nv,
{
    let mut out: Vec<usize> = Vec::new();
    let mut b: usize = 0;
    assert(0 * across == 0) by (nonlinear_arith);
    while b < across
        invariant
            1 <= nu,
            1 <= nv,
            nu * nv <= usize::MAX,
            across <= 4,
            i + across <= usize::MAX,
            j + across <= usize::MAX,
            b <= across,
            out@.len() == b * across,
            forall|x: int, y: int|
                0 <= x < across && 0 <= y < b ==> #[trigger] out@[y * across + x] == control_at(
                    i + x,
                    j + y,
                    nu as int,
                    nv as int,
                ),
            forall|k: int| 0 <= k < out@.len() ==> #[trigger] out@[k] < nu * nv,
        decreases across - b,
    {
        let mut a: usize = 0;
        while a < across
            invariant
                1 <= nu,
                1 <= nv,
                nu * nv <= usize::MAX,
                across <= 4,
                i + across <= usize::MAX,
                j + across <= usize::MAX,
                b < across,
                a <= across,
                out@.len() == b * across + a,
                forall|x: int, y: int|
                    0 <= x < across && 0 <= y < b ==> #[trigger] out@[y * across + x]
                        == control_at(i + x, j + y, nu as int, nv as int),
                forall|x: int|
                    0 <= x < a ==> #[trigger] out@[b * across + x] == control_at(
                        i + x,
                        j + b,
                        nu as int,
                        nv as int,
                    ),
                forall|k: int| 0 <= k < out@.len() ==> #[trigger] out@[k] < nu * nv,
            decreases across - a,
        {
            proof {
                place_is_inside(i + a, j + b, nu as int, nv as int);
            }
            let ghost before = out@;
            out.push(((j + b) % nv) * nu + (i + a) % nu);
            proof {
                assert forall|x: int, y: int| 0 <= x < across && 0 <= y < b implies #[trigger] out@[y
                    * across + x] == control_at(i + x, j + y, nu as int, nv as int) by {
                    assert(0 <= y * across + x < b * across) by (nonlinear_arith)
                        requires
                            0 <= x < across,
                            0 <= y < b,
                    ;
                    assert(out@[y * across + x] == before[y * across + x]);
                }
            }
            a += 1;
        }
        assert((b + 1) * across == b * across + across) by (nonlinear_arith);
        b += 1;
    }
    out
}

/// The knot span that holds a parameter: the first that ends beyond it, or the last.
pub open spec fn span_from(knots: Seq<u64>, i: int, hi: int, t: u64) -> int
    decreases hi - i,
{
    if i >= hi - 1 || double::below(t, knots[i + 1]) {
        i
    } else {
        span_from(knots, i + 1, hi, t)
    }
}

/// Where the knot spans of a spline end.
pub open spec fn last_span(knots: nat, n_ctrl: nat, order: nat) -> int {
    if knots < order {
        0
    } else if n_ctrl < knots - order {
        n_ctrl as int
    } else {
        knots - order
    }
}

/// The knot span of a spline of that order that holds a parameter.
pub fn knot_span(knots: &[u64], n_ctrl: usize, order: usize, t: u64) -> (r: usize)
    requires
        order >= 1,
    ensures
        r == span_from(
            knots@,
            order - 1,
            last_span(knots@.len(), n_ctrl as nat, order as nat),
            t,
        ),
{
    let n: usize = knots.len();
    let room: usize = if n < order {
        0
    } else {
        n - order
    };
    let hi: usize = if n_ctrl < room {
        n_ctrl
    } else {
        room
    };
    let mut i: usize = order - 1;
    while hi >= 1 && i < hi - 1 && !double::less(t, knots[i + 1])
        invariant
            hi <= n == knots@.len(),
            span_from(knots@, order - 1, hi as int, t) == span_from(
                knots@,
                i as int,
                hi as int,
                t,
            ),
        decreases hi - i,
    {
        i += 1;
    }
    i
}

/// The triangles of a row name samples that there are.
proof fn row_names_samples(n: int, cv: int, gu: int, gv: int)
    requires
        1 <= gu,
        1 <= gv,
        gu * gv <= u32::MAX,
    ensures
        forall|i: int|
            0 <= i < row_indices(n, cv, gu, gv).len() ==> (#[trigger] row_indices(n, cv, gu, gv)[i])
                < gu * gv,
    decreases n,
{
    if n > 0 {
        row_names_samples(n - 1, cv, gu, gv);
        place_is_inside(n - 1, cv, gu, gv);
        place_is_inside(n, cv, gu, gv);
        place_is_inside(n, cv + 1, gu, gv);
        place_is_inside(n - 1, cv + 1, gu, gv);
        let before = row_indices(n - 1, cv, gu, gv);
        let cell = cell_indices(n - 1, cv, gu, gv);
        let all = row_indices(n, cv, gu, gv);
        assert forall|i: int| 0 <= i < all.len() implies (#[trigger] all[i]) < gu * gv by {
            if i < before.len() {
                assert(all[i] == before[i]);
            } else {
                assert(all[i] == cell[i - before.len()]);
            }
        }
    }
}

/// The triangles of a grid name samples that there are.
pub proof fn grids_name_their_samples(n: int, cells_u: int, gu: int, gv: int)
    requires
        1 <= gu,
        1 <= gv,
        gu * gv <= u32::MAX,
    ensures
        forall|i: int|
            0 <= i < grid_indices(n, cells_u, gu, gv).len() ==> (#[trigger] grid_indices(
                n,
                cells_u,
                gu,
                gv,
            )[i]) < gu * gv,
    decreases n,
{
    if n > 0 {
        grids_name_their_samples(n - 1, cells_u, gu, gv);
        row_names_samples(cells_u, n - 1, gu, gv);
        let before = grid_indices(n - 1, cells_u, gu, gv);
        let row = row_indices(cells_u, n - 1, gu, gv);
        let all = grid_indices(n, cells_u, gu, gv);
        assert forall|i: int| 0 <= i < all.len() implies (#[trigger] all[i]) < gu * gv by {
            if i < before.len() {
                assert(all[i] == before[i]);
            } else {
                assert(all[i] == row[i - before.len()]);
            }
        }
    }
}

/// A sample of a grid lies within its sides, and on one of its patches.
pub proof fn samples_lie_on_patches(
    npu: int,
    npv: int,
    segs_u: int,
    segs_v: int,
    u_wrap: bool,
    v_wrap: bool,
    k: int,
)
    requires
        npu >= 1,
        npv >= 1,
        segs_u >= 1,
        segs_v >= 1,
        grid_fits(npu, npv, segs_u, segs_v, u_wrap, v_wrap),
        npu <= usize::MAX,
        npv <= usize::MAX,
        0 <= k < grid_side(npu, segs_u, u_wrap) * grid_side(npv, segs_v, v_wrap),
    ensures
        ({
            let s = grid_over(npu, npv, segs_u, segs_v, u_wrap, v_wrap).samples[k];
            &&& s.su < grid_side(npu, segs_u, u_wrap)
            &&& s.sv < grid_side(npv, segs_v, v_wrap)
            &&& s.pu < npu
            &&& s.pv < npv
        }),
{
    let gu = grid_side(npu, segs_u, u_wrap);
    let gv = grid_side(npv, segs_v, v_wrap);
    assert(npu * segs_u >= 1) by (nonlinear_arith)
        requires
            npu >= 1,
            segs_u >= 1,
    ;
    assert(0 <= k / gu < gv) by (nonlinear_arith)
        requires
            0 <= k < gu * gv,
            gu >= 1,
    ;
    let su = k % gu;
    let sv = k / gu;
    assert(su / segs_u >= 0) by (nonlinear_arith)
        requires
            su >= 0,
            segs_u >= 1,
    ;
    assert(sv / segs_v >= 0) by (nonlinear_arith)
        requires
            sv >= 0,
            segs_v >= 1,
    ;
}

/// Neighbouring cells share the vertices of the edge between them, around the seam of a
/// wrapped direction too, so no crack opens.
pub proof fn cells_share_edges(cu: int, cv: int, gu: int, gv: int)
    requires
        0 <= cu < gu,
        0 <= cv < gv,
    ensures
        ({
            let here = cell_indices(cu, cv, gu, gv);
            let right = cell_indices((cu + 1) % gu, cv, gu, gv);
            let up = cell_indices(cu, (cv + 1) % gv, gu, gv);
            &&& here[1] == right[0]
            &&& here[2] == right[5]
            &&& here[5] == up[0]
            &&& here[2] == up[1]
        }),
{
    vstd::arithmetic::div_mod::lemma_mod_twice(cu + 1, gu);
    vstd::arithmetic::div_mod::lemma_mod_twice(cv + 1, gv);
}

/// Every triangle of a cell stands on samples of the grid.
pub proof fn cells_stand_on_samples(cu: int, cv: int, gu: int, gv: int, k: int)
    requires
        1 <= gu,
        1 <= gv,
        gu * gv <= u32::MAX,
        0 <= k < 6,
    ensures
        cell_indices(cu, cv, gu, gv)[k] < gu * gv,
{
    place_is_inside(cu, cv, gu, gv);
    place_is_inside(cu + 1, cv, gu, gv);
    place_is_inside(cu + 1, cv + 1, gu, gv);
    place_is_inside(cu, cv + 1, gu, gv);
}

} // verus!
