//! The voxel grid of a `.vox` scene.
//!
//! Every placed model is moved into the world; the grid spans the bounding box
//! of the models' moved boxes, one byte per cell: 0 for empty, otherwise the
//! voxel's palette index plus one. The grid is padded to a multiple of four
//! bytes so that the GPU can read it as 32-bit words.
use vstd::prelude::*;
use crate::vox::matrix::{apply_row, fits_i32, is_grid_transform, mat_at, VoxTransform};
use crate::vox::scene::{
    lemma_parse_never_outside, lemma_scene_is_well_placed, parse_scene, placements,
    spec_parse_scene, well_placed, Placement, VoxData, VoxError, VoxFile, VoxModelView, VoxVoxel,
};

verus! {

/// A voxel grid: its size in cells and one byte per cell, x fastest, then y, then z.
pub struct Model {
    pub width: u32,
    pub height: u32,
    pub depth: u32,
    pub voxels: Vec<u8>,
}

/// The value of `size as i32`: sizes above `i32::MAX` wrap around.
pub open spec fn size_as_i32(s: u32) -> int {
    if s <= 0x7fff_ffff {
        s as int
    } else {
        s as int - 0x1_0000_0000
    }
}

/// The far corner of a model's box, `size as i32 - 1` on each axis.
pub open spec fn spec_corner(m: VoxModelView) -> Option<Seq<int>> {
    let c = seq![size_as_i32(m.size_x) - 1, size_as_i32(m.size_y) - 1, size_as_i32(m.size_z) - 1];
    if fits_i32(c[0]) && fits_i32(c[1]) && fits_i32(c[2]) {
        Some(c)
    } else {
        None
    }
}

/// `t` applied to the point `(x, y, z)`.
pub open spec fn point_of(t: Seq<int>, x: int, y: int, z: int) -> Seq<int> {
    seq![apply_row(t, 0, x, y, z), apply_row(t, 1, x, y, z), apply_row(t, 2, x, y, z)]
}

pub open spec fn fits3(p: Seq<int>) -> bool {
    fits_i32(p[0]) && fits_i32(p[1]) && fits_i32(p[2])
}

pub open spec fn min_int(a: int, b: int) -> int {
    if a <= b {
        a
    } else {
        b
    }
}

pub open spec fn max_int(a: int, b: int) -> int {
    if a >= b {
        a
    } else {
        b
    }
}

/// The bounding box of the moved boxes of the placed models, as `(min, max)`
/// corners; `None` when a coordinate does not fit an `i32`. With nothing placed,
/// `min` is `i32::MAX` and `max` is `i32::MIN` on every axis.
pub open spec fn spec_bounds(vox: VoxFile, ps: Seq<Placement>) -> Option<(Seq<int>, Seq<int>)>
    decreases ps.len(),
{
    if ps.len() == 0 {
        Some((seq![i32::MAX as int, i32::MAX as int, i32::MAX as int], seq![i32::MIN as int, i32::MIN as int, i32::MIN as int]))
    } else {
        match spec_bounds(vox, ps.drop_last()) {
            None => None,
            Some((lo, hi)) => {
                let t = ps.last().0;
                let a = point_of(t, 0, 0, 0);
                match spec_corner(vox.models[ps.last().1]) {
                    None => None,
                    Some(c) => {
                        let b = point_of(t, c[0], c[1], c[2]);
                        if fits3(a) && fits3(b) {
                            Some(
                                (
                                    seq![
                                        min_int(min_int(lo[0], a[0]), b[0]),
                                        min_int(min_int(lo[1], a[1]), b[1]),
                                        min_int(min_int(lo[2], a[2]), b[2]),
                                    ],
                                    seq![
                                        max_int(max_int(hi[0], a[0]), b[0]),
                                        max_int(max_int(hi[1], a[1]), b[1]),
                                        max_int(max_int(hi[2], a[2]), b[2]),
                                    ],
                                ),
                            )
                        } else {
                            None
                        }
                    },
                }
            },
        }
    }
}

/// The number of cells from `lo` to `hi` inclusive, `hi - lo + 1`, when each step fits an `i32`.
pub open spec fn spec_extent(lo: int, hi: int) -> Option<int> {
    if fits_i32(hi - lo) && fits_i32(hi - lo + 1) {
        Some(hi - lo + 1)
    } else {
        None
    }
}

/// The grid's width, height and depth.
pub open spec fn spec_dims(lo: Seq<int>, hi: Seq<int>) -> Option<Seq<int>> {
    match (spec_extent(lo[0], hi[0]), spec_extent(lo[1], hi[1]), spec_extent(lo[2], hi[2])) {
        (Some(w), Some(h), Some(d)) => Some(seq![w, h, d]),
        _ => None,
    }
}

/// `n` rounded up to a multiple of four.
pub open spec fn round_up4(n: int) -> int {
    if n % 4 == 0 {
        n
    } else {
        (n / 4 + 1) * 4
    }
}

/// The grid's length in bytes: its cell count rounded up to a multiple of four,
/// when every step fits a `usize`.
pub open spec fn spec_voxel_count(dims: Seq<int>) -> Option<int> {
    let wh = dims[0] * dims[1];
    let whd = wh * dims[2];
    if wh <= usize::MAX && whd <= usize::MAX && round_up4(whd) <= usize::MAX {
        Some(round_up4(whd))
    } else {
        None
    }
}

/// Where one voxel of a model moved by `t` goes in the grid, and the byte it writes.
pub open spec fn spec_voxel_write(t: Seq<int>, v: VoxVoxel, lo: Seq<int>, dims: Seq<int>) -> Result<
    (int, u8),
    VoxError,
> {
    let p = point_of(t, v.x as int, v.y as int, v.z as int);
    let q = seq![p[0] - lo[0], p[1] - lo[1], p[2] - lo[2]];
    if !fits3(p) || !fits3(q) {
        Err(VoxError::Overflow)
    } else if !(0 <= q[0] < dims[0] && 0 <= q[1] < dims[1] && 0 <= q[2] < dims[2]) {
        Err(VoxError::VoxelOutsideBounds)
    } else if v.i == 255 {
        Err(VoxError::Overflow)
    } else {
        Ok((q[0] + q[1] * dims[0] + q[2] * dims[0] * dims[1], (v.i + 1) as u8))
    }
}

/// The writes of a model's voxels, in order.
pub open spec fn spec_model_writes(
    t: Seq<int>,
    vs: Seq<VoxVoxel>,
    lo: Seq<int>,
    dims: Seq<int>,
) -> Result<Seq<(int, u8)>, VoxError>
    decreases vs.len(),
{
    if vs.len() == 0 {
        Ok(Seq::empty())
    } else {
        match spec_model_writes(t, vs.drop_last(), lo, dims) {
            Err(e) => Err(e),
            Ok(ws) => match spec_voxel_write(t, vs.last(), lo, dims) {
                Err(e) => Err(e),
                Ok(w) => Ok(ws.push(w)),
            },
        }
    }
}

/// The writes of every placed model, in order.
pub open spec fn spec_writes(vox: VoxFile, ps: Seq<Placement>, lo: Seq<int>, dims: Seq<int>) -> Result<
    Seq<(int, u8)>,
    VoxError,
>
    decreases ps.len(),
{
    if ps.len() == 0 {
        Ok(Seq::empty())
    } else {
        match spec_writes(vox, ps.drop_last(), lo, dims) {
            Err(e) => Err(e),
            Ok(ws) => match spec_model_writes(
                ps.last().0,
                vox.models[ps.last().1].voxels,
                lo,
                dims,
            ) {
                Err(e) => Err(e),
                Ok(us) => Ok(ws + us),
            },
        }
    }
}

/// The grid `g` after the writes `ws`, in order: a later write to a cell wins.
pub open spec fn paint(g: Seq<u8>, ws: Seq<(int, u8)>) -> Seq<u8>
    decreases ws.len(),
{
    if ws.len() == 0 {
        g
    } else {
        paint(g, ws.drop_last()).update(ws.last().0, ws.last().1)
    }
}

/// A grid of `n` empty cells.
pub open spec fn empty_grid(n: nat) -> Seq<u8> {
    Seq::new(n, |k: int| 0u8)
}

/// The grid of a scene: its size, its cells, and the offset that moves world
/// coordinates onto the grid (minus the grid's lowest corner).
pub open spec fn spec_load(vox: VoxFile) -> Result<(Seq<int>, Seq<u8>, Seq<int>), VoxError> {
    match spec_parse_scene(vox) {
        Err(e) => Err(e),
        Ok(ps) => match spec_bounds(vox, ps) {
            None => Err(VoxError::Overflow),
            Some((lo, hi)) => match spec_dims(lo, hi) {
                None => Err(VoxError::Overflow),
                Some(dims) => match spec_voxel_count(dims) {
                    None => Err(VoxError::Overflow),
                    Some(n) => match spec_writes(vox, ps, lo, dims) {
                        Err(e) => Err(e),
                        Ok(ws) => if lo[0] == i32::MIN || lo[1] == i32::MIN || lo[2] == i32::MIN {
                            Err(VoxError::Overflow)
                        } else {
                            Ok((dims, paint(empty_grid(n as nat), ws), seq![-lo[0], -lo[1], -lo[2]]))
                        },
                    },
                },
            },
        },
    }
}

proof fn lemma_bounds_prefix(vox: VoxFile, ps: Seq<Placement>, k: int)
    requires
        0 <= k <= ps.len(),
        spec_bounds(vox, ps.take(k)) is None,
    ensures
        spec_bounds(vox, ps) is None,
    decreases ps.len(),
{
    if ps.len() == k {
        assert(ps.take(k) =~= ps);
    } else {
        assert(ps.drop_last().take(k) =~= ps.take(k));
        lemma_bounds_prefix(vox, ps.drop_last(), k);
    }
}

proof fn lemma_model_writes_prefix(t: Seq<int>, vs: Seq<VoxVoxel>, k: int, lo: Seq<int>, dims: Seq<int>)
    requires
        0 <= k <= vs.len(),
        spec_model_writes(t, vs.take(k), lo, dims) is Err,
    ensures
        spec_model_writes(t, vs, lo, dims) == spec_model_writes(t, vs.take(k), lo, dims),
    decreases vs.len(),
{
    if vs.len() == k {
        assert(vs.take(k) =~= vs);
    } else {
        assert(vs.drop_last().take(k) =~= vs.take(k));
        lemma_model_writes_prefix(t, vs.drop_last(), k, lo, dims);
    }
}

proof fn lemma_writes_prefix(vox: VoxFile, ps: Seq<Placement>, k: int, lo: Seq<int>, dims: Seq<int>)
    requires
        0 <= k <= ps.len(),
        spec_writes(vox, ps.take(k), lo, dims) is Err,
    ensures
        spec_writes(vox, ps, lo, dims) == spec_writes(vox, ps.take(k), lo, dims),
    decreases ps.len(),
{
    if ps.len() == k {
        assert(ps.take(k) =~= ps);
    } else {
        assert(ps.drop_last().take(k) =~= ps.take(k));
        lemma_writes_prefix(vox, ps.drop_last(), k, lo, dims);
    }
}

proof fn lemma_paint_push(g: Seq<u8>, ws: Seq<(int, u8)>, w: (int, u8))
    ensures
        paint(g, ws.push(w)) == paint(g, ws).update(w.0, w.1),
{
    assert(ws.push(w).drop_last() =~= ws);
}

proof fn lemma_bounds_ordered(vox: VoxFile, ps: Seq<Placement>)
    requires
        ps.len() > 0,
        spec_bounds(vox, ps) is Some,
    ensures
        forall|k: int|
            0 <= k < 3 ==> #[trigger] spec_bounds(vox, ps)->Some_0.0[k] <= spec_bounds(vox, ps)->Some_0.1[k],
    decreases ps.len(),
{
    if ps.len() > 1 {
        lemma_bounds_ordered(vox, ps.drop_last());
    }
}

proof fn lemma_index_bound(q0: int, q1: int, q2: int, w: int, h: int, d: int)
    requires
        0 <= q0 < w,
        0 <= q1 < h,
        0 <= q2 < d,
    ensures
        0 <= q0 + q1 * w + q2 * w * h < w * h * d,
        q1 * w + q2 * w * h <= (w * h * d) - w,
        0 <= q2 * w <= q2 * w * h,
{
    assert(0 <= q2 * w <= q2 * w * h) by (nonlinear_arith)
        requires
            0 <= q2,
            0 < w,
            0 < h,
    ;
    assert(0 <= q1 * w <= (h - 1) * w) by (nonlinear_arith)
        requires
            0 <= q1 < h,
            0 < w,
    ;
    assert(0 <= q2 * w * h <= (d - 1) * (w * h)) by (nonlinear_arith)
        requires
            0 <= q2 < d,
            0 < w,
            0 < h,
    ;
    assert((h - 1) * w + (d - 1) * (w * h) == w * h * d - w) by (nonlinear_arith);
}

/// The far corner coordinate `size as i32 - 1`.
fn corner_coord(s: u32) -> (c: Option<i32>)
    ensures
        c is Some <==> fits_i32(size_as_i32(s) - 1),
        c matches Some(v) ==> v as int == size_as_i32(s) - 1,
{
    let w: i64 = if s <= 0x7fff_ffff {
        s as i64
    } else {
        s as i64 - 0x1_0000_0000
    };
    if w - 1 < -0x8000_0000 {
        None
    } else {
        Some((w - 1) as i32)
    }
}

fn min_i32(a: i32, b: i32) -> (m: i32)
    ensures
        m as int == min_int(a as int, b as int),
{
    if a <= b {
        a
    } else {
        b
    }
}

fn max_i32(a: i32, b: i32) -> (m: i32)
    ensures
        m as int == max_int(a as int, b as int),
{
    if a >= b {
        a
    } else {
        b
    }
}

/// The bounding box of the moved boxes of the placed models.
fn scene_bounds(vox: &VoxData, scene: &Vec<(VoxTransform, usize)>) -> (r: Option<([i32; 3], [i32; 3])>)
    requires
        well_placed(vox@, placements(scene@)),
    ensures
        match spec_bounds(vox@, placements(scene@)) {
            None => r is None,
            Some((lo, hi)) => r matches Some((l, h)) && l[0] as int == lo[0] && l[1] as int == lo[1]
                && l[2] as int == lo[2] && h[0] as int == hi[0] && h[1] as int == hi[1] && h[2] as int
                == hi[2],
        },
{
    let ghost ps = placements(scene@);
    let mut lo: [i32; 3] = [i32::MAX, i32::MAX, i32::MAX];
    let mut hi: [i32; 3] = [i32::MIN, i32::MIN, i32::MIN];
    let mut i: usize = 0;
    while i < scene.len()
        invariant
            i <= scene.len(),
            ps == placements(scene@),
            well_placed(vox@, ps),
            spec_bounds(vox@, ps.take(i as int)) matches Some((l, h)) && lo[0] as int == l[0]
                && lo[1] as int == l[1] && lo[2] as int == l[2] && hi[0] as int == h[0] && hi[1] as int
                == h[1] && hi[2] as int == h[2],
        decreases scene.len() - i,
    {
        assert(ps.take(i + 1).drop_last() =~= ps.take(i as int));
        assert(ps.take(i + 1).last() == ps[i as int]);
        assert(ps[i as int] == (scene@[i as int].0@, scene@[i as int].1 as int));
        let (t, id) = scene[i];
        assert(is_grid_transform(ps[i as int].0));
        assert(0 <= ps[i as int].1 < vox.models@.len());
        let m = &vox.models[id];
        let a = t.apply(0, 0, 0);
        let cx = corner_coord(m.size_x);
        let cy = corner_coord(m.size_y);
        let cz = corner_coord(m.size_z);
        if cx.is_none() || cy.is_none() || cz.is_none() {
            proof {
                lemma_bounds_prefix(vox@, ps, i + 1);
            }
            return None;
        }
        let (cx, cy, cz) = (cx.unwrap(), cy.unwrap(), cz.unwrap());
        let b = t.apply(cx, cy, cz);
        if a.is_none() || b.is_none() {
            proof {
                lemma_bounds_prefix(vox@, ps, i + 1);
            }
            return None;
        }
        let (a, b) = (a.unwrap(), b.unwrap());
        lo = [
            min_i32(min_i32(lo[0], a[0]), b[0]),
            min_i32(min_i32(lo[1], a[1]), b[1]),
            min_i32(min_i32(lo[2], a[2]), b[2]),
        ];
        hi = [
            max_i32(max_i32(hi[0], a[0]), b[0]),
            max_i32(max_i32(hi[1], a[1]), b[1]),
            max_i32(max_i32(hi[2], a[2]), b[2]),
        ];
        i = i + 1;
    }
    assert(ps.take(scene.len() as int) =~= ps);
    Some((lo, hi))
}

/// `hi - lo + 1`, when each step fits an `i32`.
fn extent(lo: i32, hi: i32) -> (r: Option<i32>)
    ensures
        r is Some <==> spec_extent(lo as int, hi as int) is Some,
        r matches Some(v) ==> v as int == spec_extent(lo as int, hi as int)->0,
{
    let d = hi as i64 - lo as i64;
    if d < -0x8000_0000 || d > 0x7fff_ffff || d + 1 > 0x7fff_ffff {
        None
    } else {
        Some((d + 1) as i32)
    }
}

/// The grid's length: its cell count rounded up to a multiple of four.
fn voxel_count(w: u32, h: u32, d: u32) -> (r: Option<usize>)
    ensures
        r is Some <==> spec_voxel_count(seq![w as int, h as int, d as int]) is Some,
        r matches Some(n) ==> n as int == spec_voxel_count(seq![w as int, h as int, d as int])->0,
{
    let ghost dims = seq![w as int, h as int, d as int];
    let wh = match (w as usize).checked_mul(h as usize) {
        Some(v) => v,
        None => {
            return None;
        },
    };
    let whd = match wh.checked_mul(d as usize) {
        Some(v) => v,
        None => {
            assert(wh as int * d as int > usize::MAX);
            return None;
        },
    };
    let q = whd / 4 + if whd % 4 != 0 {
        1
    } else {
        0
    };
    match q.checked_mul(4) {
        Some(n) => {
            assert(n as int == round_up4(whd as int));
            Some(n)
        },
        None => {
            assert(round_up4(whd as int) > usize::MAX);
            None
        },
    }
}

/// Writes the voxels of every placed model into `grid`.
fn write_voxels(
    vox: &VoxData,
    scene: &Vec<(VoxTransform, usize)>,
    lo: [i32; 3],
    dims: [i32; 3],
    grid: &mut Vec<u8>,
) -> (r: Result<(), VoxError>)
    requires
        well_placed(vox@, placements(scene@)),
        0 < dims[0],
        0 < dims[1],
        0 < dims[2],
        dims[0] as int * dims[1] as int * dims[2] as int <= old(grid).len(),
    ensures
        match spec_writes(
            vox@,
            placements(scene@),
            seq![lo[0] as int, lo[1] as int, lo[2] as int],
            seq![dims[0] as int, dims[1] as int, dims[2] as int],
        ) {
            Err(e) => r == Err::<(), VoxError>(e),
            Ok(ws) => r is Ok && final(grid)@ == paint(old(grid)@, ws),
        },
{
    let ghost ps = placements(scene@);
    let ghost lo_s = seq![lo[0] as int, lo[1] as int, lo[2] as int];
    let ghost dims_s = seq![dims[0] as int, dims[1] as int, dims[2] as int];
    let ghost g0 = grid@;
    let ghost n = grid.len();
    let w = dims[0] as usize;
    let h = dims[1] as usize;
    let mut i: usize = 0;
    while i < scene.len()
        invariant
            i <= scene.len(),
            ps == placements(scene@),
            lo_s == seq![lo[0] as int, lo[1] as int, lo[2] as int],
            dims_s == seq![dims[0] as int, dims[1] as int, dims[2] as int],
            w == dims[0],
            h == dims[1],
            0 < dims[0],
            0 < dims[1],
            0 < dims[2],
            dims[0] as int * dims[1] as int * dims[2] as int <= n,
            grid.len() == n,
            g0.len() == n,
            well_placed(vox@, ps),
            spec_writes(vox@, ps.take(i as int), lo_s, dims_s) matches Ok(ws) && grid@ == paint(
                g0,
                ws,
            ),
        decreases scene.len() - i,
    {
        assert(ps.take(i + 1).drop_last() =~= ps.take(i as int));
        assert(ps.take(i + 1).last() == ps[i as int]);
        assert(ps[i as int] == (scene@[i as int].0@, scene@[i as int].1 as int));
        let (t, id) = scene[i];
        assert(is_grid_transform(ps[i as int].0));
        assert(0 <= ps[i as int].1 < vox.models@.len());
        let vs = &vox.models[id].voxels;
        let ghost ws_i = spec_writes(vox@, ps.take(i as int), lo_s, dims_s)->Ok_0;
        let mut j: usize = 0;
        while j < vs.len()
            invariant
                j <= vs.len(),
                i < scene.len(),
                lo_s == seq![lo[0] as int, lo[1] as int, lo[2] as int],
                dims_s == seq![dims[0] as int, dims[1] as int, dims[2] as int],
                w == dims[0],
                h == dims[1],
                0 < dims[0],
                0 < dims[1],
                0 < dims[2],
                dims[0] as int * dims[1] as int * dims[2] as int <= n,
                grid.len() == n,
                g0.len() == n,
                ps == placements(scene@),
                well_placed(vox@, ps),
                ps[i as int].0 == t@,
                vs@ == vox.models@[ps[i as int].1].voxels@,
                spec_writes(vox@, ps.take(i as int), lo_s, dims_s) == Ok::<Seq<(int, u8)>, VoxError>(
                    ws_i,
                ),
                ps.take(i + 1).drop_last() == ps.take(i as int),
                ps.take(i + 1).last() == ps[i as int],
                spec_model_writes(t@, vs@.take(j as int), lo_s, dims_s) matches Ok(us) && grid@
                    == paint(g0, ws_i + us),
            decreases vs.len() - j,
        {
            assert(vs@.take(j + 1).drop_last() =~= vs@.take(j as int));
            assert(vs@.take(j + 1).last() == vs@[j as int]);
            let ghost us = spec_model_writes(t@, vs@.take(j as int), lo_s, dims_s)->Ok_0;
            let v = vs[j];
            let p = t.apply(v.x as i32, v.y as i32, v.z as i32);
            if p.is_none() {
                proof {
                    lemma_model_writes_prefix(t@, vs@, j + 1, lo_s, dims_s);
                    lemma_writes_prefix(vox@, ps, i + 1, lo_s, dims_s);
                }
                return Err(VoxError::Overflow);
            }
            let p = p.unwrap();
            let qx = p[0] as i64 - lo[0] as i64;
            let qy = p[1] as i64 - lo[1] as i64;
            let qz = p[2] as i64 - lo[2] as i64;
            if qx < -0x8000_0000 || qx > 0x7fff_ffff || qy < -0x8000_0000 || qy > 0x7fff_ffff || qz
                < -0x8000_0000 || qz > 0x7fff_ffff {
                proof {
                    lemma_model_writes_prefix(t@, vs@, j + 1, lo_s, dims_s);
                    lemma_writes_prefix(vox@, ps, i + 1, lo_s, dims_s);
                }
                return Err(VoxError::Overflow);
            }
            if !(0 <= qx && qx < dims[0] as i64 && 0 <= qy && qy < dims[1] as i64 && 0 <= qz && qz
                < dims[2] as i64) {
                proof {
                    lemma_model_writes_prefix(t@, vs@, j + 1, lo_s, dims_s);
                    lemma_writes_prefix(vox@, ps, i + 1, lo_s, dims_s);
                }
                return Err(VoxError::VoxelOutsideBounds);
            }
            if v.i == 255 {
                proof {
                    lemma_model_writes_prefix(t@, vs@, j + 1, lo_s, dims_s);
                    lemma_writes_prefix(vox@, ps, i + 1, lo_s, dims_s);
                }
                return Err(VoxError::Overflow);
            }
            proof {
                lemma_index_bound(
                    qx as int,
                    qy as int,
                    qz as int,
                    dims[0] as int,
                    dims[1] as int,
                    dims[2] as int,
                );
            }
            let index = qx as usize + qy as usize * w + qz as usize * w * h;
            let ghost wr = (index as int, (v.i + 1) as u8);
            assert(spec_voxel_write(t@, v, lo_s, dims_s) == Ok::<(int, u8), VoxError>(wr));
            grid.set(index, v.i + 1);
            proof {
                lemma_paint_push(g0, ws_i + us, wr);
                assert((ws_i + us).push(wr) =~= ws_i + us.push(wr));
            }
            j = j + 1;
        }
        assert(vs@.take(vs.len() as int) =~= vs@);
        i = i + 1;
    }
    assert(ps.take(scene.len() as int) =~= ps);
    Ok(())
}

impl Model {
    /// Builds the voxel grid of a scene, and the offset from world coordinates to
    /// grid cells. Every error is a scene that cannot be shown (see `VoxError`);
    /// it is returned, not raised.
    pub fn load(vox: &VoxData) -> (r: Result<(Model, [i32; 3]), VoxError>)
        ensures
            match spec_load(vox@) {
                Ok((dims, cells, center)) => r matches Ok((m, c)) && m.width as int == dims[0]
                    && m.height as int == dims[1] && m.depth as int == dims[2] && m.voxels@ == cells
                    && c[0] as int == center[0] && c[1] as int == center[1] && c[2] as int
                    == center[2],
                Err(e) => r matches Err(e2) && e2 == e,
            },
            r matches Ok((m, c)) ==> grid_holds_scene(
                vox@,
                seq![m.width as int, m.height as int, m.depth as int],
                m.voxels@,
                seq![c[0] as int, c[1] as int, c[2] as int],
            ) && offset_is_lowest_corner(vox@, seq![c[0] as int, c[1] as int, c[2] as int]),
    {
        let scene = match parse_scene(vox) {
            Ok(s) => s,
            Err(e) => {
                return Err(e);
            },
        };
        let ghost ps = placements(scene@);
        proof {
            lemma_scene_is_well_placed(vox@);
        }
        let (lo, hi) = match scene_bounds(vox, &scene) {
            Some(b) => b,
            None => {
                return Err(VoxError::Overflow);
            },
        };
        let w = extent(lo[0], hi[0]);
        let h = extent(lo[1], hi[1]);
        let d = extent(lo[2], hi[2]);
        if w.is_none() || h.is_none() || d.is_none() {
            return Err(VoxError::Overflow);
        }
        let (w, h, d) = (w.unwrap(), h.unwrap(), d.unwrap());
        proof {
            if ps.len() > 0 {
                lemma_bounds_ordered(vox@, ps);
                assert(spec_bounds(vox@, ps)->Some_0.0[0] <= spec_bounds(vox@, ps)->Some_0.1[0]);
                assert(spec_bounds(vox@, ps)->Some_0.0[1] <= spec_bounds(vox@, ps)->Some_0.1[1]);
                assert(spec_bounds(vox@, ps)->Some_0.0[2] <= spec_bounds(vox@, ps)->Some_0.1[2]);
            } else {
                assert(spec_extent(i32::MAX as int, i32::MIN as int) is None);
            }
        }
        let ghost dims_s = seq![w as int, h as int, d as int];
        let count = match voxel_count(w as u32, h as u32, d as u32) {
            Some(n) => n,
            None => {
                return Err(VoxError::Overflow);
            },
        };
        assert(w as int * h as int * d as int <= count) by (nonlinear_arith)
            requires
                count as int == round_up4(w as int * h as int * d as int),
                w > 0,
                h > 0,
                d > 0,
        ;
        let mut voxels: Vec<u8> = vec![0u8; count];
        assert(voxels@ =~= empty_grid(count as nat));
        match write_voxels(vox, &scene, lo, [w, h, d], &mut voxels) {
            Ok(()) => {},
            Err(e) => {
                return Err(e);
            },
        }
        if lo[0] == i32::MIN || lo[1] == i32::MIN || lo[2] == i32::MIN {
            return Err(VoxError::Overflow);
        }
        let center = [-lo[0], -lo[1], -lo[2]];
        proof {
            lemma_load_result(vox@);
            let (sd, sc, sz) = spec_load(vox@)->Ok_0;
            assert(sd =~= seq![w as u32 as int, h as u32 as int, d as u32 as int]);
            assert(sz =~= seq![center[0] as int, center[1] as int, center[2] as int]);
        }
        Ok((Model { width: w as u32, height: h as u32, depth: d as u32, voxels }, center))
    }
}


/// The box from `lo` to `hi` holds the box spanned by the corners `a` and `b`.
pub open spec fn covers(lo: Seq<int>, hi: Seq<int>, a: Seq<int>, b: Seq<int>) -> bool {
    &&& lo[0] <= min_int(a[0], b[0]) && max_int(a[0], b[0]) <= hi[0]
    &&& lo[1] <= min_int(a[1], b[1]) && max_int(a[1], b[1]) <= hi[1]
    &&& lo[2] <= min_int(a[2], b[2]) && max_int(a[2], b[2]) <= hi[2]
}

/// Each voxel lies inside its model's box, and every box is at most `i32::MAX` wide.
pub open spec fn voxels_inside_boxes(vox: VoxFile) -> bool {
    forall|m: int, j: int|
        #![trigger vox.models[m].voxels[j]]
        0 <= m < vox.models.len() && 0 <= j < vox.models[m].voxels.len() ==> {
            let model = vox.models[m];
            let v = model.voxels[j];
            &&& model.size_x <= i32::MAX
            &&& model.size_y <= i32::MAX
            &&& model.size_z <= i32::MAX
            &&& (v.x as int) < model.size_x
            &&& (v.y as int) < model.size_y
            &&& (v.z as int) < model.size_z
        }
}

proof fn lemma_row_between(t: Seq<int>, r: int, c: Seq<int>, x: int, y: int, z: int)
    requires
        is_grid_transform(t),
        0 <= r < 3,
        c.len() == 3,
        0 <= x <= c[0],
        0 <= y <= c[1],
        0 <= z <= c[2],
    ensures
        min_int(apply_row(t, r, 0, 0, 0), apply_row(t, r, c[0], c[1], c[2])) <= apply_row(
            t,
            r,
            x,
            y,
            z,
        ) <= max_int(apply_row(t, r, 0, 0, 0), apply_row(t, r, c[0], c[1], c[2])),
{
    let e0 = mat_at(t, r, 0);
    let e1 = mat_at(t, r, 1);
    let e2 = mat_at(t, r, 2);
    assert(e0 * 0 == 0 && e1 * 0 == 0 && e2 * 0 == 0);
    if e0 != 0 {
        assert(e1 == 0 && e2 == 0);
        assert(e1 * y == 0 && e2 * z == 0 && e1 * c[1] == 0 && e2 * c[2] == 0);
        if e0 == 1 {
            assert(e0 * x == x && e0 * c[0] == c[0]);
        } else {
            assert(e0 * x == -x && e0 * c[0] == -c[0]);
        }
    } else if e1 != 0 {
        assert(e2 == 0);
        assert(e0 * x == 0 && e2 * z == 0 && e0 * c[0] == 0 && e2 * c[2] == 0);
        if e1 == 1 {
            assert(e1 * y == y && e1 * c[1] == c[1]);
        } else {
            assert(e1 * y == -y && e1 * c[1] == -c[1]);
        }
    } else if e2 != 0 {
        assert(e0 * x == 0 && e1 * y == 0 && e0 * c[0] == 0 && e1 * c[1] == 0);
        if e2 == 1 {
            assert(e2 * z == z && e2 * c[2] == c[2]);
        } else {
            assert(e2 * z == -z && e2 * c[2] == -c[2]);
        }
    } else {
        assert(e0 * x == 0 && e1 * y == 0 && e2 * z == 0);
        assert(e0 * c[0] == 0 && e1 * c[1] == 0 && e2 * c[2] == 0);
    }
}

/// The bounding box holds the moved box of every placed model.
proof fn lemma_bounds_cover(vox: VoxFile, ps: Seq<Placement>, i: int)
    requires
        spec_bounds(vox, ps) is Some,
        0 <= i < ps.len(),
    ensures
        spec_corner(vox.models[ps[i].1]) is Some,
        ({
            let (lo, hi) = spec_bounds(vox, ps)->Some_0;
            let a = point_of(ps[i].0, 0, 0, 0);
            let c = spec_corner(vox.models[ps[i].1])->Some_0;
            let b = point_of(ps[i].0, c[0], c[1], c[2]);
            covers(lo, hi, a, b)
        }),
    decreases ps.len(),
{
    let (lo, hi) = spec_bounds(vox, ps)->Some_0;
    if i < ps.len() - 1 {
        lemma_bounds_cover(vox, ps.drop_last(), i);
        assert(ps.drop_last()[i] == ps[i]);
    }
}

proof fn lemma_voxel_write_inside(
    vox: VoxFile,
    t: Seq<int>,
    m: VoxModelView,
    v: VoxVoxel,
    lo: Seq<int>,
    hi: Seq<int>,
    dims: Seq<int>,
)
    requires
        is_grid_transform(t),
        spec_corner(m) is Some,
        m.size_x <= i32::MAX,
        m.size_y <= i32::MAX,
        m.size_z <= i32::MAX,
        (v.x as int) < m.size_x,
        (v.y as int) < m.size_y,
        (v.z as int) < m.size_z,
        lo.len() == 3,
        hi.len() == 3,
        spec_dims(lo, hi) == Some(dims),
        ({
            let a = point_of(t, 0, 0, 0);
            let c = spec_corner(m)->Some_0;
            let b = point_of(t, c[0], c[1], c[2]);
            &&& fits3(a)
            &&& fits3(b)
            &&& covers(lo, hi, a, b)
        }),
    ensures
        spec_voxel_write(t, v, lo, dims) != Err::<(int, u8), VoxError>(VoxError::VoxelOutsideBounds),
{
    let c = spec_corner(m)->Some_0;
    let a = point_of(t, 0, 0, 0);
    let b = point_of(t, c[0], c[1], c[2]);
    let p = point_of(t, v.x as int, v.y as int, v.z as int);
    lemma_row_between(t, 0, c, v.x as int, v.y as int, v.z as int);
    lemma_row_between(t, 1, c, v.x as int, v.y as int, v.z as int);
    lemma_row_between(t, 2, c, v.x as int, v.y as int, v.z as int);
}

proof fn lemma_model_writes_inside(
    vox: VoxFile,
    t: Seq<int>,
    m: VoxModelView,
    vs: Seq<VoxVoxel>,
    lo: Seq<int>,
    hi: Seq<int>,
    dims: Seq<int>,
)
    requires
        is_grid_transform(t),
        spec_corner(m) is Some,
        m.size_x <= i32::MAX,
        m.size_y <= i32::MAX,
        m.size_z <= i32::MAX,
        forall|j: int|
            0 <= j < vs.len() ==> (#[trigger] vs[j].x as int) < m.size_x && (vs[j].y as int)
                < m.size_y && (vs[j].z as int) < m.size_z,
        lo.len() == 3,
        hi.len() == 3,
        spec_dims(lo, hi) == Some(dims),
        ({
            let a = point_of(t, 0, 0, 0);
            let c = spec_corner(m)->Some_0;
            let b = point_of(t, c[0], c[1], c[2]);
            &&& fits3(a)
            &&& fits3(b)
            &&& covers(lo, hi, a, b)
        }),
    ensures
        spec_model_writes(t, vs, lo, dims) != Err::<Seq<(int, u8)>, VoxError>(
            VoxError::VoxelOutsideBounds,
        ),
    decreases vs.len(),
{
    if vs.len() > 0 {
        lemma_model_writes_inside(vox, t, m, vs.drop_last(), lo, hi, dims);
        assert((vs.last().x as int) < m.size_x);
        lemma_voxel_write_inside(vox, t, m, vs.last(), lo, hi, dims);
    }
}

proof fn lemma_writes_inside(
    vox: VoxFile,
    all: Seq<Placement>,
    n: int,
    lo: Seq<int>,
    hi: Seq<int>,
    dims: Seq<int>,
)
    requires
        voxels_inside_boxes(vox),
        well_placed(vox, all),
        0 <= n <= all.len(),
        spec_bounds(vox, all) == Some((lo, hi)),
        spec_dims(lo, hi) == Some(dims),
    ensures
        spec_writes(vox, all.take(n), lo, dims) != Err::<Seq<(int, u8)>, VoxError>(
            VoxError::VoxelOutsideBounds,
        ),
    decreases n,
{
    if n > 0 {
        let ps = all.take(n);
        assert(ps.drop_last() =~= all.take(n - 1));
        assert(ps.last() == all[n - 1]);
        lemma_writes_inside(vox, all, n - 1, lo, hi, dims);
        lemma_bounds_cover(vox, all, n - 1);
        let (t, id) = all[n - 1];
        assert(is_grid_transform(all[n - 1].0));
        let m = vox.models[id];
        let c = spec_corner(m)->Some_0;
        assert(fits3(point_of(t, 0, 0, 0)) && fits3(point_of(t, c[0], c[1], c[2]))) by {
            lemma_bounds_fit(vox, all, n - 1);
        }
        if m.voxels.len() > 0 {
            assert(m.voxels[0] == vox.models[id].voxels[0]);
            assert(m.size_x <= i32::MAX && m.size_y <= i32::MAX && m.size_z <= i32::MAX);
        } else {
            assert(spec_model_writes(t, m.voxels, lo, dims) == Ok::<Seq<(int, u8)>, VoxError>(
                Seq::empty(),
            ));
        }
        if m.voxels.len() > 0 {
            assert forall|j: int| 0 <= j < m.voxels.len() implies (
            #[trigger] m.voxels[j].x as int) < m.size_x && (m.voxels[j].y as int) < m.size_y && (
            m.voxels[j].z as int) < m.size_z by {
                assert(vox.models[id].voxels[j] == m.voxels[j]);
            }
            let a = point_of(t, 0, 0, 0);
            let b = point_of(t, c[0], c[1], c[2]);
            lemma_model_writes_inside(vox, t, m, m.voxels, lo, hi, dims);
        }
    }
}

proof fn lemma_bounds_fit(vox: VoxFile, ps: Seq<Placement>, i: int)
    requires
        spec_bounds(vox, ps) is Some,
        0 <= i < ps.len(),
    ensures
        spec_corner(vox.models[ps[i].1]) is Some,
        fits3(point_of(ps[i].0, 0, 0, 0)),
        ({
            let c = spec_corner(vox.models[ps[i].1])->Some_0;
            fits3(point_of(ps[i].0, c[0], c[1], c[2]))
        }),
    decreases ps.len(),
{
    if i < ps.len() - 1 {
        lemma_bounds_fit(vox, ps.drop_last(), i);
        assert(ps.drop_last()[i] == ps[i]);
    }
}

/// When every voxel lies inside its model's box, loading never finds a voxel
/// outside the bounding box: the bounding box of the moved boxes holds every
/// moved voxel.
pub proof fn lemma_load_keeps_voxels_in_bounds(vox: VoxFile)
    requires
        voxels_inside_boxes(vox),
    ensures
        spec_load(vox) != Err::<(Seq<int>, Seq<u8>, Seq<int>), VoxError>(VoxError::VoxelOutsideBounds),
{
    match spec_parse_scene(vox) {
        Err(e) => {
            assert(e != VoxError::VoxelOutsideBounds) by {
                lemma_parse_never_outside(vox);
            }
        },
        Ok(ps) => {
            lemma_scene_is_well_placed(vox);
            match spec_bounds(vox, ps) {
                None => {},
                Some((lo, hi)) => match spec_dims(lo, hi) {
                    None => {},
                    Some(dims) => {
                        lemma_writes_inside(vox, ps, ps.len() as int, lo, hi, dims);
                        assert(ps.take(ps.len() as int) =~= ps);
                    },
                },
            }
        },
    }
}

/// The write of voxel `j` of placement `i`.
pub open spec fn write_of(
    vox: VoxFile,
    ps: Seq<Placement>,
    i: int,
    j: int,
    lo: Seq<int>,
    dims: Seq<int>,
) -> Result<(int, u8), VoxError> {
    spec_voxel_write(ps[i].0, vox.models[ps[i].1].voxels[j], lo, dims)
}

pub open spec fn is_voxel_of(vox: VoxFile, ps: Seq<Placement>, i: int, j: int) -> bool {
    0 <= i < ps.len() && 0 <= j < vox.models[ps[i].1].voxels.len()
}

proof fn lemma_model_writes_pointwise(t: Seq<int>, vs: Seq<VoxVoxel>, lo: Seq<int>, dims: Seq<int>)
    requires
        spec_model_writes(t, vs, lo, dims) is Ok,
    ensures
        spec_model_writes(t, vs, lo, dims)->Ok_0.len() == vs.len(),
        forall|j: int|
            0 <= j < vs.len() ==> spec_voxel_write(t, #[trigger] vs[j], lo, dims) == Ok::<
                (int, u8),
                VoxError,
            >(spec_model_writes(t, vs, lo, dims)->Ok_0[j]),
    decreases vs.len(),
{
    if vs.len() > 0 {
        lemma_model_writes_pointwise(t, vs.drop_last(), lo, dims);
        let us = spec_model_writes(t, vs, lo, dims)->Ok_0;
        let prev = spec_model_writes(t, vs.drop_last(), lo, dims)->Ok_0;
        assert forall|j: int| 0 <= j < vs.len() implies spec_voxel_write(t, #[trigger] vs[j], lo, dims)
            == Ok::<(int, u8), VoxError>(us[j]) by {
            if j < vs.len() - 1 {
                assert(vs.drop_last()[j] == vs[j]);
                assert(us[j] == prev[j]);
            }
        }
    }
}

/// Every write comes from some voxel of some placed model.
pub open spec fn writes_from_voxels(
    vox: VoxFile,
    ps: Seq<Placement>,
    lo: Seq<int>,
    dims: Seq<int>,
    ws: Seq<(int, u8)>,
) -> bool {
    forall|m: int| 0 <= m < ws.len() ==> from_some_voxel(vox, ps, lo, dims, #[trigger] ws[m])
}

/// `w` is the write of some voxel of some placed model.
pub open spec fn from_some_voxel(
    vox: VoxFile,
    ps: Seq<Placement>,
    lo: Seq<int>,
    dims: Seq<int>,
    w: (int, u8),
) -> bool {
    exists|i: int, j: int|
        is_voxel_of(vox, ps, i, j) && #[trigger] write_of(vox, ps, i, j, lo, dims) == Ok::<
            (int, u8),
            VoxError,
        >(w)
}

/// Every voxel of every placed model gives some write.
pub open spec fn voxels_in_writes(
    vox: VoxFile,
    ps: Seq<Placement>,
    lo: Seq<int>,
    dims: Seq<int>,
    ws: Seq<(int, u8)>,
) -> bool {
    forall|i: int, j: int|
        is_voxel_of(vox, ps, i, j) ==> exists|m: int|
            0 <= m < ws.len() && #[trigger] write_of(vox, ps, i, j, lo, dims) == Ok::<
                (int, u8),
                VoxError,
            >(#[trigger] ws[m])
}

proof fn lemma_writes_members(vox: VoxFile, ps: Seq<Placement>, lo: Seq<int>, dims: Seq<int>)
    requires
        spec_writes(vox, ps, lo, dims) is Ok,
    ensures
        writes_from_voxels(vox, ps, lo, dims, spec_writes(vox, ps, lo, dims)->Ok_0),
        voxels_in_writes(vox, ps, lo, dims, spec_writes(vox, ps, lo, dims)->Ok_0),
    decreases ps.len(),
{
    if ps.len() > 0 {
        let prev_ps = ps.drop_last();
        lemma_writes_members(vox, prev_ps, lo, dims);
        let ws = spec_writes(vox, ps, lo, dims)->Ok_0;
        let prev = spec_writes(vox, prev_ps, lo, dims)->Ok_0;
        let last = ps.len() - 1;
        let vs = vox.models[ps[last].1].voxels;
        lemma_model_writes_pointwise(ps[last].0, vs, lo, dims);
        let us = spec_model_writes(ps[last].0, vs, lo, dims)->Ok_0;
        assert(ws == prev + us);
        assert forall|i: int, j: int| is_voxel_of(vox, prev_ps, i, j) implies write_of(
            vox,
            prev_ps,
            i,
            j,
            lo,
            dims,
        ) == write_of(vox, ps, i, j, lo, dims) && is_voxel_of(vox, ps, i, j) by {
            assert(prev_ps[i] == ps[i]);
        }
        assert forall|m: int| 0 <= m < ws.len() implies from_some_voxel(
            vox,
            ps,
            lo,
            dims,
            #[trigger] ws[m],
        ) by {
            if m < prev.len() {
                assert(ws[m] == prev[m]);
                assert(from_some_voxel(vox, prev_ps, lo, dims, prev[m]));
                let (i, j) = choose|i: int, j: int|
                    is_voxel_of(vox, prev_ps, i, j) && #[trigger] write_of(
                        vox,
                        prev_ps,
                        i,
                        j,
                        lo,
                        dims,
                    ) == Ok::<(int, u8), VoxError>(prev[m]);
                assert(write_of(vox, ps, i, j, lo, dims) == Ok::<(int, u8), VoxError>(ws[m]));
            } else {
                let j = m - prev.len();
                assert(ws[m] == us[j]);
                assert(spec_voxel_write(ps[last].0, vs[j], lo, dims) == Ok::<(int, u8), VoxError>(
                    us[j],
                ));
                assert(write_of(vox, ps, last, j, lo, dims) == Ok::<(int, u8), VoxError>(ws[m]));
            }
        }
        assert forall|i: int, j: int| is_voxel_of(vox, ps, i, j) implies exists|m: int|
            0 <= m < ws.len() && #[trigger] write_of(vox, ps, i, j, lo, dims) == Ok::<
                (int, u8),
                VoxError,
            >(#[trigger] ws[m]) by {
            if i < last {
                assert(prev_ps[i] == ps[i]);
                assert(is_voxel_of(vox, prev_ps, i, j));
                assert(write_of(vox, prev_ps, i, j, lo, dims) == write_of(vox, ps, i, j, lo, dims));
                let m = choose|m: int|
                    0 <= m < prev.len() && #[trigger] write_of(vox, prev_ps, i, j, lo, dims) == Ok::<
                        (int, u8),
                        VoxError,
                    >(#[trigger] prev[m]);
                assert(ws[m] == prev[m]);
            } else {
                assert(ws[prev.len() + j] == us[j]);
                assert(spec_voxel_write(ps[last].0, vs[j], lo, dims) == Ok::<(int, u8), VoxError>(
                    us[j],
                ));
            }
        }
    }
}

/// Painting non-zero bytes into in-range cells of an empty grid: a cell ends up
/// non-zero exactly when some write targets it.
proof fn lemma_paint_occupied(n: nat, ws: Seq<(int, u8)>)
    requires
        forall|m: int| 0 <= m < ws.len() ==> 0 <= (#[trigger] ws[m]).0 < n && ws[m].1 != 0,
    ensures
        paint(empty_grid(n), ws).len() == n,
        forall|k: int|
            0 <= k < n ==> (#[trigger] paint(empty_grid(n), ws)[k] != 0 <==> exists|
                m: int,
            |
                0 <= m < ws.len() && (#[trigger] ws[m]).0 == k),
    decreases ws.len(),
{
    let g = empty_grid(n);
    if ws.len() > 0 {
        let prev = ws.drop_last();
        assert forall|m: int| 0 <= m < prev.len() implies 0 <= (#[trigger] prev[m]).0 < n
            && prev[m].1 != 0 by {
            assert(prev[m] == ws[m]);
        }
        lemma_paint_occupied(n, prev);
        let last = ws.last();
        assert(0 <= last.0 < n && last.1 != 0);
        assert forall|k: int| 0 <= k < n implies (#[trigger] paint(g, ws)[k] != 0 <==> exists|m: int|
            0 <= m < ws.len() && (#[trigger] ws[m]).0 == k) by {
            if k == last.0 {
                assert(ws[ws.len() - 1].0 == k);
            } else {
                assert(paint(g, ws)[k] == paint(g, prev)[k]);
                if exists|m: int| 0 <= m < ws.len() && (#[trigger] ws[m]).0 == k {
                    let m = choose|m: int| 0 <= m < ws.len() && (#[trigger] ws[m]).0 == k;
                    assert(m < ws.len() - 1);
                    assert(prev[m] == ws[m]);
                }
                if exists|m: int| 0 <= m < prev.len() && (#[trigger] prev[m]).0 == k {
                    let m = choose|m: int| 0 <= m < prev.len() && (#[trigger] prev[m]).0 == k;
                    assert(ws[m] == prev[m]);
                }
            }
        }
    }
}

proof fn lemma_voxel_write_range(t: Seq<int>, v: VoxVoxel, lo: Seq<int>, dims: Seq<int>)
    requires
        spec_voxel_write(t, v, lo, dims) is Ok,
    ensures
        0 <= spec_voxel_write(t, v, lo, dims)->Ok_0.0 < dims[0] * dims[1] * dims[2],
        spec_voxel_write(t, v, lo, dims)->Ok_0.1 != 0,
{
    let p = point_of(t, v.x as int, v.y as int, v.z as int);
    let q = seq![p[0] - lo[0], p[1] - lo[1], p[2] - lo[2]];
    lemma_index_bound(q[0], q[1], q[2], dims[0], dims[1], dims[2]);
}

/// A cell of the grid that voxel `j` of placed model `i` lands on.
pub open spec fn lands_on(vox: VoxFile, i: int, j: int, k: int) -> bool {
    let ps = spec_parse_scene(vox)->Ok_0;
    let lo = spec_bounds(vox, ps)->Some_0.0;
    let dims = spec_dims(lo, spec_bounds(vox, ps)->Some_0.1)->Some_0;
    is_voxel_of(vox, ps, i, j) && (write_of(vox, ps, i, j, lo, dims) matches Ok(w) && w.0 == k)
}

/// The grid that loading builds: its length is a multiple of four that holds all
/// `width * height * depth` cells, and a cell is non-empty exactly when some
/// voxel of some placed model lands on it.
pub proof fn lemma_load_cells(vox: VoxFile)
    requires
        spec_load(vox) is Ok,
    ensures
        ({
            let (dims, cells, center) = spec_load(vox)->Ok_0;
            &&& dims[0] >= 1 && dims[1] >= 1 && dims[2] >= 1
            &&& cells.len() % 4 == 0
            &&& cells.len() >= dims[0] * dims[1] * dims[2]
            &&& forall|k: int|
                0 <= k < cells.len() ==> (#[trigger] cells[k] != 0 <==> exists|i: int, j: int|
                    #[trigger] lands_on(vox, i, j, k))
        }),
{
    let ps = spec_parse_scene(vox)->Ok_0;
    let (lo, hi) = spec_bounds(vox, ps)->Some_0;
    let dims = spec_dims(lo, hi)->Some_0;
    let n = spec_voxel_count(dims)->Some_0;
    let ws = spec_writes(vox, ps, lo, dims)->Ok_0;
    if ps.len() > 0 {
        lemma_bounds_ordered(vox, ps);
        assert(lo[0] <= hi[0] && lo[1] <= hi[1] && lo[2] <= hi[2]);
    }
    let whd = dims[0] * dims[1] * dims[2];
    assert(whd <= round_up4(whd));
    lemma_writes_members(vox, ps, lo, dims);
    assert forall|m: int| 0 <= m < ws.len() implies 0 <= (#[trigger] ws[m]).0 < n && ws[m].1 != 0 by {
        assert(from_some_voxel(vox, ps, lo, dims, ws[m]));
        let (i, j) = choose|i: int, j: int|
            is_voxel_of(vox, ps, i, j) && #[trigger] write_of(vox, ps, i, j, lo, dims) == Ok::<
                (int, u8),
                VoxError,
            >(ws[m]);
        lemma_voxel_write_range(ps[i].0, vox.models[ps[i].1].voxels[j], lo, dims);
    }
    lemma_paint_occupied(n as nat, ws);
    let cells = paint(empty_grid(n as nat), ws);
    assert forall|k: int| 0 <= k < cells.len() implies (#[trigger] cells[k] != 0 <==> exists|
        i: int,
        j: int,
    | #[trigger] lands_on(vox, i, j, k)) by {
        if cells[k] != 0 {
            let m = choose|m: int| 0 <= m < ws.len() && (#[trigger] ws[m]).0 == k;
            assert(from_some_voxel(vox, ps, lo, dims, ws[m]));
            let (i, j) = choose|i: int, j: int|
                is_voxel_of(vox, ps, i, j) && #[trigger] write_of(vox, ps, i, j, lo, dims) == Ok::<
                    (int, u8),
                    VoxError,
                >(ws[m]);
            assert(lands_on(vox, i, j, k));
        }
        if exists|i: int, j: int| #[trigger] lands_on(vox, i, j, k) {
            let (i, j) = choose|i: int, j: int| #[trigger] lands_on(vox, i, j, k);
            let m = choose|m: int|
                0 <= m < ws.len() && #[trigger] write_of(vox, ps, i, j, lo, dims) == Ok::<
                    (int, u8),
                    VoxError,
                >(#[trigger] ws[m]);
            assert(ws[m].0 == k);
        }
    }
}
} // verus!

verus! {

/// Where voxel `j` of placement `i` lands in the world.
pub open spec fn placed_point(vox: VoxFile, ps: Seq<Placement>, i: int, j: int) -> Seq<int> {
    let v = vox.models[ps[i].1].voxels[j];
    point_of(ps[i].0, v.x as int, v.y as int, v.z as int)
}

/// The point `p` moved by `c`.
pub open spec fn shifted(p: Seq<int>, c: Seq<int>) -> Seq<int> {
    seq![p[0] + c[0], p[1] + c[1], p[2] + c[2]]
}

/// The index of cell `q` in a grid of size `dims`: x fastest, then y, then z.
pub open spec fn grid_index(dims: Seq<int>, q: Seq<int>) -> int {
    q[0] + q[1] * dims[0] + q[2] * dims[0] * dims[1]
}

/// The moved position of the near corner `(0, 0, 0)` of placement `i`'s box.
pub open spec fn box_low(vox: VoxFile, ps: Seq<Placement>, i: int) -> Seq<int> {
    point_of(ps[i].0, 0, 0, 0)
}

/// The moved position of the far corner of placement `i`'s box.
pub open spec fn box_high(vox: VoxFile, ps: Seq<Placement>, i: int) -> Seq<int> {
    let c = spec_corner(vox.models[ps[i].1])->Some_0;
    point_of(ps[i].0, c[0], c[1], c[2])
}

proof fn lemma_bounds_attained(vox: VoxFile, ps: Seq<Placement>, k: int)
    requires
        spec_bounds(vox, ps) is Some,
        ps.len() > 0,
        0 <= k < 3,
    ensures
        exists|i: int|
            0 <= i < ps.len() && (spec_bounds(vox, ps)->Some_0.0[k] == #[trigger] box_low(vox, ps, i)[k]
                || spec_bounds(vox, ps)->Some_0.0[k] == box_high(vox, ps, i)[k]),
    decreases ps.len(),
{
    let pre = ps.drop_last();
    let n = ps.len() - 1;
    let lo_pre = spec_bounds(vox, pre)->Some_0.0;
    let a = box_low(vox, ps, n);
    let b = box_high(vox, ps, n);
    let lo = spec_bounds(vox, ps)->Some_0.0;
    assert(ps.last() == ps[n]);
    assert(spec_bounds(vox, pre) is Some);
    assert(spec_corner(vox.models[ps[n].1]) is Some);
    assert(fits3(a) && fits3(b));
    assert(lo[k] == min_int(min_int(lo_pre[k], a[k]), b[k])) by {
        if k == 0 {
        } else if k == 1 {
        } else {
        }
    }
    if lo[k] == a[k] || lo[k] == b[k] {
        assert(box_low(vox, ps, n)[k] == a[k]);
    } else {
        assert(lo[k] == lo_pre[k]);
        if pre.len() == 0 {
            assert(lo_pre[k] == i32::MAX);
            assert(a[k] <= i32::MAX);
            assert(false);
        } else {
            lemma_bounds_attained(vox, pre, k);
            let i = choose|i: int|
                0 <= i < pre.len() && (lo_pre[k] == #[trigger] box_low(vox, pre, i)[k] || lo_pre[k]
                    == box_high(vox, pre, i)[k]);
            assert(pre[i] == ps[i]);
            assert(box_low(vox, pre, i) == box_low(vox, ps, i));
            assert(box_high(vox, pre, i) == box_high(vox, ps, i));
        }
    }
}

proof fn lemma_offset_from_bounds(vox: VoxFile, lo: Seq<int>, center: Seq<int>)
    requires
        spec_parse_scene(vox) is Ok,
        spec_parse_scene(vox)->Ok_0.len() > 0,
        spec_bounds(vox, spec_parse_scene(vox)->Ok_0) is Some,
        lo == spec_bounds(vox, spec_parse_scene(vox)->Ok_0)->Some_0.0,
        center == seq![-lo[0], -lo[1], -lo[2]],
    ensures
        offset_is_lowest_corner(vox, center),
{
    let ps = spec_parse_scene(vox)->Ok_0;
    assert forall|i: int, k: int|
        0 <= i < ps.len() && 0 <= k < 3 implies #[trigger] box_low(vox, ps, i)[k] + center[k] >= 0
        && box_high(vox, ps, i)[k] + center[k] >= 0 by {
        lemma_bounds_cover(vox, ps, i);
        assert(center[k] == -lo[k]);
    }
    assert forall|k: int| 0 <= k < 3 implies #[trigger] reaches_zero(vox, ps, center, k) by {
        lemma_bounds_attained(vox, ps, k);
        let i = choose|i: int|
            0 <= i < ps.len() && (spec_bounds(vox, ps)->Some_0.0[k] == #[trigger] box_low(vox, ps, i)[k]
                || spec_bounds(vox, ps)->Some_0.0[k] == box_high(vox, ps, i)[k]);
        assert(center[k] == -lo[k]);
        assert(box_low(vox, ps, i)[k] + center[k] == 0 || box_high(vox, ps, i)[k] + center[k] == 0);
    }
    assert(reaches_zero(vox, ps, center, 0));
    assert(reaches_zero(vox, ps, center, 1));
    assert(reaches_zero(vox, ps, center, 2));
}

/// The offset that loading returns is minus the lowest corner of the moved
/// boxes of the placed models: with it added, every corner of every placed
/// box has no negative coordinate, and along each axis some corner reaches 0.
pub proof fn lemma_load_offset_is_lowest_corner(vox: VoxFile)
    requires
        spec_load(vox) is Ok,
    ensures
        forall|i: int|
            0 <= i < spec_parse_scene(vox)->Ok_0.len() ==> spec_corner(
                #[trigger] vox.models[spec_parse_scene(vox)->Ok_0[i].1],
            ) is Some,
        offset_is_lowest_corner(vox, spec_load(vox)->Ok_0.2),
{
    let ps = spec_parse_scene(vox)->Ok_0;
    let (lo, hi) = spec_bounds(vox, ps)->Some_0;
    let center = spec_load(vox)->Ok_0.2;
    assert(center == seq![-lo[0], -lo[1], -lo[2]]);
    if ps.len() == 0 {
        assert(spec_extent(i32::MAX as int, i32::MIN as int) is None);
        assert(false);
    }
    assert forall|i: int| 0 <= i < ps.len() implies spec_corner(#[trigger] vox.models[ps[i].1]) is Some by {
        lemma_bounds_cover(vox, ps, i);
    }
    lemma_offset_from_bounds(vox, lo, center);
}

proof fn lemma_voxel_cell(vox: VoxFile, i: int, j: int)
    requires
        spec_load(vox) is Ok,
        is_voxel_of(vox, spec_parse_scene(vox)->Ok_0, i, j),
    ensures
        ({
            let (dims, cells, center) = spec_load(vox)->Ok_0;
            let q = shifted(placed_point(vox, spec_parse_scene(vox)->Ok_0, i, j), center);
            &&& 0 <= q[0] < dims[0]
            &&& 0 <= q[1] < dims[1]
            &&& 0 <= q[2] < dims[2]
            &&& 0 <= grid_index(dims, q) < cells.len()
            &&& cells[grid_index(dims, q)] != 0
        }),
{
    let ps = spec_parse_scene(vox)->Ok_0;
    let (lo, hi) = spec_bounds(vox, ps)->Some_0;
    let dims = spec_dims(lo, hi)->Some_0;
    let (dims2, cells, center) = spec_load(vox)->Ok_0;
    assert(dims2 == dims);
    assert(center == seq![-lo[0], -lo[1], -lo[2]]);
    lemma_writes_members(vox, ps, lo, dims);
    let ws = spec_writes(vox, ps, lo, dims)->Ok_0;
    let q = shifted(placed_point(vox, ps, i, j), center);
    let m = choose|m: int|
        0 <= m < ws.len() && #[trigger] write_of(vox, ps, i, j, lo, dims) == Ok::<(int, u8), VoxError>(
            #[trigger] ws[m],
        );
    assert(write_of(vox, ps, i, j, lo, dims) is Ok);
    let v = vox.models[ps[i].1].voxels[j];
    lemma_voxel_write_range(ps[i].0, v, lo, dims);
    let k = grid_index(dims, q);
    assert(write_of(vox, ps, i, j, lo, dims)->Ok_0.0 == k);
    assert(lands_on(vox, i, j, k));
    lemma_load_cells(vox);
    assert(cells.len() >= dims[0] * dims[1] * dims[2]);
    assert(cells[k] != 0);
}

proof fn lemma_cell_voxel(vox: VoxFile, m: int)
    requires
        spec_load(vox) is Ok,
        0 <= m < spec_load(vox)->Ok_0.1.len(),
        spec_load(vox)->Ok_0.1[m] != 0,
    ensures
        exists|i: int, j: int|
            #[trigger] is_voxel_of(vox, spec_parse_scene(vox)->Ok_0, i, j) && m == grid_index(
                spec_load(vox)->Ok_0.0,
                shifted(placed_point(vox, spec_parse_scene(vox)->Ok_0, i, j), spec_load(vox)->Ok_0.2),
            ),
{
    let ps = spec_parse_scene(vox)->Ok_0;
    let (lo, hi) = spec_bounds(vox, ps)->Some_0;
    let dims = spec_dims(lo, hi)->Some_0;
    let (dims2, cells, center) = spec_load(vox)->Ok_0;
    assert(dims2 == dims);
    assert(center == seq![-lo[0], -lo[1], -lo[2]]);
    lemma_load_cells(vox);
    assert(cells[m] != 0);
    let (i, j) = choose|i: int, j: int| #[trigger] lands_on(vox, i, j, m);
    assert(is_voxel_of(vox, ps, i, j));
    assert(m == grid_index(dims, shifted(placed_point(vox, ps, i, j), center)));
}

/// The grid's layout: every placed voxel, moved into the world and then by the
/// offset, lands inside the grid, and its cell (x fastest, then y, then z) is
/// filled; every filled cell is the cell of some placed voxel.
pub proof fn lemma_load_layout(vox: VoxFile)
    requires
        spec_load(vox) is Ok,
    ensures
        forall|i: int, j: int|
            #[trigger] is_voxel_of(vox, spec_parse_scene(vox)->Ok_0, i, j) ==> {
                let (dims, cells, center) = spec_load(vox)->Ok_0;
                let q = shifted(placed_point(vox, spec_parse_scene(vox)->Ok_0, i, j), center);
                &&& 0 <= q[0] < dims[0]
                &&& 0 <= q[1] < dims[1]
                &&& 0 <= q[2] < dims[2]
                &&& 0 <= grid_index(dims, q) < cells.len()
                &&& cells[grid_index(dims, q)] != 0
            },
        forall|m: int|
            0 <= m < spec_load(vox)->Ok_0.1.len() && #[trigger] spec_load(vox)->Ok_0.1[m] != 0 ==> exists|
                i: int,
                j: int,
            |
                #[trigger] is_voxel_of(vox, spec_parse_scene(vox)->Ok_0, i, j) && m == grid_index(
                    spec_load(vox)->Ok_0.0,
                    shifted(placed_point(vox, spec_parse_scene(vox)->Ok_0, i, j), spec_load(vox)->Ok_0.2),
                ),
{
    assert forall|i: int, j: int| #[trigger] is_voxel_of(vox, spec_parse_scene(vox)->Ok_0, i, j) implies {
        let (dims, cells, center) = spec_load(vox)->Ok_0;
        let q = shifted(placed_point(vox, spec_parse_scene(vox)->Ok_0, i, j), center);
        &&& 0 <= q[0] < dims[0]
        &&& 0 <= q[1] < dims[1]
        &&& 0 <= q[2] < dims[2]
        &&& 0 <= grid_index(dims, q) < cells.len()
        &&& cells[grid_index(dims, q)] != 0
    } by {
        lemma_voxel_cell(vox, i, j);
    }
    assert forall|m: int|
        0 <= m < spec_load(vox)->Ok_0.1.len() && #[trigger] spec_load(vox)->Ok_0.1[m] != 0 implies exists|
            i: int,
            j: int,
        |
            #[trigger] is_voxel_of(vox, spec_parse_scene(vox)->Ok_0, i, j) && m == grid_index(
                spec_load(vox)->Ok_0.0,
                shifted(placed_point(vox, spec_parse_scene(vox)->Ok_0, i, j), spec_load(vox)->Ok_0.2),
            ) by {
        lemma_cell_voxel(vox, m);
    }
}

/// The grid `cells` of size `dims`, with offset `center`, holds the scene's
/// placed voxels: each lands inside the grid and fills its cell (x fastest, then
/// y, then z), and each filled cell is the cell of some placed voxel.
pub open spec fn grid_holds_scene(vox: VoxFile, dims: Seq<int>, cells: Seq<u8>, center: Seq<int>) -> bool {
    let ps = spec_parse_scene(vox)->Ok_0;
    &&& forall|i: int, j: int|
        #[trigger] is_voxel_of(vox, ps, i, j) ==> {
            let q = shifted(placed_point(vox, ps, i, j), center);
            &&& 0 <= q[0] < dims[0]
            &&& 0 <= q[1] < dims[1]
            &&& 0 <= q[2] < dims[2]
            &&& 0 <= grid_index(dims, q) < cells.len()
            &&& cells[grid_index(dims, q)] != 0
        }
    &&& forall|m: int|
        0 <= m < cells.len() && #[trigger] cells[m] != 0 ==> exists|i: int, j: int|
            #[trigger] is_voxel_of(vox, ps, i, j) && m == grid_index(
                dims,
                shifted(placed_point(vox, ps, i, j), center),
            )
}

/// `center` is minus the lowest corner of the placed models' moved boxes.
pub open spec fn offset_is_lowest_corner(vox: VoxFile, center: Seq<int>) -> bool {
    let ps = spec_parse_scene(vox)->Ok_0;
    &&& ps.len() > 0
    &&& forall|i: int, k: int|
        0 <= i < ps.len() && 0 <= k < 3 ==> #[trigger] box_low(vox, ps, i)[k] + center[k] >= 0
            && box_high(vox, ps, i)[k] + center[k] >= 0
    &&& reaches_zero(vox, ps, center, 0)
    &&& reaches_zero(vox, ps, center, 1)
    &&& reaches_zero(vox, ps, center, 2)
}

/// Along axis `k`, some corner of some placed box, moved by `center`, is at 0.
pub open spec fn reaches_zero(vox: VoxFile, ps: Seq<Placement>, center: Seq<int>, k: int) -> bool {
    exists|i: int|
        0 <= i < ps.len() && (#[trigger] box_low(vox, ps, i)[k] + center[k] == 0 || box_high(vox, ps, i)[k]
            + center[k] == 0)
}

/// What loading builds, in the terms above.
pub proof fn lemma_load_result(vox: VoxFile)
    requires
        spec_load(vox) is Ok,
    ensures
        grid_holds_scene(vox, spec_load(vox)->Ok_0.0, spec_load(vox)->Ok_0.1, spec_load(vox)->Ok_0.2),
        offset_is_lowest_corner(vox, spec_load(vox)->Ok_0.2),
{
    lemma_load_layout(vox);
    lemma_load_offset_is_lowest_corner(vox);
}

} // verus!
