//! Scan-conversion of one transformed triangle into the framebuffer.
//!
//! The triangle arrives in clip space (pre-divide). Each vertex is
//! perspective-divided, the three results are sorted by ascending x and
//! mapped to screen coordinates, and the triangle is swept column by column
//! between its long edge and whichever short edge covers the column; each
//! covered pixel is mapped back to normalized device coordinates, its depth
//! interpolated from the triangle's plane fit, and written through the
//! depth test. Degenerate inputs — a vertex with non-positive homogeneous
//! w, no horizontal extent, a plane parallel to the view direction — are
//! detected up front and skip the triangle; nothing is left to propagate.
//! Columns and rows outside the buffer are clipped, never indexed.

use vstd::prelude::*;
use crate::fixed::{
    ONE, fx_add_spec, fx_div_spec, fx_mul_spec, fx_sub_spec, fix_add, fix_div, fix_mul,
    fix_sat, fix_sub, floor_div_i128, lemma_div_bounds, sat64,
};
use crate::geom::{Tri, Vec3, Vec4, sat64_i};
use crate::math::{Lin, Surface, lin_at_spec, lin_b_spec, lin_k_spec, surface_at_spec, surface_spec};
use crate::frame::{Frame, FrameView, lemma_idx_split};

verus! {

/// The smallest integer at or above a fixed-point value.
pub open spec fn ceil_fix_spec(v: int) -> int {
    (v + (ONE - 1)) / (ONE as int)
}

/// The nearest integer to a fixed-point value, halves rounding up.
pub open spec fn round_fix_spec(v: int) -> int {
    (v + ONE / 2) / (ONE as int)
}

/// Quotients of biased fixed-point values stay within `i64`.
proof fn lemma_pix_range(v: int, bias: int)
    requires
        i64::MIN <= v <= i64::MAX,
        0 <= bias < ONE as int,
    ensures
        i64::MIN <= (v + bias) / (ONE as int) <= i64::MAX,
{
    vstd::arithmetic::div_mod::lemma_div_is_ordered(
        i64::MIN as int,
        v + bias,
        ONE as int,
    );
    vstd::arithmetic::div_mod::lemma_div_is_ordered(
        v + bias,
        i64::MAX as int + ONE,
        ONE as int,
    );
    assert(i64::MIN as int / (ONE as int) >= i64::MIN);
    assert((i64::MAX as int + ONE) / (ONE as int) <= i64::MAX);
}

/// The smallest integer at or above a fixed-point value.
pub fn ceil_fix(v: i64) -> (r: i64)
    ensures
        r as int == ceil_fix_spec(v as int),
{
    proof {
        lemma_pix_range(v as int, ONE as int - 1);
    }
    let q = floor_div_i128((v as i128) + ((ONE - 1) as i128), ONE as i128);
    q as i64
}

/// The nearest integer to a fixed-point value, halves rounding up.
pub fn round_fix(v: i64) -> (r: i64)
    ensures
        r as int == round_fix_spec(v as int),
{
    proof {
        lemma_pix_range(v as int, ONE as int / 2);
    }
    let q = floor_div_i128((v as i128) + ((ONE / 2) as i128), ONE as i128);
    q as i64
}

/// An integer column at or past the ceiling of v lies at or past v itself;
/// one before the ceiling lies strictly before v.
pub proof fn lemma_ceil_split(x: int, v: int)
    ensures
        x >= ceil_fix_spec(v) ==> x * (ONE as int) >= v,
        x < ceil_fix_spec(v) ==> x * (ONE as int) < v,
{
    let a = v + (ONE - 1);
    vstd::arithmetic::div_mod::lemma_fundamental_div_mod(a, ONE as int);
    vstd::arithmetic::div_mod::lemma_mod_bound(a, ONE as int);
    let q = a / (ONE as int);
    let r = a % (ONE as int);
    assert(a == (ONE as int) * q + r);
    assert((ONE as int) * q == q * (ONE as int)) by (nonlinear_arith);
    if x >= q {
        assert(x * (ONE as int) >= q * (ONE as int)) by (nonlinear_arith)
            requires
                x >= q,
        ;
    } else {
        assert(x * (ONE as int) <= q * (ONE as int) - (ONE as int)) by (nonlinear_arith)
            requires
                x <= q - 1,
        ;
    }
}

/// A vertex after the perspective divide: each component divided by the
/// (positive) homogeneous w.
pub open spec fn pdiv_spec(v: Vec4) -> Vec3 {
    Vec3 {
        x: sat64_i(fx_div_spec(v.x as int, v.w as int)),
        y: sat64_i(fx_div_spec(v.y as int, v.w as int)),
        z: sat64_i(fx_div_spec(v.z as int, v.w as int)),
    }
}

/// A vertex after the perspective divide.
pub fn pdiv(v: Vec4) -> (r: Vec3)
    requires
        v.w > 0,
    ensures
        r == pdiv_spec(v),
{
    Vec3 { x: fix_div(v.x, v.w), y: fix_div(v.y, v.w), z: fix_div(v.z, v.w) }
}

/// The three points ordered by ascending x, stably.
pub open spec fn sort3_spec(a: Vec3, b: Vec3, c: Vec3) -> (Vec3, Vec3, Vec3) {
    if a.x <= b.x {
        if b.x <= c.x {
            (a, b, c)
        } else if a.x <= c.x {
            (a, c, b)
        } else {
            (c, a, b)
        }
    } else {
        if a.x <= c.x {
            (b, a, c)
        } else if b.x <= c.x {
            (b, c, a)
        } else {
            (c, b, a)
        }
    }
}

/// The three points ordered by ascending x, stably.
pub fn sort3(a: Vec3, b: Vec3, c: Vec3) -> (r: (Vec3, Vec3, Vec3))
    ensures
        r == sort3_spec(a, b, c),
{
    if a.x <= b.x {
        if b.x <= c.x {
            (a, b, c)
        } else if a.x <= c.x {
            (a, c, b)
        } else {
            (c, a, b)
        }
    } else {
        if a.x <= c.x {
            (b, a, c)
        } else if b.x <= c.x {
            (b, c, a)
        } else {
            (c, b, a)
        }
    }
}

/// Map an x in normalized device coordinates to a fixed-point screen
/// column: (x + 1) / 2 scaled by the width.
pub open spec fn screen_x_spec(x: int, w: int) -> int {
    fx_mul_spec(fx_add_spec(x, ONE as int) / 2, w * (ONE as int))
}

/// Map a y in normalized device coordinates to a fixed-point screen row:
/// (1 - y) / 2 scaled by the height, so row zero is at the top.
pub open spec fn screen_y_spec(y: int, h: int) -> int {
    fx_mul_spec(fx_sub_spec(ONE as int, y) / 2, h * (ONE as int))
}

/// Halve a fixed-point value, rounding toward negative infinity.
fn half(v: i64) -> (r: i64)
    ensures
        r as int == v as int / 2,
{
    proof {
        lemma_div_bounds(v as int, 2);
    }
    let q = floor_div_i128(v as i128, 2);
    q as i64
}

/// Map an x in normalized device coordinates to a fixed-point screen column.
pub fn screen_x(x: i64, w: usize) -> (r: i64)
    requires
        w <= 65535,
    ensures
        r as int == screen_x_spec(x as int, w as int),
{
    let wf: i64 = (w as i64) * ONE;
    fix_mul(half(fix_add(x, ONE)), wf)
}

/// Map a y in normalized device coordinates to a fixed-point screen row.
pub fn screen_y(y: i64, h: usize) -> (r: i64)
    requires
        h <= 65535,
    ensures
        r as int == screen_y_spec(y as int, h as int),
{
    let hf: i64 = (h as i64) * ONE;
    fix_mul(half(fix_sub(ONE, y)), hf)
}

/// Map a pixel column back to normalized device coordinates:
/// i / width * 2 - 1.
pub open spec fn ndc_x_spec(i: int, w: int) -> int {
    fx_sub_spec(sat64(2 * fx_div_spec(i * (ONE as int), w * (ONE as int))), ONE as int)
}

/// Map a pixel row back to normalized device coordinates:
/// 1 - j / height * 2.
pub open spec fn ndc_y_spec(j: int, h: int) -> int {
    fx_sub_spec(ONE as int, sat64(2 * fx_div_spec(j * (ONE as int), h * (ONE as int))))
}

/// Map a pixel column back to normalized device coordinates.
pub fn ndc_x(i: usize, w: usize) -> (r: i64)
    requires
        i < w,
        w <= 65535,
    ensures
        r as int == ndc_x_spec(i as int, w as int),
{
    let q = fix_div((i as i64) * ONE, (w as i64) * ONE);
    let d = fix_sat(2 * (q as i128));
    fix_sub(d, ONE)
}

/// Map a pixel row back to normalized device coordinates.
pub fn ndc_y(j: usize, h: usize) -> (r: i64)
    requires
        j < h,
        h <= 65535,
    ensures
        r as int == ndc_y_spec(j as int, h as int),
{
    let q = fix_div((j as i64) * ONE, (h as i64) * ONE);
    let d = fix_sat(2 * (q as i128));
    fix_sub(ONE, d)
}

/// The screen-space setup of a non-degenerate triangle: the three sorted
/// vertices' fixed-point screen coordinates and the depth plane fit.
pub ghost struct Prep {
    pub sx0: int,
    pub sy0: int,
    pub sx1: int,
    pub sy1: int,
    pub sx2: int,
    pub sy2: int,
    pub surf: Surface,
}

/// The long edge spanning the sorted triangle's full x range.
pub open spec fn long_edge(p: Prep) -> Lin {
    Lin {
        k: lin_k_spec(p.sx0, p.sy0, p.sx2, p.sy2) as i64,
        b: lin_b_spec(p.sx0, p.sy0, p.sx2, p.sy2) as i64,
    }
}

/// The short edge from vertex 0 to vertex 1.
pub open spec fn edge01(p: Prep) -> Lin {
    Lin {
        k: lin_k_spec(p.sx0, p.sy0, p.sx1, p.sy1) as i64,
        b: lin_b_spec(p.sx0, p.sy0, p.sx1, p.sy1) as i64,
    }
}

/// The short edge from vertex 1 to vertex 2.
pub open spec fn edge12(p: Prep) -> Lin {
    Lin {
        k: lin_k_spec(p.sx1, p.sy1, p.sx2, p.sy2) as i64,
        b: lin_b_spec(p.sx1, p.sy1, p.sx2, p.sy2) as i64,
    }
}

/// The triangle's setup, or `None` when it is skipped: a vertex with
/// non-positive w, no horizontal extent on screen, or a depth plane
/// parallel to the view direction.
pub open spec fn prep_spec(t: Tri, w: int, h: int) -> Option<Prep> {
    if t.v0.w <= 0 || t.v1.w <= 0 || t.v2.w <= 0 {
        None
    } else {
        let s = sort3_spec(pdiv_spec(t.v0), pdiv_spec(t.v1), pdiv_spec(t.v2));
        match surface_spec(s.0, s.1, s.2) {
            Option::None => None,
            Option::Some(surf) => {
                let p = Prep {
                    sx0: screen_x_spec(s.0.x as int, w),
                    sy0: screen_y_spec(s.0.y as int, h),
                    sx1: screen_x_spec(s.1.x as int, w),
                    sy1: screen_y_spec(s.1.y as int, h),
                    sx2: screen_x_spec(s.2.x as int, w),
                    sy2: screen_y_spec(s.2.y as int, h),
                    surf: surf,
                };
                if p.sx0 < p.sx2 {
                    Some(p)
                } else {
                    None
                }
            },
        }
    }
}

/// The scanline bounds of column i: the long edge against whichever short
/// edge covers the column, rounded; the row range is [min, max).
pub open spec fn col_y_lo(p: Prep, i: int) -> int {
    let xf = i * (ONE as int);
    let y1 = lin_at_spec(long_edge(p), xf);
    let y2 = if xf < p.sx1 {
        lin_at_spec(edge01(p), xf)
    } else {
        lin_at_spec(edge12(p), xf)
    };
    round_fix_spec(if y1 <= y2 { y1 } else { y2 })
}

/// The exclusive upper scanline bound of column i.
pub open spec fn col_y_hi(p: Prep, i: int) -> int {
    let xf = i * (ONE as int);
    let y1 = lin_at_spec(long_edge(p), xf);
    let y2 = if xf < p.sx1 {
        lin_at_spec(edge01(p), xf)
    } else {
        lin_at_spec(edge12(p), xf)
    };
    round_fix_spec(if y1 <= y2 { y2 } else { y1 })
}

/// Whether the scan covers the in-bounds cell (i, j).
pub open spec fn tri_hit_spec(p: Prep, w: int, h: int, i: int, j: int) -> bool {
    &&& ceil_fix_spec(p.sx0) <= i < ceil_fix_spec(p.sx2)
    &&& 0 <= i < w
    &&& col_y_lo(p, i) <= j < col_y_hi(p, i)
    &&& 0 <= j < h
}

/// The interpolated depth of the triangle at cell (i, j).
pub open spec fn tri_depth_spec(p: Prep, w: int, h: int, i: int, j: int) -> i64 {
    sat64_i(surface_at_spec(p.surf, ndc_x_spec(i, w), ndc_y_spec(j, h)))
}

/// Whether one cell is accounted for at a point mid-scan: a covered cell
/// already visited holds the depth-tested write of the triangle's depth
/// there; every other cell still holds what it held before the scan.
pub open spec fn cell_scanned(
    fv0: FrameView,
    cur: FrameView,
    p: Prep,
    glyph: u8,
    w: int,
    h: int,
    i: int,
    j: int,
    visited: bool,
) -> bool {
    if tri_hit_spec(p, w, h, i, j) && visited {
        cur.glyph_at(i, j) == Frame::write_spec(
            fv0.glyph_at(i, j),
            fv0.depth_at(i, j),
            glyph,
            tri_depth_spec(p, w, h, i, j),
        ).0 && cur.depth_at(i, j) == Frame::write_spec(
            fv0.glyph_at(i, j),
            fv0.depth_at(i, j),
            glyph,
            tri_depth_spec(p, w, h, i, j),
        ).1
    } else {
        cur.glyph_at(i, j) == fv0.glyph_at(i, j) && cur.depth_at(i, j) == fv0.depth_at(i, j)
    }
}

/// What rasterizing one triangle leaves in the framebuffer: every covered
/// cell goes through the depth-tested write with the triangle's
/// interpolated depth there; every other cell is unchanged. A skipped
/// triangle leaves the framebuffer as it was.
#[verifier::opaque]
pub open spec fn raster_spec(fv: FrameView, t: Tri, glyph: u8) -> FrameView {
    let w = fv.width as int;
    let h = fv.height as int;
    match prep_spec(t, w, h) {
        Option::None => fv,
        Option::Some(p) => FrameView {
            width: fv.width,
            height: fv.height,
            glyphs: Seq::new(
                fv.glyphs.len(),
                |k: int|
                    if tri_hit_spec(p, w, h, k % w, k / w) {
                        Frame::write_spec(
                            fv.glyphs[k],
                            fv.depth[k],
                            glyph,
                            tri_depth_spec(p, w, h, k % w, k / w),
                        ).0
                    } else {
                        fv.glyphs[k]
                    },
            ),
            depth: Seq::new(
                fv.depth.len(),
                |k: int|
                    if tri_hit_spec(p, w, h, k % w, k / w) {
                        Frame::write_spec(
                            fv.glyphs[k],
                            fv.depth[k],
                            glyph,
                            tri_depth_spec(p, w, h, k % w, k / w),
                        ).1
                    } else {
                        fv.depth[k]
                    },
            ),
        },
    }
}

/// Clamp a pixel bound into [0, limit].
fn clamp_to(v: i64, limit: usize) -> (r: usize)
    requires
        limit <= 65535,
    ensures
        r as int == if v < 0 { 0int } else if v > limit as int { limit as int } else { v as int },
{
    if v < 0 {
        0
    } else if v > limit as i64 {
        limit
    } else {
        v as usize
    }
}

/// Scan-convert one transformed (clip-space) triangle into the framebuffer
/// with its shading glyph, through the depth test.
pub fn raster(frame: &mut Frame, t: &Tri, glyph: u8)
    requires
        old(frame).wf(),
    ensures
        final(frame).wf(),
        final(frame).width == old(frame).width,
        final(frame).height == old(frame).height,
        final(frame)@ == raster_spec(old(frame)@, *t, glyph),
{
    proof {
        reveal(raster_spec);
    }
    let ghost fv0 = frame@;
    let w = frame.width;
    let h = frame.height;
    let ghost wi = w as int;
    let ghost hi = h as int;

    if t.v0.w <= 0 || t.v1.w <= 0 || t.v2.w <= 0 {
        return;
    }
    let p0 = pdiv(t.v0);
    let p1 = pdiv(t.v1);
    let p2 = pdiv(t.v2);
    let (q0, q1, q2) = sort3(p0, p1, p2);
    let surf_opt = Surface::from_points(q0, q1, q2);
    if surf_opt.is_none() {
        return;
    }
    let surf = surf_opt.unwrap();
    let sx0 = screen_x(q0.x, w);
    let sy0 = screen_y(q0.y, h);
    let sx1 = screen_x(q1.x, w);
    let sy1 = screen_y(q1.y, h);
    let sx2 = screen_x(q2.x, w);
    let sy2 = screen_y(q2.y, h);
    if sx0 >= sx2 {
        return;
    }
    let ghost p = Prep {
        sx0: sx0 as int,
        sy0: sy0 as int,
        sx1: sx1 as int,
        sy1: sy1 as int,
        sx2: sx2 as int,
        sy2: sy2 as int,
        surf: surf,
    };
    proof {
        assert(prep_spec(*t, wi, hi) == Some(p));
    }

    let f1 = Lin::from_points(sx0, sy0, sx2, sy2);
    let f2 = if sx0 < sx1 {
        Some(Lin::from_points(sx0, sy0, sx1, sy1))
    } else {
        None
    };
    let f3 = if sx1 < sx2 {
        Some(Lin::from_points(sx1, sy1, sx2, sy2))
    } else {
        None
    };
    let xs_raw = ceil_fix(sx0);
    let xe_raw = ceil_fix(sx2);
    let x_start = clamp_to(xs_raw, w);
    let x_end = clamp_to(xe_raw, w);

    let mut x = x_start;
    while x < x_end
        invariant
            frame.wf(),
            frame.width == w,
            frame.height == h,
            w <= 65535,
            h <= 65535,
            wi == w as int,
            hi == h as int,
            fv0.width == w as nat,
            fv0.height == h as nat,
            fv0.wf(),
            prep_spec(*t, wi, hi) == Some(p),
            p.sx0 == sx0 as int && p.sy0 == sy0 as int,
            p.sx1 == sx1 as int && p.sy1 == sy1 as int,
            p.sx2 == sx2 as int && p.sy2 == sy2 as int,
            p.surf == surf,
            surf.wf(),
            sx0 < sx2,
            f1 == long_edge(p),
            sx0 < sx1 ==> f2 == Some(edge01(p)),
            sx0 >= sx1 ==> f2 is None,
            sx1 < sx2 ==> f3 == Some(edge12(p)),
            sx1 >= sx2 ==> f3 is None,
            xs_raw as int == ceil_fix_spec(p.sx0),
            xe_raw as int == ceil_fix_spec(p.sx2),
            x_start as int == if xs_raw < 0 { 0int } else if xs_raw > wi { wi } else { xs_raw as int },
            x_end as int == if xe_raw < 0 { 0int } else if xe_raw > wi { wi } else { xe_raw as int },
            x_start <= x,
            x <= w,
            forall|i: int, j: int| #![trigger fv0.glyph_at(i, j)]
                0 <= i < wi && 0 <= j < hi ==> cell_scanned(
                    fv0, frame@, p, glyph, wi, hi, i, j, i < x as int,
                ),
        decreases x_end - x,
    {
        proof {
            lemma_ceil_split(x as int, p.sx0);
            lemma_ceil_split(x as int, p.sx2);
        }
        let xf: i64 = (x as i64) * ONE;
        let y1 = f1.at(xf);
        let y2 = if xf < sx1 {
            f2.unwrap().at(xf)
        } else {
            f3.unwrap().at(xf)
        };
        let y_min = if y1 <= y2 { y1 } else { y2 };
        let y_max = if y1 <= y2 { y2 } else { y1 };
        let ylo_raw = round_fix(y_min);
        let yhi_raw = round_fix(y_max);
        let y_start = clamp_to(ylo_raw, h);
        let y_end = clamp_to(yhi_raw, h);
        proof {
            assert(ylo_raw as int == col_y_lo(p, x as int));
            assert(yhi_raw as int == col_y_hi(p, x as int));
            assert(x < w);
            assert(y_start as int == if ylo_raw < 0 { 0int } else if ylo_raw > hi { hi } else { ylo_raw as int });
            assert(y_end as int == if yhi_raw < 0 { 0int } else if yhi_raw > hi { hi } else { yhi_raw as int });
            assert forall|i: int, j: int| #![trigger fv0.glyph_at(i, j)]
                0 <= i < wi && 0 <= j < hi && tri_hit_spec(p, wi, hi, i, j) && i == x as int
                implies y_start as int <= j by {}
            assert forall|i: int, j: int| #![trigger fv0.glyph_at(i, j)]
                0 <= i < wi && 0 <= j < hi implies cell_scanned(
                    fv0, frame@, p, glyph, wi, hi, i, j,
                    i < x as int || (i == x as int && j < y_start as int),
                ) by {
                let g0 = fv0.glyph_at(i, j);
                assert(cell_scanned(fv0, frame@, p, glyph, wi, hi, i, j, i < x as int));
            }
        }

        let mut y = y_start;
        while y < y_end
            invariant
                frame.wf(),
                frame.width == w,
                frame.height == h,
                w <= 65535,
                h <= 65535,
                wi == w as int,
                hi == h as int,
                fv0.width == w as nat,
                fv0.height == h as nat,
                fv0.wf(),
                surf.wf(),
                p.surf == surf,
                x < w,
                ceil_fix_spec(p.sx0) <= x as int,
                (x as int) < ceil_fix_spec(p.sx2),
                ylo_raw as int == col_y_lo(p, x as int),
                yhi_raw as int == col_y_hi(p, x as int),
                y_start as int == if ylo_raw < 0 { 0int } else if ylo_raw > hi { hi } else { ylo_raw as int },
                y_end as int == if yhi_raw < 0 { 0int } else if yhi_raw > hi { hi } else { yhi_raw as int },
                y_start <= y,
                y <= h,
                forall|i: int, j: int| #![trigger fv0.glyph_at(i, j)]
                    0 <= i < wi && 0 <= j < hi ==> cell_scanned(
                        fv0, frame@, p, glyph, wi, hi, i, j,
                        i < x as int || (i == x as int && j < y as int),
                    ),
            decreases y_end - y,
        {
            let rx = ndc_x(x, w);
            let ry = ndc_y(y, h);
            let z = surf.at_x_y(rx, ry);
            proof {
                assert(tri_hit_spec(p, wi, hi, x as int, y as int));
                assert(z == tri_depth_spec(p, wi, hi, x as int, y as int));
            }
            let ghost before = frame@;
            proof {
                assert(before.glyph_at(x as int, y as int) == fv0.glyph_at(x as int, y as int));
                assert(before.depth_at(x as int, y as int) == fv0.depth_at(x as int, y as int));
            }
            frame.write_if_nearer(x, y, glyph, z);
            proof {
                assert forall|i: int, j: int| #![trigger fv0.glyph_at(i, j)]
                    0 <= i < wi && 0 <= j < hi && !(i == x as int && j == y as int) implies
                    frame@.glyph_at(i, j) == before.glyph_at(i, j)
                        && frame@.depth_at(i, j) == before.depth_at(i, j) by {
                    assert(before.glyph_at(i, j) == frame@.glyph_at(i, j)
                        && before.depth_at(i, j) == frame@.depth_at(i, j));
                }
                assert(frame@.glyph_at(x as int, y as int) == Frame::write_spec(
                    fv0.glyph_at(x as int, y as int), fv0.depth_at(x as int, y as int), glyph,
                    tri_depth_spec(p, wi, hi, x as int, y as int)).0);
                assert(frame@.depth_at(x as int, y as int) == Frame::write_spec(
                    fv0.glyph_at(x as int, y as int), fv0.depth_at(x as int, y as int), glyph,
                    tri_depth_spec(p, wi, hi, x as int, y as int)).1);
                assert forall|i: int, j: int| #![trigger fv0.glyph_at(i, j)]
                    0 <= i < wi && 0 <= j < hi implies cell_scanned(
                        fv0, frame@, p, glyph, wi, hi, i, j,
                        i < x as int || (i == x as int && j < y as int + 1),
                    ) by {
                    let g0 = fv0.glyph_at(i, j);
                    if i == x as int && j == y as int {
                    } else {
                        assert(cell_scanned(fv0, before, p, glyph, wi, hi, i, j,
                            i < x as int || (i == x as int && j < y as int)));
                        assert(frame@.glyph_at(i, j) == before.glyph_at(i, j));
                        assert(frame@.depth_at(i, j) == before.depth_at(i, j));
                    }
                }
            }
            y = y + 1;
        }
        proof {
            assert forall|i: int, j: int| #![trigger fv0.glyph_at(i, j)]
                0 <= i < wi && 0 <= j < hi && tri_hit_spec(p, wi, hi, i, j) && i == x as int
                implies j < y as int by {}
            assert forall|i: int, j: int| #![trigger fv0.glyph_at(i, j)]
                0 <= i < wi && 0 <= j < hi implies cell_scanned(
                    fv0, frame@, p, glyph, wi, hi, i, j, i < x as int + 1,
                ) by {
                let g0 = fv0.glyph_at(i, j);
                assert(cell_scanned(fv0, frame@, p, glyph, wi, hi, i, j,
                    i < x as int || (i == x as int && j < y as int)));
            }
        }
        x = x + 1;
    }
    proof {
        let rs = raster_spec(fv0, *t, glyph);
        assert(frame@.glyphs =~= rs.glyphs) by {
            assert forall|k: int| 0 <= k < fv0.glyphs.len() implies
                frame@.glyphs[k] == rs.glyphs[k] by {
                lemma_idx_split(k, wi, hi);
                let i = k % wi;
                let j = k / wi;
                assert(fv0.idx(i, j) == k);
                assert(fv0.glyph_at(i, j) == fv0.glyphs[k]);
                assert(cell_scanned(fv0, frame@, p, glyph, wi, hi, i, j, i < x as int));
            }
        }
        assert(frame@.depth =~= rs.depth) by {
            assert forall|k: int| 0 <= k < fv0.depth.len() implies
                frame@.depth[k] == rs.depth[k] by {
                lemma_idx_split(k, wi, hi);
                let i = k % wi;
                let j = k / wi;
                assert(fv0.idx(i, j) == k);
                assert(fv0.glyph_at(i, j) == fv0.glyphs[k]);
                assert(fv0.depth_at(i, j) == fv0.depth[k]);
                assert(cell_scanned(fv0, frame@, p, glyph, wi, hi, i, j, i < x as int));
            }
        }
        assert(frame@ =~= rs);
    }
}

} // verus!
