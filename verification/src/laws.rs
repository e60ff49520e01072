//! Properties of the renderer that hold beyond any one function's
//! contract: determinism of a frame, and order independence of the
//! depth-tested write, up to whole permutations of the draw order.

use vstd::prelude::*;
use crate::geom::{Mat4, Tri, Vec3};
use crate::frame::{Frame, FrameView};
use crate::raster::{prep_spec, raster_spec, tri_depth_spec, tri_hit_spec};
use crate::pipeline::{blank_view, render_tris_spec, shade_glyph_spec, transform_tri_spec};

verus! {

/// Rendering the same static scene twice into freshly cleared buffers of
/// the same dimensions produces identical framebuffer contents: the result
/// of a render is a function of the triangles, the configuration and the
/// cleared start alone.
pub proof fn lemma_render_deterministic(
    f1: FrameView,
    f2: FrameView,
    tris: Seq<Tri>,
    m: Mat4,
    light: Vec3,
    ramp: Seq<u8>,
    w: nat,
    h: nat,
    bg: u8,
)
    requires
        f1 == blank_view(w, h, bg),
        f2 == blank_view(w, h, bg),
    ensures
        render_tris_spec(f1, tris, m, light, ramp) == render_tris_spec(f2, tris, m, light, ramp),
{
}

/// The depth half of the depth-tested write is a per-cell minimum, so two
/// writes to one cell leave the same depth in either order, ties included.
pub proof fn lemma_cell_depth_commutes(g0: u8, d0: i64, g1: u8, z1: i64, g2: u8, z2: i64)
    ensures
        Frame::write_spec(
            Frame::write_spec(g0, d0, g1, z1).0,
            Frame::write_spec(g0, d0, g1, z1).1,
            g2,
            z2,
        ).1 == Frame::write_spec(
            Frame::write_spec(g0, d0, g2, z2).0,
            Frame::write_spec(g0, d0, g2, z2).1,
            g1,
            z1,
        ).1,
{
}

/// The whole depth-tested write commutes at any cell where the two depths
/// differ: with a strict minimum, which triangle is drawn first cannot
/// matter. (At a tie the first write wins the glyph, so ties are excluded.)
pub proof fn lemma_cell_write_commutes(g0: u8, d0: i64, g1: u8, z1: i64, g2: u8, z2: i64)
    requires
        z1 != z2,
    ensures
        Frame::write_spec(
            Frame::write_spec(g0, d0, g1, z1).0,
            Frame::write_spec(g0, d0, g1, z1).1,
            g2,
            z2,
        ) == Frame::write_spec(
            Frame::write_spec(g0, d0, g2, z2).0,
            Frame::write_spec(g0, d0, g2, z2).1,
            g1,
            z1,
        ),
{
}

/// No cell of a w-by-h grid sees both triangles at one interpolated
/// depth.
pub open spec fn depths_distinct_at(w: nat, h: nat, t1: Tri, t2: Tri) -> bool {
    let wi = w as int;
    let hi = h as int;
    forall|i: int, j: int|
        #![trigger tri_hit_spec(prep_spec(t1, w as int, h as int).unwrap(), w as int, h as int, i, j), tri_hit_spec(prep_spec(t2, w as int, h as int).unwrap(), w as int, h as int, i, j)]
        (prep_spec(t1, wi, hi) is Some && prep_spec(t2, wi, hi) is Some && tri_hit_spec(
            prep_spec(t1, wi, hi).unwrap(),
            wi,
            hi,
            i,
            j,
        ) && tri_hit_spec(prep_spec(t2, wi, hi).unwrap(), wi, hi, i, j)) ==> tri_depth_spec(
            prep_spec(t1, wi, hi).unwrap(),
            wi,
            hi,
            i,
            j,
        ) != tri_depth_spec(prep_spec(t2, wi, hi).unwrap(), wi, hi, i, j)
}

/// No cell of the framebuffer sees both triangles at one interpolated
/// depth.
pub open spec fn depths_distinct(fv: FrameView, t1: Tri, t2: Tri) -> bool {
    depths_distinct_at(fv.width, fv.height, t1, t2)
}

/// Rasterizing two triangles commutes on every framebuffer where no cell
/// sees both at one interpolated depth: the final frame of an adjacent
/// swap in draw order is identical.
pub proof fn lemma_raster_swap(fv: FrameView, t1: Tri, g1: u8, t2: Tri, g2: u8)
    requires
        fv.wf(),
        depths_distinct(fv, t1, t2),
    ensures
        raster_spec(raster_spec(fv, t1, g1), t2, g2) == raster_spec(raster_spec(fv, t2, g2), t1, g1),
{
    reveal(raster_spec);
    let w = fv.width as int;
    let h = fv.height as int;
    let a = raster_spec(raster_spec(fv, t1, g1), t2, g2);
    let b = raster_spec(raster_spec(fv, t2, g2), t1, g1);
    assert(a.width == b.width && a.height == b.height);
    assert(a.glyphs.len() == b.glyphs.len());
    assert(a.depth.len() == b.depth.len());
    assert forall|k: int| 0 <= k < a.glyphs.len() implies a.glyphs[k] == b.glyphs[k]
        && a.depth[k] == b.depth[k] by {
        if w > 0 {
            crate::frame::lemma_idx_split(k, w, h);
            let i = k % w;
            let j = k / w;
            match (prep_spec(t1, w, h), prep_spec(t2, w, h)) {
                (Option::Some(p1), Option::Some(p2)) => {
                    if tri_hit_spec(p1, w, h, i, j) && tri_hit_spec(p2, w, h, i, j) {
                        lemma_cell_write_commutes(
                            fv.glyphs[k],
                            fv.depth[k],
                            g1,
                            tri_depth_spec(p1, w, h, i, j),
                            g2,
                            tri_depth_spec(p2, w, h, i, j),
                        );
                    }
                },
                _ => {},
            }
        }
    }
    assert(a.glyphs =~= b.glyphs);
    assert(a.depth =~= b.depth);
    assert(a =~= b);
}


/// Rasterizing keeps the framebuffer's dimensions and well-formedness.
pub proof fn lemma_raster_preserves(fv: FrameView, t: Tri, g: u8)
    requires
        fv.wf(),
    ensures
        raster_spec(fv, t, g).wf(),
        raster_spec(fv, t, g).width == fv.width,
        raster_spec(fv, t, g).height == fv.height,
{
    reveal(raster_spec);
}

/// A render fold keeps the framebuffer's dimensions and well-formedness.
pub proof fn lemma_render_preserves(fv: FrameView, tris: Seq<Tri>, m: Mat4, light: Vec3, ramp: Seq<u8>)
    requires
        fv.wf(),
    ensures
        render_tris_spec(fv, tris, m, light, ramp).wf(),
        render_tris_spec(fv, tris, m, light, ramp).width == fv.width,
        render_tris_spec(fv, tris, m, light, ramp).height == fv.height,
    decreases tris.len(),
{
    if tris.len() > 0 {
        lemma_render_preserves(fv, tris.drop_last(), m, light, ramp);
        lemma_raster_preserves(
            render_tris_spec(fv, tris.drop_last(), m, light, ramp),
            transform_tri_spec(m, tris.last()),
            shade_glyph_spec(transform_tri_spec(m, tris.last()), light, ramp),
        );
    }
}

/// Every two differently-transformed triangles of a scene meet no cell of
/// a w-by-h grid at one interpolated depth.
pub open spec fn scene_depths_distinct(w: nat, h: nat, tris: Seq<Tri>, m: Mat4) -> bool {
    forall|t1: Tri, t2: Tri|
        #![trigger tris.contains(t1), tris.contains(t2)]
        tris.contains(t1) && tris.contains(t2) && transform_tri_spec(m, t1)
            != transform_tri_spec(m, t2) ==> depths_distinct_at(
            w,
            h,
            transform_tri_spec(m, t1),
            transform_tri_spec(m, t2),
        )
}

/// Moving one triangle of the draw order to its end leaves the rendered
/// frame identical, cell depths being distinct.
#[verifier::rlimit(100)]
proof fn lemma_render_move_to_last(
    fv: FrameView,
    tris: Seq<Tri>,
    k: int,
    m: Mat4,
    light: Vec3,
    ramp: Seq<u8>,
)
    requires
        fv.wf(),
        0 <= k < tris.len(),
        scene_depths_distinct(fv.width, fv.height, tris, m),
    ensures
        render_tris_spec(fv, tris, m, light, ramp) == render_tris_spec(
            fv,
            tris.remove(k).push(tris[k]),
            m,
            light,
            ramp,
        ),
    decreases tris.len(),
{
    let s2 = tris.remove(k).push(tris[k]);
    if k == tris.len() - 1 {
        assert(s2 =~= tris);
    } else {
        let n = tris.len() as int;
        let dl = tris.drop_last();
        let tlast = tris.last();
        let tk = tris[k];
        assert forall|t1: Tri| #[trigger] dl.contains(t1) implies tris.contains(t1) by {
            let i = choose|i: int| 0 <= i < dl.len() && dl[i] == t1;
            assert(tris[i] == t1);
        }
        lemma_render_move_to_last(fv, dl, k, m, light, ramp);
        let dl2 = dl.remove(k).push(tk);
        assert(dl2.drop_last() =~= dl.remove(k));
        assert(dl2.last() == tk);
        let base = render_tris_spec(fv, dl.remove(k), m, light, ramp);
        lemma_render_preserves(fv, dl.remove(k), m, light, ramp);
        let tt1 = transform_tri_spec(m, tk);
        let tt2 = transform_tri_spec(m, tlast);
        let g1 = shade_glyph_spec(tt1, light, ramp);
        let g2 = shade_glyph_spec(tt2, light, ramp);
        assert(tris.contains(tk));
        assert(tris.contains(tlast)) by {
            assert(tris[n - 1] == tlast);
        }
        if tt1 != tt2 {
            lemma_raster_swap(base, tt1, g1, tt2, g2);
        }
        assert(raster_spec(raster_spec(base, tt1, g1), tt2, g2) == raster_spec(
            raster_spec(base, tt2, g2),
            tt1,
            g1,
        ));
        assert(s2.drop_last() =~= tris.remove(k));
        assert(s2.last() == tk);
        assert(tris.remove(k) =~= dl.remove(k).push(tlast));
        assert(tris.remove(k).drop_last() =~= dl.remove(k));
        assert(tris.remove(k).last() == tlast);
        assert(render_tris_spec(fv, tris, m, light, ramp) == raster_spec(
            raster_spec(base, tt1, g1),
            tt2,
            g2,
        ));
        assert(render_tris_spec(fv, tris.remove(k), m, light, ramp) == raster_spec(
            base,
            tt2,
            g2,
        ));
        assert(render_tris_spec(fv, s2, m, light, ramp) == raster_spec(
            render_tris_spec(fv, tris.remove(k), m, light, ramp),
            tt1,
            g1,
        ));
        assert(render_tris_spec(fv, s2, m, light, ramp) == raster_spec(
            raster_spec(base, tt2, g2),
            tt1,
            g1,
        ));
    }
}

/// Rendering a scene's triangles in any permutation of the draw order
/// produces the identical final frame, when no two differently-transformed
/// triangles of the scene meet a cell at one interpolated depth: the
/// depth-tested write is a per-cell strict minimum, so only an exact tie
/// could make the order matter.
pub proof fn lemma_render_permuted(
    fv: FrameView,
    a: Seq<Tri>,
    b: Seq<Tri>,
    m: Mat4,
    light: Vec3,
    ramp: Seq<u8>,
)
    requires
        fv.wf(),
        a.to_multiset() == b.to_multiset(),
        scene_depths_distinct(fv.width, fv.height, a, m),
    ensures
        render_tris_spec(fv, a, m, light, ramp) == render_tris_spec(fv, b, m, light, ramp),
    decreases a.len(),
{
    broadcast use vstd::seq_lib::group_to_multiset_ensures;

    if a.len() == 0 {
        assert(b.len() == b.to_multiset().len());
        assert(b =~= a);
    } else {
        let n = a.len() as int;
        let t = a.last();
        assert(a.contains(t)) by {
            assert(a[n - 1] == t);
        }
        assert(b.to_multiset().count(t) > 0);
        assert(b.contains(t));
        let k = choose|k: int| 0 <= k < b.len() && b[k] == t;
        assert forall|t1: Tri| #[trigger] b.contains(t1) implies a.contains(t1) by {
            assert(b.to_multiset().count(t1) > 0);
            assert(a.to_multiset().count(t1) > 0);
        }
        assert(scene_depths_distinct(fv.width, fv.height, b, m));
        lemma_render_move_to_last(fv, b, k, m, light, ramp);
        let b2 = b.remove(k).push(t);
        assert(b2.drop_last() =~= b.remove(k));
        assert(b2.last() == t);
        assert(a.drop_last() =~= a.remove(n - 1));
        assert(a.remove(n - 1).to_multiset() =~= a.to_multiset().remove(t));
        assert(b.remove(k).to_multiset() =~= b.to_multiset().remove(t));
        assert(a.drop_last().to_multiset() == b.remove(k).to_multiset());
        assert forall|t1: Tri| #[trigger] a.drop_last().contains(t1) implies a.contains(
            t1,
        ) by {
            let i = choose|i: int| 0 <= i < a.drop_last().len() && a.drop_last()[i] == t1;
            assert(a[i] == t1);
        }
        assert(scene_depths_distinct(fv.width, fv.height, a.drop_last(), m));
        lemma_render_permuted(fv, a.drop_last(), b.remove(k), m, light, ramp);
        assert(render_tris_spec(fv, b, m, light, ramp) == render_tris_spec(
            fv,
            b2,
            m,
            light,
            ramp,
        ));
    }
}

} // verus!
