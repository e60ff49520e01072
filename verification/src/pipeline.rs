//! The per-frame pipeline: rotation state, the cached projection, and the
//! frame step that clears or resizes the buffers, transforms, shades and
//! rasterizes every triangle, and advances the rotation.

use vstd::prelude::*;
use crate::fixed::{ONE, fx_add_spec, fx_mul_spec, fx_sub_spec, fix_add, fix_mul, fix_sub};
use crate::geom::{
    Mat4, Tri, Vec3, mat_mul, mat_mul_spec, mul_vec, mul_vec_spec, perspective,
    perspective_spec, rotation_y, rotation_y_spec, translation, translation_spec,
};
use crate::shade::{glyph_index_spec, glyph_for, luminance, luminance_spec};
use crate::frame::{Frame, FrameView};
use crate::raster::{raster, raster_spec};

verus! {

/// One full turn of the model, in frames.
pub const ROT_STEPS: u32 = 60;

/// Fixed-point cosine of one rotation step (six degrees).
pub const COS_STEP: i64 = 65177;

/// Fixed-point sine of one rotation step (six degrees).
pub const SIN_STEP: i64 = 6851;

/// The model rotation state: the step count around the current turn and the
/// fixed-point cosine and sine of the current angle.
#[derive(Clone, Copy, PartialEq, Eq, Structural, Debug)]
pub struct Rotation {
    pub step: u32,
    pub c: i64,
    pub s: i64,
}

/// The rotation at angle zero.
pub open spec fn rot_init_spec() -> Rotation {
    Rotation { step: 0, c: ONE, s: 0 }
}

/// The rotation advanced by one fixed step, wrapping at one full turn; the
/// cosine and sine advance by the angle-sum formulas and reset exactly at
/// the wrap, so rounding drift never outlives a turn.
pub open spec fn rot_next_spec(r: Rotation) -> Rotation {
    if r.step + 1 >= ROT_STEPS {
        rot_init_spec()
    } else {
        Rotation {
            step: (r.step + 1) as u32,
            c: crate::geom::sat64_i(
                fx_sub_spec(
                    fx_mul_spec(r.c as int, COS_STEP as int),
                    fx_mul_spec(r.s as int, SIN_STEP as int),
                ),
            ),
            s: crate::geom::sat64_i(
                fx_add_spec(
                    fx_mul_spec(r.s as int, COS_STEP as int),
                    fx_mul_spec(r.c as int, SIN_STEP as int),
                ),
            ),
        }
    }
}

impl Rotation {
    /// The rotation state is within its turn.
    pub open spec fn wf(self) -> bool {
        self.step < ROT_STEPS
    }

    /// The rotation at angle zero.
    pub fn start() -> (r: Rotation)
        ensures
            r == rot_init_spec(),
            r.wf(),
    {
        Rotation { step: 0, c: ONE, s: 0 }
    }

    /// Advance the rotation by one fixed step, wrapping at one full turn.
    pub fn advance(self) -> (r: Rotation)
        requires
            self.wf(),
        ensures
            r == rot_next_spec(self),
            r.wf(),
    {
        if self.step + 1 >= ROT_STEPS {
            Rotation { step: 0, c: ONE, s: 0 }
        } else {
            Rotation {
                step: self.step + 1,
                c: fix_sub(fix_mul(self.c, COS_STEP), fix_mul(self.s, SIN_STEP)),
                s: fix_add(fix_mul(self.s, COS_STEP), fix_mul(self.c, SIN_STEP)),
            }
        }
    }
}

/// The default camera: a translation by (0, -1, -10).
pub fn default_camera() -> (r: Mat4)
    ensures
        r == translation_spec(0i64, -65536i64, -655360i64),
{
    translation(0, -65536, -655360)
}

/// The default light direction: the unit vector along (-0.4, -0.4, -1.0),
/// in fixed-point.
pub fn default_light() -> (r: Vec3)
    ensures
        r == (Vec3 { x: -22817i64, y: -22817i64, z: -57042i64 }),
{
    Vec3 { x: -22817, y: -22817, z: -57042 }
}

/// A triangle taken through the combined transform.
pub open spec fn transform_tri_spec(m: Mat4, t: Tri) -> Tri {
    Tri { v0: mul_vec_spec(m, t.v0), v1: mul_vec_spec(m, t.v1), v2: mul_vec_spec(m, t.v2) }
}

/// A triangle taken through the combined transform.
pub fn transform_tri(m: &Mat4, t: &Tri) -> (r: Tri)
    ensures
        r == transform_tri_spec(*m, *t),
{
    Tri { v0: mul_vec(m, t.v0), v1: mul_vec(m, t.v1), v2: mul_vec(m, t.v2) }
}

/// The glyph a transformed triangle shades to under a light and a ramp.
pub open spec fn shade_glyph_spec(t: Tri, light: Vec3, ramp: Seq<u8>) -> u8 {
    ramp[glyph_index_spec(luminance_spec(t, light), ramp.len() as int)]
}

/// The combined per-frame matrix: projection, then camera, then model
/// rotation, composed in that order.
pub open spec fn combined_spec(proj: Mat4, cam: Mat4, rot: Rotation) -> Mat4 {
    mat_mul_spec(mat_mul_spec(proj, cam), rotation_y_spec(rot.c, rot.s))
}

/// A framebuffer view with every glyph at the background and every depth at
/// the sentinel.
pub open spec fn blank_view(w: nat, h: nat, bg: u8) -> FrameView {
    FrameView {
        width: w,
        height: h,
        glyphs: Seq::new(w * h, |k: int| bg),
        depth: Seq::new(w * h, |k: int| ONE),
    }
}

/// The framebuffer after rasterizing a sequence of transformed, shaded
/// triangles in order into a starting framebuffer.
pub open spec fn render_tris_spec(
    fv: FrameView,
    tris: Seq<Tri>,
    m: Mat4,
    light: Vec3,
    ramp: Seq<u8>,
) -> FrameView
    decreases tris.len(),
{
    if tris.len() == 0 {
        fv
    } else {
        let t = transform_tri_spec(m, tris.last());
        raster_spec(
            render_tris_spec(fv, tris.drop_last(), m, light, ramp),
            t,
            shade_glyph_spec(t, light, ramp),
        )
    }
}

/// The renderer: the shared framebuffer pair, the cached projection, the
/// rotation state, and the scene configuration (glyph ramp, light
/// direction, camera).
pub struct Renderer {
    pub frame: Frame,
    pub proj: Mat4,
    pub rot: Rotation,
    pub ramp: Vec<u8>,
    pub light: Vec3,
    pub cam: Mat4,
}

impl Renderer {
    /// The buffers are consistent, the ramp is nonempty, and the rotation
    /// is within its turn.
    pub open spec fn wf(self) -> bool {
        &&& self.frame.wf()
        &&& self.ramp@.len() >= 1
        &&& self.rot.wf()
    }

    /// A renderer with empty buffers (any real terminal size differs, so
    /// the first frame allocates), rotation at zero, and an identity
    /// projection that the first frame replaces.
    pub fn new(ramp: Vec<u8>, light: Vec3, cam: Mat4) -> (r: Renderer)
        requires
            ramp@.len() >= 1,
        ensures
            r.wf(),
            r.frame.width == 0,
            r.frame.height == 0,
            r.rot == rot_init_spec(),
            r.ramp == ramp,
            r.light == light,
            r.cam == cam,
    {
        let bg = ramp[0];
        Renderer {
            frame: Frame::new(0, 0, bg),
            proj: translation(0, 0, 0),
            rot: Rotation::start(),
            ramp,
            light,
            cam,
        }
    }

    /// Render one frame at the reported terminal size: clear the buffers in
    /// place, or reallocate them and recompute the projection exactly once
    /// if the size changed; transform, shade and rasterize every triangle
    /// in order; advance the rotation one step. The resulting framebuffer
    /// is a function of the triangles, the size and the prior state alone.
    #[verifier::rlimit(100)]
    pub fn render_frame(&mut self, tris: &Vec<Tri>, width: usize, height: usize)
        requires
            old(self).wf(),
            1 <= width <= 65535,
            1 <= height <= 65535,
        ensures
            final(self).wf(),
            final(self).frame.width == width,
            final(self).frame.height == height,
            final(self).proj == if width == old(self).frame.width && height == old(
                self,
            ).frame.height {
                old(self).proj
            } else {
                perspective_spec(width as int, height as int)
            },
            final(self).rot == rot_next_spec(old(self).rot),
            final(self).ramp == old(self).ramp,
            final(self).light == old(self).light,
            final(self).cam == old(self).cam,
            final(self).frame@ == render_tris_spec(
                blank_view(width as nat, height as nat, old(self).ramp@[0]),
                tris@,
                combined_spec(final(self).proj, old(self).cam, old(self).rot),
                old(self).light,
                old(self).ramp@,
            ),
    {
        let bg = self.ramp[0];
        let resized = self.frame.prepare(width, height, bg);
        if resized {
            self.proj = perspective(width, height);
        }
        let rotm = rotation_y(self.rot.c, self.rot.s);
        let m = mat_mul(&mat_mul(&self.proj, &self.cam), &rotm);
        let ghost base = blank_view(width as nat, height as nat, bg);
        proof {
            assert(self.frame@ =~= base);
        }
        let ghost m0 = m;
        let ghost proj0 = self.proj;
        let ghost rot0 = self.rot;
        let ghost ramp0 = self.ramp@;
        let mut k: usize = 0;
        while k < tris.len()
            invariant
                self.frame.wf(),
                self.frame.width == width,
                self.frame.height == height,
                self.proj == proj0,
                self.rot == rot0,
                self.ramp == old(self).ramp,
                ramp0 == old(self).ramp@,
                self.light == old(self).light,
                self.cam == old(self).cam,
                ramp0.len() >= 1,
                rot0.wf(),
                m0 == combined_spec(proj0, old(self).cam, rot0),
                m == m0,
                k <= tris@.len(),
                self.frame@ == render_tris_spec(base, tris@.subrange(0, k as int), m0, old(self).light, ramp0),
            decreases tris@.len() - k,
        {
            let t = transform_tri(&m, &tris[k]);
            let lum = luminance(&t, self.light);
            let g = glyph_for(lum, &self.ramp);
            raster(&mut self.frame, &t, g);
            proof {
                assert(tris@.subrange(0, k as int + 1).drop_last() =~= tris@.subrange(
                    0,
                    k as int,
                ));
                assert(tris@.subrange(0, k as int + 1).last() == tris@[k as int]);
            }
            k = k + 1;
        }
        proof {
            assert(tris@.subrange(0, tris@.len() as int) =~= tris@);
        }
        self.rot = self.rot.advance();
    }
}

} // verus!
