//! Homogeneous vectors and 4x4 matrices over fixed-point scalars, with the
//! three per-frame transform constructors: model rotation about the y axis,
//! camera translation, and the perspective projection.

use vstd::prelude::*;
use crate::fixed::{
    ONE, fx_add_spec, fx_div_spec, fx_mul_spec, fix_div, fix_mul, sat64,
};

verus! {

/// A homogeneous point or a matrix row, in fixed-point.
#[derive(Clone, Copy, PartialEq, Eq, Structural, Debug)]
pub struct Vec4 {
    pub x: i64,
    pub y: i64,
    pub z: i64,
    pub w: i64,
}

/// A point after the perspective divide, in fixed-point.
#[derive(Clone, Copy, PartialEq, Eq, Structural, Debug)]
pub struct Vec3 {
    pub x: i64,
    pub y: i64,
    pub z: i64,
}

/// A 4x4 matrix as four rows; a vector transforms as the dot product with
/// each row in turn.
#[derive(Clone, Copy, PartialEq, Eq, Structural, Debug)]
pub struct Mat4 {
    pub rx: Vec4,
    pub ry: Vec4,
    pub rz: Vec4,
    pub rw: Vec4,
}

/// An ordered triple of homogeneous vertices; the winding determines the
/// sign of the computed normal.
#[derive(Clone, Copy, PartialEq, Eq, Structural, Debug)]
pub struct Tri {
    pub v0: Vec4,
    pub v1: Vec4,
    pub v2: Vec4,
}

/// Saturate into the `i64` range, typed.
pub open spec fn sat64_i(v: int) -> i64 {
    sat64(v) as i64
}

/// Fixed-point dot product of two 4-vectors: the four saturated products
/// summed and saturated.
pub open spec fn dot4_spec(a: Vec4, b: Vec4) -> i64 {
    sat64_i(
        fx_mul_spec(a.x as int, b.x as int) + fx_mul_spec(a.y as int, b.y as int)
            + fx_mul_spec(a.z as int, b.z as int) + fx_mul_spec(a.w as int, b.w as int),
    )
}

/// Fixed-point dot product of two 3-vectors.
pub open spec fn dot3_spec(a: Vec3, b: Vec3) -> i64 {
    sat64_i(
        fx_mul_spec(a.x as int, b.x as int) + fx_mul_spec(a.y as int, b.y as int)
            + fx_mul_spec(a.z as int, b.z as int),
    )
}

/// Fixed-point cross product of two 3-vectors, each component saturated.
pub open spec fn cross3_spec(a: Vec3, b: Vec3) -> Vec3 {
    Vec3 {
        x: sat64_i(fx_mul_spec(a.y as int, b.z as int) - fx_mul_spec(a.z as int, b.y as int)),
        y: sat64_i(fx_mul_spec(a.z as int, b.x as int) - fx_mul_spec(a.x as int, b.z as int)),
        z: sat64_i(fx_mul_spec(a.x as int, b.y as int) - fx_mul_spec(a.y as int, b.x as int)),
    }
}

/// A matrix applied to a homogeneous vector.
pub open spec fn mul_vec_spec(m: Mat4, v: Vec4) -> Vec4 {
    Vec4 {
        x: dot4_spec(m.rx, v),
        y: dot4_spec(m.ry, v),
        z: dot4_spec(m.rz, v),
        w: dot4_spec(m.rw, v),
    }
}

/// Column `x` of a matrix, as a vector.
pub open spec fn col_x(m: Mat4) -> Vec4 {
    Vec4 { x: m.rx.x, y: m.ry.x, z: m.rz.x, w: m.rw.x }
}

/// Column `y` of a matrix, as a vector.
pub open spec fn col_y(m: Mat4) -> Vec4 {
    Vec4 { x: m.rx.y, y: m.ry.y, z: m.rz.y, w: m.rw.y }
}

/// Column `z` of a matrix, as a vector.
pub open spec fn col_z(m: Mat4) -> Vec4 {
    Vec4 { x: m.rx.z, y: m.ry.z, z: m.rz.z, w: m.rw.z }
}

/// Column `w` of a matrix, as a vector.
pub open spec fn col_w(m: Mat4) -> Vec4 {
    Vec4 { x: m.rx.w, y: m.ry.w, z: m.rz.w, w: m.rw.w }
}

/// Matrix product: entry (i, j) is the dot product of row i of `a` with
/// column j of `b`.
pub open spec fn mat_mul_spec(a: Mat4, b: Mat4) -> Mat4 {
    Mat4 {
        rx: Vec4 {
            x: dot4_spec(a.rx, col_x(b)),
            y: dot4_spec(a.rx, col_y(b)),
            z: dot4_spec(a.rx, col_z(b)),
            w: dot4_spec(a.rx, col_w(b)),
        },
        ry: Vec4 {
            x: dot4_spec(a.ry, col_x(b)),
            y: dot4_spec(a.ry, col_y(b)),
            z: dot4_spec(a.ry, col_z(b)),
            w: dot4_spec(a.ry, col_w(b)),
        },
        rz: Vec4 {
            x: dot4_spec(a.rz, col_x(b)),
            y: dot4_spec(a.rz, col_y(b)),
            z: dot4_spec(a.rz, col_z(b)),
            w: dot4_spec(a.rz, col_w(b)),
        },
        rw: Vec4 {
            x: dot4_spec(a.rw, col_x(b)),
            y: dot4_spec(a.rw, col_y(b)),
            z: dot4_spec(a.rw, col_z(b)),
            w: dot4_spec(a.rw, col_w(b)),
        },
    }
}

/// Fixed-point dot product of two 4-vectors.
pub fn dot4(a: Vec4, b: Vec4) -> (r: i64)
    ensures
        r == dot4_spec(a, b),
{
    let px = fix_mul(a.x, b.x);
    let py = fix_mul(a.y, b.y);
    let pz = fix_mul(a.z, b.z);
    let pw = fix_mul(a.w, b.w);
    let s: i128 = (px as i128) + (py as i128) + (pz as i128) + (pw as i128);
    crate::fixed::fix_sat(s)
}

/// Fixed-point dot product of two 3-vectors.
pub fn dot3(a: Vec3, b: Vec3) -> (r: i64)
    ensures
        r == dot3_spec(a, b),
{
    let px = fix_mul(a.x, b.x);
    let py = fix_mul(a.y, b.y);
    let pz = fix_mul(a.z, b.z);
    let s: i128 = (px as i128) + (py as i128) + (pz as i128);
    crate::fixed::fix_sat(s)
}

/// Fixed-point cross product of two 3-vectors.
pub fn cross3(a: Vec3, b: Vec3) -> (r: Vec3)
    ensures
        r == cross3_spec(a, b),
{
    let cx = crate::fixed::fix_sat(
        (fix_mul(a.y, b.z) as i128) - (fix_mul(a.z, b.y) as i128),
    );
    let cy = crate::fixed::fix_sat(
        (fix_mul(a.z, b.x) as i128) - (fix_mul(a.x, b.z) as i128),
    );
    let cz = crate::fixed::fix_sat(
        (fix_mul(a.x, b.y) as i128) - (fix_mul(a.y, b.x) as i128),
    );
    Vec3 { x: cx, y: cy, z: cz }
}

/// A matrix applied to a homogeneous vector.
pub fn mul_vec(m: &Mat4, v: Vec4) -> (r: Vec4)
    ensures
        r == mul_vec_spec(*m, v),
{
    Vec4 { x: dot4(m.rx, v), y: dot4(m.ry, v), z: dot4(m.rz, v), w: dot4(m.rw, v) }
}

/// Matrix product.
pub fn mat_mul(a: &Mat4, b: &Mat4) -> (r: Mat4)
    ensures
        r == mat_mul_spec(*a, *b),
{
    let cx = Vec4 { x: b.rx.x, y: b.ry.x, z: b.rz.x, w: b.rw.x };
    let cy = Vec4 { x: b.rx.y, y: b.ry.y, z: b.rz.y, w: b.rw.y };
    let cz = Vec4 { x: b.rx.z, y: b.ry.z, z: b.rz.z, w: b.rw.z };
    let cw = Vec4 { x: b.rx.w, y: b.ry.w, z: b.rz.w, w: b.rw.w };
    Mat4 {
        rx: Vec4 { x: dot4(a.rx, cx), y: dot4(a.rx, cy), z: dot4(a.rx, cz), w: dot4(a.rx, cw) },
        ry: Vec4 { x: dot4(a.ry, cx), y: dot4(a.ry, cy), z: dot4(a.ry, cz), w: dot4(a.ry, cw) },
        rz: Vec4 { x: dot4(a.rz, cx), y: dot4(a.rz, cy), z: dot4(a.rz, cz), w: dot4(a.rz, cw) },
        rw: Vec4 { x: dot4(a.rw, cx), y: dot4(a.rw, cy), z: dot4(a.rw, cz), w: dot4(a.rw, cw) },
    }
}

/// The translation matrix moving a point by (tx, ty, tz).
pub open spec fn translation_spec(tx: i64, ty: i64, tz: i64) -> Mat4 {
    Mat4 {
        rx: Vec4 { x: ONE, y: 0, z: 0, w: tx },
        ry: Vec4 { x: 0, y: ONE, z: 0, w: ty },
        rz: Vec4 { x: 0, y: 0, z: ONE, w: tz },
        rw: Vec4 { x: 0, y: 0, z: 0, w: ONE },
    }
}

/// The translation matrix moving a point by (tx, ty, tz).
pub fn translation(tx: i64, ty: i64, tz: i64) -> (r: Mat4)
    ensures
        r == translation_spec(tx, ty, tz),
{
    Mat4 {
        rx: Vec4 { x: ONE, y: 0, z: 0, w: tx },
        ry: Vec4 { x: 0, y: ONE, z: 0, w: ty },
        rz: Vec4 { x: 0, y: 0, z: ONE, w: tz },
        rw: Vec4 { x: 0, y: 0, z: 0, w: ONE },
    }
}

/// The rotation matrix about the y axis with the given fixed-point cosine
/// and sine.
pub open spec fn rotation_y_spec(c: i64, s: i64) -> Mat4 {
    Mat4 {
        rx: Vec4 { x: c, y: 0, z: s, w: 0 },
        ry: Vec4 { x: 0, y: ONE, z: 0, w: 0 },
        rz: Vec4 { x: sat64_i(-(s as int)), y: 0, z: c, w: 0 },
        rw: Vec4 { x: 0, y: 0, z: 0, w: ONE },
    }
}

/// The rotation matrix about the y axis with the given fixed-point cosine
/// and sine.
pub fn rotation_y(c: i64, s: i64) -> (r: Mat4)
    ensures
        r == rotation_y_spec(c, s),
{
    let ns = crate::fixed::fix_sat(-(s as i128));
    Mat4 {
        rx: Vec4 { x: c, y: 0, z: s, w: 0 },
        ry: Vec4 { x: 0, y: ONE, z: 0, w: 0 },
        rz: Vec4 { x: ns, y: 0, z: c, w: 0 },
        rw: Vec4 { x: 0, y: 0, z: 0, w: ONE },
    }
}

/// Fixed-point 1 / tan(pi / 6): the focal scale of a 60-degree vertical
/// field of view.
pub const FOCAL: i64 = 113512;

/// Fixed-point (far + near) / (near - far) for near 0.1, far 100.
pub const DEPTH_SCALE: i64 = -65667;

/// Fixed-point 2 * far * near / (near - far) for near 0.1, far 100.
pub const DEPTH_OFFSET: i64 = -13120;

/// The perspective projection matrix for a terminal of the given size:
/// a 60-degree vertical field of view, aspect ratio width / height, near
/// plane 0.1 and far plane 100.
pub open spec fn perspective_spec(width: int, height: int) -> Mat4 {
    let aspect = fx_div_spec(width * (ONE as int), height * (ONE as int));
    Mat4 {
        rx: Vec4 { x: sat64_i(fx_div_spec(FOCAL as int, aspect)), y: 0, z: 0, w: 0 },
        ry: Vec4 { x: 0, y: FOCAL, z: 0, w: 0 },
        rz: Vec4 { x: 0, y: 0, z: DEPTH_SCALE, w: DEPTH_OFFSET },
        rw: Vec4 { x: 0, y: 0, z: sat64_i(-(ONE as int)), w: 0 },
    }
}

/// The quotient of a larger by a smaller positive value is at least one.
proof fn lemma_div_at_least_one(a: int, b: int)
    requires
        0 < b <= a,
    ensures
        a / b >= 1,
{
    vstd::arithmetic::div_mod::lemma_fundamental_div_mod(a, b);
    vstd::arithmetic::div_mod::lemma_mod_bound(a, b);
    let q = a / b;
    let r = a % b;
    assert(q >= 1) by (nonlinear_arith)
        requires
            a == b * q + r,
            0 <= r < b,
            b <= a,
    ;
}

/// The perspective projection matrix for a terminal of the given size.
pub fn perspective(width: usize, height: usize) -> (r: Mat4)
    requires
        1 <= width <= 65535,
        1 <= height <= 65535,
    ensures
        r == perspective_spec(width as int, height as int),
{
    let wf: i64 = (width as i64) * ONE;
    let hf: i64 = (height as i64) * ONE;
    let aspect = fix_div(wf, hf);
    proof {
        lemma_div_at_least_one(wf as int * ONE as int, hf as int);
        assert(wf as int * ONE as int >= hf as int) by (nonlinear_arith)
            requires
                wf as int >= ONE as int,
                ONE as int >= 1,
                hf as int <= 65535 * 65536,
                wf as int * ONE as int >= 65536 * 65536,
        ;
    }
    let sx = fix_div(FOCAL, aspect);
    Mat4 {
        rx: Vec4 { x: sx, y: 0, z: 0, w: 0 },
        ry: Vec4 { x: 0, y: FOCAL, z: 0, w: 0 },
        rz: Vec4 { x: 0, y: 0, z: DEPTH_SCALE, w: DEPTH_OFFSET },
        rw: Vec4 { x: 0, y: 0, z: -ONE, w: 0 },
    }
}

} // verus!
