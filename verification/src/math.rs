//! Screen-space line equations and the plane fit used to interpolate depth.
//!
//! A `Lin` bounds one scanline range of a triangle edge; a `Surface` is the
//! plane through a triangle's three post-divide vertices, evaluated to get
//! the depth at an arbitrary screen point. Both are built only from
//! non-degenerate inputs: a `Lin` needs a strictly increasing x span and a
//! `Surface` a plane not parallel to the view direction, so no division is
//! ever undefined.

use vstd::prelude::*;
use crate::fixed::{
    fx_add_spec, fx_div_spec, fx_mul_spec, fx_sub_spec, fix_add, fix_div, fix_mul, fix_sat,
    fix_sub, sat64,
};
use crate::geom::{Vec3, cross3, cross3_spec, dot3, dot3_spec, sat64_i};

verus! {

/// A line y = k * x + b over fixed-point screen coordinates.
#[derive(Clone, Copy, PartialEq, Eq, Structural, Debug)]
pub struct Lin {
    pub k: i64,
    pub b: i64,
}

/// The slope of the segment from (x0, y0) to (x1, y1).
pub open spec fn lin_k_spec(x0: int, y0: int, x1: int, y1: int) -> int {
    fx_div_spec(fx_sub_spec(y1, y0), fx_sub_spec(x1, x0))
}

/// The intercept of the segment from (x0, y0) to (x1, y1).
pub open spec fn lin_b_spec(x0: int, y0: int, x1: int, y1: int) -> int {
    fx_sub_spec(y0, fx_mul_spec(x0, lin_k_spec(x0, y0, x1, y1)))
}

/// The value of a line at x.
pub open spec fn lin_at_spec(l: Lin, x: int) -> int {
    fx_add_spec(fx_mul_spec(x as int, l.k as int), l.b as int)
}

impl Lin {
    /// The line through two screen points with strictly increasing x.
    pub fn from_points(x0: i64, y0: i64, x1: i64, y1: i64) -> (r: Lin)
        requires
            x0 < x1,
        ensures
            r.k as int == lin_k_spec(x0 as int, y0 as int, x1 as int, y1 as int),
            r.b as int == lin_b_spec(x0 as int, y0 as int, x1 as int, y1 as int),
    {
        let dx = fix_sub(x1, x0);
        let dy = fix_sub(y1, y0);
        let k = fix_div(dy, dx);
        let b = fix_sub(y0, fix_mul(x0, k));
        Lin { k, b }
    }

    /// The line's value at x.
    pub fn at(&self, x: i64) -> (r: i64)
        ensures
            r as int == lin_at_spec(*self, x as int),
    {
        fix_add(fix_mul(x, self.k), self.b)
    }
}

/// A plane a*x + b*y + c*z + d = 0 through a triangle's three post-divide
/// vertices, canonicalized so that c is positive.
#[derive(Clone, Copy, PartialEq, Eq, Structural, Debug)]
pub struct Surface {
    pub a: i64,
    pub b: i64,
    pub c: i64,
    pub d: i64,
}

impl Surface {
    /// A surface is usable only when its z coefficient is positive, so that
    /// evaluating depth never divides by zero.
    pub open spec fn wf(self) -> bool {
        self.c > 0
    }
}

/// The difference b - a, each component saturated.
pub open spec fn sub3_spec(a: Vec3, b: Vec3) -> Vec3 {
    Vec3 {
        x: sat64_i(b.x - a.x),
        y: sat64_i(b.y - a.y),
        z: sat64_i(b.z - a.z),
    }
}

/// The (unnormalized) normal of the triangle (p0, p1, p2): the cross product
/// of its two edge vectors out of p0. The plane equation is scale-invariant,
/// so the normal is deliberately left unnormalized.
pub open spec fn normal3_spec(p0: Vec3, p1: Vec3, p2: Vec3) -> Vec3 {
    cross3_spec(sub3_spec(p0, p1), sub3_spec(p0, p2))
}

/// The plane through three points, with the z coefficient made positive;
/// `None` when the plane is parallel to the view direction (z coefficient
/// zero), which a rasterizer skips.
pub open spec fn surface_spec(p0: Vec3, p1: Vec3, p2: Vec3) -> Option<Surface> {
    let n = normal3_spec(p0, p1, p2);
    let d = sat64_i(-(dot3_spec(n, p0) as int));
    if n.z == 0 {
        None
    } else if n.z > 0 {
        Some(Surface { a: n.x, b: n.y, c: n.z, d: d })
    } else {
        Some(
            Surface {
                a: sat64_i(-(n.x as int)),
                b: sat64_i(-(n.y as int)),
                c: sat64_i(-(n.z as int)),
                d: sat64_i(-(d as int)),
            },
        )
    }
}

/// The interpolated depth of a surface at screen point (x, y):
/// -(d + a*x + b*y) / c.
pub open spec fn surface_at_spec(s: Surface, x: int, y: int) -> int {
    fx_div_spec(
        sat64(-(s.d + fx_mul_spec(s.a as int, x) + fx_mul_spec(s.b as int, y))),
        s.c as int,
    )
}

impl Surface {
    /// Fit the plane through three post-divide vertices; `None` when it is
    /// parallel to the view direction.
    pub fn from_points(p0: Vec3, p1: Vec3, p2: Vec3) -> (r: Option<Surface>)
        ensures
            r == surface_spec(p0, p1, p2),
            r is Some ==> r.unwrap().wf(),
    {
        let e1 = Vec3 {
            x: fix_sub(p1.x, p0.x),
            y: fix_sub(p1.y, p0.y),
            z: fix_sub(p1.z, p0.z),
        };
        let e2 = Vec3 {
            x: fix_sub(p2.x, p0.x),
            y: fix_sub(p2.y, p0.y),
            z: fix_sub(p2.z, p0.z),
        };
        let n = cross3(e1, e2);
        let nd = dot3(n, p0);
        let d = fix_sat(-(nd as i128));
        if n.z == 0 {
            None
        } else if n.z > 0 {
            Some(Surface { a: n.x, b: n.y, c: n.z, d: d })
        } else {
            Some(
                Surface {
                    a: fix_sat(-(n.x as i128)),
                    b: fix_sat(-(n.y as i128)),
                    c: fix_sat(-(n.z as i128)),
                    d: fix_sat(-(d as i128)),
                },
            )
        }
    }

    /// The interpolated depth at screen point (x, y).
    pub fn at_x_y(&self, x: i64, y: i64) -> (r: i64)
        requires
            self.wf(),
        ensures
            r as int == surface_at_spec(*self, x as int, y as int),
    {
        let ax = fix_mul(self.a, x);
        let by = fix_mul(self.b, y);
        let s: i128 = -((self.d as i128) + (ax as i128) + (by as i128));
        let num = fix_sat(s);
        fix_div(num, self.c)
    }
}

} // verus!
