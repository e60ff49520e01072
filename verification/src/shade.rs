//! Flat per-triangle shading and luminance-to-glyph quantization.
//!
//! Luminance is computed from the triangle's unnormalized normal — the
//! shading is deliberately flat, per-face and area-weighted, a design
//! choice and not a defect — then quantized to an index into an ordered
//! glyph ramp, sparsest glyph first.

use vstd::prelude::*;
use crate::fixed::{ONE, clamp_spec, fx_sub_spec, fix_clamp, fix_sub, floor_div_i128};
use crate::geom::{Tri, Vec3, cross3, cross3_spec, dot3, dot3_spec, sat64_i};

verus! {

/// The edge vector from a triangle vertex to another, dropping the
/// homogeneous component, each coordinate saturated.
pub open spec fn edge3_spec(from: crate::geom::Vec4, to: crate::geom::Vec4) -> Vec3 {
    Vec3 {
        x: sat64_i(to.x - from.x),
        y: sat64_i(to.y - from.y),
        z: sat64_i(to.z - from.z),
    }
}

/// The unnormalized normal of a transformed triangle: the cross product of
/// its two edge vectors out of vertex 0, with w dropped.
pub open spec fn tri_normal_spec(t: Tri) -> Vec3 {
    cross3_spec(edge3_spec(t.v0, t.v1), edge3_spec(t.v0, t.v2))
}

/// Flat luminance of a transformed triangle under a light direction:
/// (1 - light . normal) / 2, clamped into [0, 1], all in fixed-point.
pub open spec fn luminance_spec(t: Tri, light: Vec3) -> int {
    clamp_spec(
        fx_sub_spec(ONE as int, dot3_spec(light, tri_normal_spec(t)) as int) / 2,
        0,
        ONE as int,
    )
}

/// Flat luminance of a transformed triangle under a light direction.
pub fn luminance(t: &Tri, light: Vec3) -> (r: i64)
    ensures
        0 <= r <= ONE,
        r as int == luminance_spec(*t, light),
{
    let e1 = Vec3 {
        x: fix_sub(t.v1.x, t.v0.x),
        y: fix_sub(t.v1.y, t.v0.y),
        z: fix_sub(t.v1.z, t.v0.z),
    };
    let e2 = Vec3 {
        x: fix_sub(t.v2.x, t.v0.x),
        y: fix_sub(t.v2.y, t.v0.y),
        z: fix_sub(t.v2.z, t.v0.z),
    };
    let n = cross3(e1, e2);
    let facing = fix_sub(ONE, dot3(light, n));
    let half = floor_div_i128(facing as i128, 2);
    fix_clamp(half as i64, 0, ONE)
}

/// The ramp index a luminance quantizes to: floor(lum * (n - 1) / 1.0) after
/// clamping the luminance into [0, 1]; always a valid index.
pub open spec fn glyph_index_spec(lum: int, n: int) -> int {
    clamp_spec(lum, 0, ONE as int) * (n - 1) / (ONE as int)
}

/// The quantized index stays within the ramp.
pub proof fn lemma_glyph_index_in_range(lum: int, n: int)
    requires
        n >= 1,
    ensures
        0 <= glyph_index_spec(lum, n) < n,
        lum <= 0 ==> glyph_index_spec(lum, n) == 0,
        lum >= ONE as int ==> glyph_index_spec(lum, n) == n - 1,
{
    let c = clamp_spec(lum, 0, ONE as int);
    let p = c * (n - 1);
    vstd::arithmetic::mul::lemma_mul_nonnegative(c, n - 1);
    vstd::arithmetic::mul::lemma_mul_inequality(c, ONE as int, n - 1);
    assert(0 <= p <= (ONE as int) * (n - 1));
    crate::fixed::lemma_div_bounds(p, ONE as int);
    vstd::arithmetic::div_mod::lemma_div_is_ordered(p, (ONE as int) * (n - 1), ONE as int);
    vstd::arithmetic::div_mod::lemma_div_by_multiple(n - 1, ONE as int);
    if lum <= 0 {
        assert(c == 0);
        assert(p == 0) by (nonlinear_arith)
            requires
                c == 0,
                p == c * (n - 1),
        ;
        vstd::arithmetic::div_mod::lemma_div_of0(ONE as int);
    }
    if lum >= ONE as int {
        assert(c == ONE as int);
    }
}

/// Select the glyph for a luminance from an ordered density ramp, sparsest
/// first: luminance at or below zero takes the first glyph, at or above one
/// the last, and values outside [0, 1] are clamped, never wrapped.
pub fn glyph_for(lum: i64, ramp: &Vec<u8>) -> (r: u8)
    requires
        ramp@.len() >= 1,
    ensures
        r == ramp@[glyph_index_spec(lum as int, ramp@.len() as int)],
        lum <= 0 ==> r == ramp@[0],
        lum >= ONE ==> r == ramp@[ramp@.len() - 1],
{
    proof {
        lemma_glyph_index_in_range(lum as int, ramp@.len() as int);
    }
    let c = fix_clamp(lum, 0, ONE);
    let p: i128 = (c as i128) * ((ramp.len() - 1) as i128);
    let idx = floor_div_i128(p, ONE as i128);
    ramp[idx as usize]
}

/// The default glyph ramp: eight levels from blank to dense.
pub fn default_ramp() -> (r: Vec<u8>)
    ensures
        r@ =~= seq![32u8, 46u8, 44u8, 58u8, 105u8, 108u8, 119u8, 87u8],
{
    let mut v: Vec<u8> = Vec::new();
    v.push(32u8);
    v.push(46u8);
    v.push(44u8);
    v.push(58u8);
    v.push(105u8);
    v.push(108u8);
    v.push(119u8);
    v.push(87u8);
    v
}

} // verus!
