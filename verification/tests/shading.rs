use termrender::fixed::ONE;
use termrender::geom::{Tri, Vec3, Vec4};
use termrender::shade::{default_ramp, glyph_for, luminance};

#[test]
fn ramp_extremes_clamp() {
    let ramp = default_ramp();
    // Luminance 0 maps to the sparsest glyph, 1 to the densest.
    assert_eq!(glyph_for(0, &ramp), b' ');
    assert_eq!(glyph_for(ONE, &ramp), b'W');
    // Out-of-range luminance clamps; it never wraps.
    assert_eq!(glyph_for(-3 * ONE, &ramp), b' ');
    assert_eq!(glyph_for(5 * ONE, &ramp), b'W');
}

#[test]
fn ramp_midpoint() {
    let ramp = default_ramp();
    // 0.5 * 7 = 3.5 quantizes down to index 3.
    assert_eq!(glyph_for(ONE / 2, &ramp), b':');
}

#[test]
fn facing_triangle_is_brightest() {
    // A triangle facing the camera, under a light pointed straight at it.
    let t = Tri {
        v0: Vec4 { x: -ONE / 2, y: -ONE / 2, z: ONE / 2, w: ONE },
        v1: Vec4 { x: ONE / 2, y: -ONE / 2, z: ONE / 2, w: ONE },
        v2: Vec4 { x: 0, y: ONE / 2, z: ONE / 2, w: ONE },
    };
    let light = Vec3 { x: 0, y: 0, z: -ONE };
    let lum = luminance(&t, light);
    assert_eq!(lum, ONE);
    assert_eq!(glyph_for(lum, &default_ramp()), b'W');
}
