use termrender::fixed::ONE;
use termrender::frame::Frame;
use termrender::geom::{Tri, Vec4};
use termrender::parse::load_model;
use termrender::pipeline::{default_camera, default_light, Renderer, Rotation};
use termrender::raster::raster;
use termrender::shade::default_ramp;

fn cube() -> Vec<Tri> {
    let src = b"v -1 -1 -1\nv 1 -1 -1\nv 1 1 -1\nv -1 1 -1\nv -1 -1 1\nv 1 -1 1\nv 1 1 1\nv -1 1 1\nf 1 2 3 4\nf 5 6 7 8\nf 1 2 6 5\nf 3 4 8 7\nf 1 4 8 5\nf 2 3 7 6\n".to_vec();
    load_model(&src).unwrap()
}

fn fresh_renderer() -> Renderer {
    Renderer::new(default_ramp(), default_light(), default_camera())
}

#[test]
fn buffers_track_terminal_size() {
    let tris = cube();
    let mut r = fresh_renderer();
    r.render_frame(&tris, 80, 24);
    assert_eq!(r.frame.width, 80);
    assert_eq!(r.frame.height, 24);
    // A mid-run resize gives exactly the new dimensions, with no residual
    // cells carried over from the old buffers.
    r.render_frame(&Vec::new(), 40, 12);
    assert_eq!(r.frame.width, 40);
    assert_eq!(r.frame.height, 12);
    let out = r.frame.flush_bytes();
    assert_eq!(out.len(), 40 * 12 + 11);
    assert!(out.iter().all(|&b| b == b' ' || b == b'\n'));
}

#[test]
fn same_scene_renders_identically() {
    // Two fresh renderers, the same scene: byte-identical frames.
    let tris = cube();
    let mut r1 = fresh_renderer();
    let mut r2 = fresh_renderer();
    r1.render_frame(&tris, 60, 20);
    r2.render_frame(&tris, 60, 20);
    assert_eq!(r1.frame.flush_bytes(), r2.frame.flush_bytes());
    assert!(r1.frame.flush_bytes().iter().any(|&b| b != b' ' && b != b'\n'));
}

#[test]
fn draw_order_does_not_change_the_frame() {
    // Two triangles at distinct depths, rasterized in both orders.
    let near = Tri {
        v0: Vec4 { x: -ONE / 2, y: -ONE / 2, z: ONE / 4, w: ONE },
        v1: Vec4 { x: ONE / 2, y: -ONE / 2, z: ONE / 4, w: ONE },
        v2: Vec4 { x: 0, y: ONE / 2, z: ONE / 4, w: ONE },
    };
    let far = Tri {
        v0: Vec4 { x: -ONE / 2, y: -ONE / 4, z: ONE / 2, w: ONE },
        v1: Vec4 { x: ONE / 2, y: -ONE / 4, z: ONE / 2, w: ONE },
        v2: Vec4 { x: 0, y: 3 * ONE / 4, z: ONE / 2, w: ONE },
    };
    let mut f1 = Frame::new(24, 16, b' ');
    raster(&mut f1, &near, b'N');
    raster(&mut f1, &far, b'F');
    let mut f2 = Frame::new(24, 16, b' ');
    raster(&mut f2, &far, b'F');
    raster(&mut f2, &near, b'N');
    assert_eq!(f1.flush_bytes(), f2.flush_bytes());
    assert!(f1.flush_bytes().iter().any(|&b| b == b'N'));
}

#[test]
fn facing_triangle_fills_footprint_uniformly() {
    // One triangle facing the camera fills its whole footprint with one
    // glyph and leaves every other cell at the background.
    let t = Tri {
        v0: Vec4 { x: -ONE / 2, y: -ONE / 2, z: ONE / 2, w: ONE },
        v1: Vec4 { x: ONE / 2, y: -ONE / 2, z: ONE / 2, w: ONE },
        v2: Vec4 { x: 0, y: ONE / 2, z: ONE / 2, w: ONE },
    };
    let mut f = Frame::new(20, 20, b' ');
    raster(&mut f, &t, b'W');
    let out = f.flush_bytes();
    let drawn = out.iter().filter(|&&b| b == b'W').count();
    assert!(drawn > 0);
    assert!(out.iter().all(|&b| b == b'W' || b == b' ' || b == b'\n'));
}

#[test]
fn degenerate_triangles_are_skipped() {
    // Non-positive homogeneous w: the triangle is skipped, not drawn.
    let behind = Tri {
        v0: Vec4 { x: 0, y: 0, z: 0, w: -ONE },
        v1: Vec4 { x: ONE, y: 0, z: 0, w: ONE },
        v2: Vec4 { x: 0, y: ONE, z: 0, w: ONE },
    };
    // Zero horizontal extent after the divide: also skipped.
    let sliver = Tri {
        v0: Vec4 { x: 0, y: 0, z: 0, w: ONE },
        v1: Vec4 { x: 0, y: ONE / 2, z: 0, w: ONE },
        v2: Vec4 { x: 0, y: ONE, z: 0, w: ONE },
    };
    let mut f = Frame::new(16, 16, b'.');
    raster(&mut f, &behind, b'X');
    raster(&mut f, &sliver, b'X');
    assert!(f.flush_bytes().iter().all(|&b| b == b'.' || b == b'\n'));
}

#[test]
fn rotation_wraps_after_a_full_turn() {
    let mut r = Rotation::start();
    assert_eq!((r.step, r.c, r.s), (0, ONE, 0));
    r = r.advance();
    assert_eq!((r.step, r.c, r.s), (1, 65177, 6851));
    for _ in 0..59 {
        r = r.advance();
    }
    assert_eq!((r.step, r.c, r.s), (0, ONE, 0));
}

#[test]
fn projection_recomputed_only_on_resize() {
    let tris = cube();
    let mut r = fresh_renderer();
    r.render_frame(&tris, 80, 24);
    let proj1 = r.proj;
    r.render_frame(&tris, 80, 24);
    assert_eq!(r.proj, proj1);
    r.render_frame(&tris, 40, 24);
    assert_ne!(r.proj, proj1);
}

#[test]
fn clear_resets_every_cell() {
    let mut f = Frame::new(8, 4, b' ');
    let t = Tri {
        v0: Vec4 { x: -ONE / 2, y: -ONE / 2, z: ONE / 2, w: ONE },
        v1: Vec4 { x: ONE / 2, y: -ONE / 2, z: ONE / 2, w: ONE },
        v2: Vec4 { x: 0, y: ONE / 2, z: ONE / 2, w: ONE },
    };
    raster(&mut f, &t, b'W');
    f.clear(b' ');
    assert!(f.flush_bytes().iter().all(|&b| b == b' ' || b == b'\n'));
}

#[test]
fn flush_separates_rows_with_line_breaks() {
    let f = Frame::new(3, 2, b'.');
    assert_eq!(f.flush_bytes(), b"...\n...".to_vec());
}
