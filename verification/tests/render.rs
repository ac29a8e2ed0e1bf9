use megavertex::fixed::FP;
use megavertex::object::Texture;
use megavertex::renderer::{Barycentric, Renderer, get_barycentric, min3, BLACK, FAR_DEPTH};
use megavertex::vec2::Vec2;
use megavertex::vec3::Vec3;

fn solid_texture(col: u32) -> Texture {
    Texture { width: 1, height: 1, pixels: vec![col] }
}

fn uv_origin() -> Vec<Vec2> {
    vec![Vec2::new(0, 0), Vec2::new(0, 0), Vec2::new(0, 0)]
}

#[test]
fn min3_is_accurate() {
    let expected: isize = 2;
    let result = min3(2 * FP, 3 * FP, 4 * FP);
    assert_eq!(expected, result);
}

#[test]
fn barycentric() {
    // The weights of (0.5, 0.25) against the triangle below, by the
    // two-by-two system of dot products: one half of the first corner
    // and one quarter of each of the others.
    let expected = Barycentric { u: 32768, v: 16384, w: 16384 };
    let a = Vec2::new(0, 0);
    let b = Vec2::new(FP, FP);
    let c = Vec2::new(FP, 0);
    let p = Vec2::new(FP / 2, FP / 4);
    let result = get_barycentric(a, b, c, p);
    assert_eq!(expected, result);
}

#[test]
fn barycentric_partition_of_unity() {
    let a = Vec2::new(0, 0);
    let b = Vec2::new(8 * FP, 0);
    let c = Vec2::new(0, 8 * FP);
    let inside = get_barycentric(a, b, c, Vec2::new(2 * FP, 2 * FP));
    assert_eq!(inside.u + inside.v + inside.w, FP as i128);
    assert!(inside.u >= 0 && inside.v >= 0 && inside.w >= 0);
    assert!(inside.u <= FP as i128 && inside.v <= FP as i128 && inside.w <= FP as i128);
    let outside = get_barycentric(a, b, c, Vec2::new(9 * FP, 9 * FP));
    assert_eq!(outside.u + outside.v + outside.w, FP as i128);
    assert!(outside.u < 0 || outside.v < 0 || outside.w < 0);
}

#[test]
fn clear_resets_buffers() {
    let mut r = Renderer::new(4, 3);
    r.draw_pixel(Vec3::new(FP, FP, -2 * FP), 99);
    r.clear();
    for i in 0..12 {
        assert_eq!(r.buffer[i], BLACK);
        assert_eq!(r.depth_buffer[i], FAR_DEPTH);
    }
}

#[test]
fn draw_pixel_in_and_out_of_bounds() {
    let mut r = Renderer::new(4, 3);
    r.draw_pixel(Vec3::new(2 * FP, FP, -5 * FP), 7);
    assert_eq!(r.buffer[1 * 4 + 2], 7);
    assert_eq!(r.depth_buffer[1 * 4 + 2], -5 * FP);
    let before = r.buffer.clone();
    r.draw_pixel(Vec3::new(9 * FP, FP, -5 * FP), 8);
    r.draw_pixel(Vec3::new(-FP, FP, -5 * FP), 8);
    assert_eq!(r.buffer, before);
}

/// A triangle whose projection covers the whole ten-by-ten screen:
/// the clamped bounding box crops it to exactly that square.
fn full_screen_triangle() -> Vec<Vec3> {
    vec![
        Vec3::new(-229376, -229376, -FP),
        Vec3::new(655360, -229376, -FP),
        Vec3::new(-229376, 655360, -FP),
    ]
}

#[test]
fn end_to_end_unit_triangle() {
    let mut r = Renderer::new(10, 10);
    r.draw_triangle(full_screen_triangle(), &solid_texture(0xAABBCC), uv_origin());
    for i in 0..100 {
        assert_eq!(r.buffer[i], 0xAABBCC);
        assert_eq!(r.depth_buffer[i], -FP);
    }
}

#[test]
fn behind_camera_cull() {
    let mut r = Renderer::new(10, 10);
    let mut verts = full_screen_triangle();
    verts[1].z = FP;
    r.draw_triangle(verts, &solid_texture(0xAABBCC), uv_origin());
    for i in 0..100 {
        assert_eq!(r.buffer[i], BLACK);
        assert_eq!(r.depth_buffer[i], FAR_DEPTH);
    }
    let mut verts2 = full_screen_triangle();
    verts2[2].z = 0;
    r.draw_triangle(verts2, &solid_texture(0xAABBCC), uv_origin());
    for i in 0..100 {
        assert_eq!(r.buffer[i], BLACK);
    }
}

#[test]
fn off_screen_culling() {
    let mut r = Renderer::new(10, 10);
    // Entirely to the right of the screen: raster columns 15 to 25.
    let verts = vec![
        Vec3::new(FP, 0, -FP),
        Vec3::new(2 * FP, 0, -FP),
        Vec3::new(2 * FP, FP, -FP),
    ];
    r.draw_triangle(verts, &solid_texture(0xAABBCC), uv_origin());
    for i in 0..100 {
        assert_eq!(r.buffer[i], BLACK);
        assert_eq!(r.depth_buffer[i], FAR_DEPTH);
    }
}

#[test]
fn degenerate_triangle_is_skipped() {
    let mut r = Renderer::new(10, 10);
    let p = Vec3::new(0, 0, -FP);
    r.draw_triangle(vec![p, p, p], &solid_texture(0xAABBCC), uv_origin());
    for i in 0..100 {
        assert_eq!(r.buffer[i], BLACK);
    }
}

fn near_triangle() -> Vec<Vec3> {
    vec![
        Vec3::new(-229376, -229376, -FP),
        Vec3::new(655360, -229376, -FP),
        Vec3::new(-229376, 655360, -FP),
    ]
}

fn far_triangle() -> Vec<Vec3> {
    vec![
        Vec3::new(-229376, -229376, -2 * FP),
        Vec3::new(655360, -229376, -2 * FP),
        Vec3::new(-229376, 655360, -2 * FP),
    ]
}

#[test]
fn depth_test_order_independence() {
    let near_col = 0x00FF00;
    let far_col = 0x0000FF;
    let mut r1 = Renderer::new(10, 10);
    r1.draw_triangle(near_triangle(), &solid_texture(near_col), uv_origin());
    r1.draw_triangle(far_triangle(), &solid_texture(far_col), uv_origin());
    let mut r2 = Renderer::new(10, 10);
    r2.draw_triangle(far_triangle(), &solid_texture(far_col), uv_origin());
    r2.draw_triangle(near_triangle(), &solid_texture(near_col), uv_origin());
    assert_eq!(r1.buffer, r2.buffer);
    assert_eq!(r1.depth_buffer, r2.depth_buffer);
    for i in 0..100 {
        assert_eq!(r1.buffer[i], near_col);
        assert_eq!(r1.depth_buffer[i], -FP);
    }
}

#[test]
fn redraw_same_depth_changes_nothing() {
    // The depth test is strict, so drawing the same opaque triangle
    // twice leaves the first result in place.
    let mut r = Renderer::new(10, 10);
    r.draw_triangle(near_triangle(), &solid_texture(1), uv_origin());
    let buffer = r.buffer.clone();
    let depth = r.depth_buffer.clone();
    r.draw_triangle(near_triangle(), &solid_texture(2), uv_origin());
    assert_eq!(r.buffer, buffer);
    assert_eq!(r.depth_buffer, depth);
}

#[test]
fn draw_line_marks_pixels() {
    let mut r = Renderer::new(10, 10);
    r.draw_line(Vec3::new(FP, FP, 0), Vec3::new(4 * FP, FP, 0));
    for x in 1..5usize {
        assert_eq!(r.buffer[1 * 10 + x], megavertex::renderer::BLUE);
        assert_eq!(r.depth_buffer[1 * 10 + x], megavertex::renderer::WIRE_DEPTH);
    }
    // The guard skips the zero row and column.
    r.draw_line(Vec3::new(0, 0, 0), Vec3::new(0, 5 * FP, 0));
    assert_eq!(r.buffer[0], BLACK);
}
