use rasterizer::fixed::ONE;
use rasterizer::math::{Vec2, Vec3i};
use rasterizer::raster::Vertex;
use rasterizer::render::{Renderer, Shading};
use rasterizer::tga::{RgbaColor, TgaImage};

fn vertex(x: i32, y: i32, z: i32, intensity: i32) -> Vertex {
    Vertex { p: Vec3i::new(x, y, z), t: Vec2::new(0, 0), i: intensity }
}

fn textured(x: i32, y: i32, u: i32, v: i32) -> Vertex {
    Vertex { p: Vec3i::new(x, y, 0), t: Vec2::new(u, v), i: ONE }
}

fn white() -> RgbaColor {
    RgbaColor::new(255, 255, 255, 255)
}

fn blank() -> RgbaColor {
    RgbaColor::new(0, 0, 0, 0)
}

fn painted(r: &Renderer) -> usize {
    let mut n = 0;
    for y in 0..r.image.height {
        for x in 0..r.image.width {
            if r.image.get_pixel(x, y) != blank() {
                n += 1;
            }
        }
    }
    n
}

fn same_image(a: &TgaImage, b: &TgaImage) -> bool {
    a.width == b.width && a.height == b.height && a.pixels == b.pixels
}

#[test]
fn new_renderer_is_blank() {
    let r = Renderer::new(4, 3);
    assert_eq!(r.image.width, 4);
    assert_eq!(r.image.height, 3);
    assert_eq!(r.image.pixels.len(), 12);
    assert_eq!(r.zbuffer.len(), 12);
    assert!(r.zbuffer.iter().all(|d| d.is_none()));
    assert!(r.diffuse.is_none());
    assert_eq!(r.color, white());
    assert_eq!(r.shading, Shading::Flat);
    assert_eq!(painted(&r), 0);
}

#[test]
fn settings_are_kept() {
    let mut r = Renderer::new(4, 4);
    r.set_shading(Shading::Gouraud);
    assert_eq!(r.shading, Shading::Gouraud);
    let mut tex = TgaImage::new(2, 2);
    tex.set_pixel(1, 1, &RgbaColor::new(9, 8, 7, 255));
    r.set_diffuse(tex);
    let bound = r.diffuse.as_ref().unwrap();
    assert_eq!(bound.get_pixel(1, 1), RgbaColor::new(9, 8, 7, 255));
    assert_eq!(r.shading, Shading::Gouraud);
}

#[test]
fn white_triangle_on_square_canvas() {
    let mut r = Renderer::new(100, 100);
    r.triangle(vertex(10, 10, 0, ONE), vertex(90, 10, 0, ONE), vertex(50, 90, 0, ONE));
    assert_eq!(r.image.get_pixel(50, 50), white());
    assert_eq!(r.image.get_pixel(5, 5), blank());
    assert_eq!(r.zbuffer[50 + 100 * 50], Some(0));
    assert_eq!(r.zbuffer[5 + 100 * 5], None);
}

#[test]
fn triangle_covers_its_interior() {
    let (a, b, c) = ((3, 2), (27, 9), (11, 25));
    let mut r = Renderer::new(32, 32);
    r.color = RgbaColor::new(200, 100, 50, 255);
    r.triangle(
        vertex(a.0, a.1, 7, ONE / 2),
        vertex(b.0, b.1, 7, ONE / 2),
        vertex(c.0, c.1, 7, ONE / 2),
    );
    let edge = |p: (i32, i32), q: (i32, i32), x: i32, y: i32| {
        (q.0 - p.0) * (y - p.1) - (q.1 - p.1) * (x - p.0)
    };
    let mut inside = 0;
    for y in 0..32 {
        for x in 0..32 {
            let (e0, e1, e2) = (edge(a, b, x, y), edge(b, c, x, y), edge(c, a, x, y));
            if (e0 > 0 && e1 > 0 && e2 > 0) || (e0 < 0 && e1 < 0 && e2 < 0) {
                inside += 1;
                assert_eq!(r.image.get_pixel(x, y), RgbaColor::new(100, 50, 25, 255));
            }
            if x < 3 || x > 27 {
                assert_eq!(r.image.get_pixel(x, y), blank());
            }
        }
    }
    assert!(inside > 100);
}

#[test]
fn upright_triangle_paints_nothing() {
    let mut r = Renderer::new(16, 16);
    r.triangle(vertex(5, 1, 0, ONE), vertex(5, 9, 0, ONE), vertex(5, 14, 0, ONE));
    assert_eq!(painted(&r), 0);
    assert!(r.zbuffer.iter().all(|d| d.is_none()));
}

#[test]
fn slanted_collinear_corners_paint_a_line() {
    let mut r = Renderer::new(8, 8);
    r.triangle(vertex(0, 0, 0, ONE), vertex(1, 1, 0, ONE), vertex(2, 2, 0, ONE));
    assert_eq!(r.image.get_pixel(0, 0), white());
    assert_eq!(r.image.get_pixel(1, 1), white());
    assert_eq!(r.image.get_pixel(2, 2), white());
    assert_eq!(painted(&r), 3);
}

#[test]
fn deeper_triangle_wins_in_either_order() {
    let near = [vertex(2, 2, 10, ONE), vertex(28, 4, 10, ONE), vertex(12, 27, 10, ONE)];
    let far = [vertex(6, 1, 40, ONE / 4), vertex(30, 20, 40, ONE / 4), vertex(1, 22, 40, ONE / 4)];

    let mut one = Renderer::new(32, 32);
    one.triangle(near[0], near[1], near[2]);
    one.triangle(far[0], far[1], far[2]);

    let mut other = Renderer::new(32, 32);
    other.triangle(far[0], far[1], far[2]);
    other.triangle(near[0], near[1], near[2]);

    let mut alone = Renderer::new(32, 32);
    alone.triangle(far[0], far[1], far[2]);

    assert!(same_image(&one.image, &other.image));
    assert_eq!(one.zbuffer, other.zbuffer);
    let mut shared = 0;
    for y in 0..32 {
        for x in 0..32 {
            if alone.image.get_pixel(x, y) != blank() {
                assert_eq!(one.image.get_pixel(x, y), RgbaColor::new(63, 63, 63, 255));
                if one.image.get_pixel(x, y) != alone.image.get_pixel(x, y) {
                    panic!("pixel ({}, {}) differs", x, y);
                }
                shared += 1;
            }
        }
    }
    assert!(shared > 50);
    assert_eq!(one.image.get_pixel(3, 3), white());
}

#[test]
fn equal_depth_keeps_the_first() {
    let mut r = Renderer::new(16, 16);
    r.triangle(vertex(1, 1, 5, ONE), vertex(14, 1, 5, ONE), vertex(7, 14, 5, ONE));
    r.color = RgbaColor::new(10, 20, 30, 255);
    r.triangle(vertex(1, 1, 5, ONE), vertex(14, 1, 5, ONE), vertex(7, 14, 5, ONE));
    assert_eq!(r.image.get_pixel(7, 5), white());
    r.triangle(vertex(1, 1, 6, ONE), vertex(14, 1, 6, ONE), vertex(7, 14, 6, ONE));
    assert_eq!(r.image.get_pixel(7, 5), RgbaColor::new(10, 20, 30, 255));
}

#[test]
fn negative_intensity_lights_like_positive() {
    let mut r = Renderer::new(16, 16);
    r.color = RgbaColor::new(200, 100, 50, 255);
    r.triangle(vertex(1, 1, 0, -ONE / 2), vertex(14, 1, 0, -ONE / 2), vertex(7, 14, 0, -ONE / 2));
    assert_eq!(r.image.get_pixel(7, 5), RgbaColor::new(100, 50, 25, 255));
}

#[test]
fn intensity_is_interpolated() {
    let mut r = Renderer::new(16, 16);
    r.triangle(vertex(0, 0, 0, 0), vertex(8, 0, 0, ONE), vertex(0, 8, 0, 0));
    // Along the bottom edge the intensity grows linearly with x.
    assert_eq!(r.image.get_pixel(0, 0), RgbaColor::new(0, 0, 0, 255));
    assert_eq!(r.image.get_pixel(4, 0), RgbaColor::new(127, 127, 127, 255));
    assert_eq!(r.image.get_pixel(8, 0), white());
}

#[test]
fn texture_is_sampled_by_truncation() {
    let mut tex = TgaImage::new(2, 2);
    tex.set_pixel(0, 0, &RgbaColor::new(255, 0, 0, 255));
    tex.set_pixel(1, 0, &RgbaColor::new(0, 255, 0, 255));
    tex.set_pixel(0, 1, &RgbaColor::new(0, 0, 255, 255));
    tex.set_pixel(1, 1, &RgbaColor::new(255, 255, 0, 255));
    let mut r = Renderer::new(8, 8);
    r.set_diffuse(tex);
    // The texture is stretched over the square from (0, 0) to (7, 7).
    r.triangle(textured(0, 0, 0, 0), textured(7, 0, ONE, 0), textured(0, 7, 0, ONE));
    r.triangle(textured(7, 7, ONE, ONE), textured(7, 0, ONE, 0), textured(0, 7, 0, ONE));
    assert_eq!(r.image.get_pixel(1, 1), RgbaColor::new(255, 0, 0, 255));
    assert_eq!(r.image.get_pixel(5, 1), RgbaColor::new(0, 255, 0, 255));
    assert_eq!(r.image.get_pixel(1, 5), RgbaColor::new(0, 0, 255, 255));
    // A coordinate of exactly one stays within the texture.
    assert_eq!(r.image.get_pixel(7, 7), RgbaColor::new(255, 255, 0, 255));
}

#[test]
fn triangle_outside_the_canvas_is_ignored() {
    let mut r = Renderer::new(8, 8);
    r.triangle(vertex(-20, -5, 0, ONE), vertex(-10, -9, 0, ONE), vertex(-12, -1, 0, ONE));
    r.triangle(vertex(20, 30, 0, ONE), vertex(40, 31, 0, ONE), vertex(25, 50, 0, ONE));
    assert_eq!(painted(&r), 0);
}

#[test]
fn triangle_partly_outside_is_cut_off() {
    let mut r = Renderer::new(8, 8);
    r.triangle(vertex(-4, -4, 0, ONE), vertex(12, -4, 0, ONE), vertex(4, 12, 0, ONE));
    assert_eq!(r.image.get_pixel(4, 4), white());
    assert_eq!(r.image.get_pixel(0, 7), blank());
}

#[test]
fn line_counts_its_pixels() {
    let mut r = Renderer::new(16, 16);
    r.line(1, 2, 9, 5);
    assert_eq!(painted(&r), 9);
    assert_eq!(r.image.get_pixel(1, 2), white());
    assert_eq!(r.image.get_pixel(9, 5), white());

    let mut steep = Renderer::new(16, 16);
    steep.line(3, 12, 1, 0);
    assert_eq!(painted(&steep), 13);
}

#[test]
fn line_follows_the_rounded_slope() {
    let mut r = Renderer::new(8, 8);
    r.line(0, 0, 6, 2);
    // y advances when k / 3 has passed one half and three halves.
    let expected = [(0, 0), (1, 0), (2, 1), (3, 1), (4, 1), (5, 2), (6, 2)];
    for (x, y) in expected {
        assert_eq!(r.image.get_pixel(x, y), white());
    }
    assert_eq!(painted(&r), 7);
}

#[test]
fn line_is_the_same_from_either_end() {
    let ends = [((0, 0), (3, 1)), ((2, 9), (11, 4)), ((7, 7), (7, 1)), ((10, 2), (3, 2)), ((1, 1), (6, 6))];
    for ((x0, y0), (x1, y1)) in ends {
        let mut there = Renderer::new(12, 12);
        there.line(x0, y0, x1, y1);
        let mut back = Renderer::new(12, 12);
        back.line(x1, y1, x0, y0);
        assert!(same_image(&there.image, &back.image));
    }
}

#[test]
fn line_through_a_tie_rounds_downward() {
    let mut there = Renderer::new(4, 4);
    there.line(0, 0, 2, 1);
    assert_eq!(there.image.get_pixel(1, 0), white());
    assert_eq!(there.image.get_pixel(1, 1), blank());
    let mut back = Renderer::new(4, 4);
    back.line(2, 1, 0, 0);
    assert_eq!(back.image.get_pixel(1, 1), white());
    assert_eq!(back.image.get_pixel(1, 0), blank());
}

#[test]
fn line_of_one_point() {
    let mut r = Renderer::new(4, 4);
    r.line(2, 3, 2, 3);
    assert_eq!(painted(&r), 1);
    assert_eq!(r.image.get_pixel(2, 3), white());
}

#[test]
fn line_leaves_depths_alone_and_is_cut_off() {
    let mut r = Renderer::new(4, 4);
    r.line(-3, 1, 8, 1);
    assert_eq!(painted(&r), 4);
    assert!(r.zbuffer.iter().all(|d| d.is_none()));
    r.line(i32::MIN, 0, i32::MIN + 3, 0);
    assert_eq!(painted(&r), 4);
}

#[test]
fn triangle_with_an_upright_edge() {
    // The two leftmost corners share a column.
    let mut r = Renderer::new(16, 16);
    r.triangle(vertex(2, 2, 0, ONE), vertex(2, 10, 0, ONE), vertex(12, 6, 0, ONE));
    assert_eq!(r.image.get_pixel(5, 6), white());
    assert_eq!(r.image.get_pixel(2, 6), white());
    assert_eq!(r.image.get_pixel(12, 6), white());
    assert_eq!(r.image.get_pixel(11, 3), blank());

    // The two rightmost corners share a column.
    let mut s = Renderer::new(16, 16);
    s.triangle(vertex(12, 2, 0, ONE), vertex(2, 6, 0, ONE), vertex(12, 10, 0, ONE));
    assert_eq!(s.image.get_pixel(9, 6), white());
    assert_eq!(s.image.get_pixel(12, 6), white());
    assert_eq!(s.image.get_pixel(2, 6), white());
    assert_eq!(s.image.get_pixel(3, 3), blank());
}

#[test]
fn corners_may_come_in_any_order() {
    let corners = [vertex(3, 2, 0, ONE), vertex(27, 9, 0, ONE), vertex(11, 25, 0, ONE)];
    let mut first = Renderer::new(32, 32);
    first.triangle(corners[0], corners[1], corners[2]);
    for order in [[0, 2, 1], [1, 0, 2], [1, 2, 0], [2, 0, 1], [2, 1, 0]] {
        let mut r = Renderer::new(32, 32);
        r.triangle(corners[order[0]], corners[order[1]], corners[order[2]]);
        assert!(same_image(&r.image, &first.image));
    }
}

#[test]
fn depth_is_interpolated() {
    let mut r = Renderer::new(16, 16);
    r.triangle(vertex(0, 0, 0, ONE), vertex(8, 0, 80, ONE), vertex(0, 8, 0, ONE));
    assert_eq!(r.zbuffer[0], Some(0));
    assert_eq!(r.zbuffer[4], Some(40 * 65536));
    assert_eq!(r.zbuffer[8], Some(80 * 65536));
    // Three eighths of the way along the bottom edge.
    assert_eq!(r.zbuffer[3], Some(30 * 65536));
}
