use rasterizer::fixed::ONE;
use rasterizer::math::Vec3f;
use rasterizer::model::Model;
use rasterizer::render::{Renderer, Shading};
use rasterizer::tga::RgbaColor;

fn first_number(word: &str) -> i32 {
    let text = format!("v {} 0 0", word);
    let m = Model::parse(text.as_bytes());
    assert_eq!(m.vertices.len(), 1);
    m.vertices[0].x
}

fn face_of(line: &str) -> [i32; 9] {
    let m = Model::parse(line.as_bytes());
    assert_eq!(m.faces.len(), 1);
    m.faces[0]
}

#[test]
fn directives_fill_the_four_arrays() {
    let text = "# a triangle\n\
                v -1 0.5 0\n\
                v 1 0 0.25\n\
                v 0 1 -0.125\n\
                vt 0 0\n\
                vt 1 0.5 0\n\
                vn 0 0 -1\n\
                g surface\n\
                f 1/1/1 2/2/1 3/1/1\n";
    let m = Model::parse(text.as_bytes());
    assert_eq!(
        m.vertices,
        vec![
            Vec3f::new(-ONE, ONE / 2, 0),
            Vec3f::new(ONE, 0, ONE / 4),
            Vec3f::new(0, ONE, -ONE / 8),
        ]
    );
    assert_eq!(m.normals, vec![Vec3f::new(0, 0, -ONE)]);
    assert_eq!(m.texture_coords.len(), 2);
    assert_eq!((m.texture_coords[0].x, m.texture_coords[0].y), (0, 0));
    assert_eq!((m.texture_coords[1].x, m.texture_coords[1].y), (ONE, ONE / 2));
    assert_eq!(m.faces, vec![[0, 0, 0, 1, 1, 0, 2, 0, 0]]);
    assert!(m.is_valid());
    assert!(m.has_all_normals());
}

#[test]
fn empty_text_is_an_empty_model() {
    let m = Model::parse(b"");
    assert!(m.vertices.is_empty() && m.normals.is_empty());
    assert!(m.texture_coords.is_empty() && m.faces.is_empty());
    assert!(m.is_valid());
    assert!(m.has_all_normals());
}

#[test]
fn numbers_in_plain_decimal_notation() {
    assert_eq!(first_number("0.5"), 32768);
    assert_eq!(first_number("-1"), -65536);
    assert_eq!(first_number("+2.25"), 147456);
    assert_eq!(first_number(".5"), 32768);
    assert_eq!(first_number("5."), 327680);
    assert_eq!(first_number("-0.000000"), 0);
    assert_eq!(first_number("007"), 7 * 65536);
    // One tenth is 6553.6 raw units; the value is rounded toward zero.
    assert_eq!(first_number("0.1"), 6553);
    assert_eq!(first_number("-0.1"), -6553);
    // The smallest raw unit is 1 / 65536.
    assert_eq!(first_number("0.0000152587890625"), 1);
    assert_eq!(first_number("0.0000152587890624"), 0);
    assert_eq!(first_number("0.99999999999999999999"), 65535);
}

#[test]
fn numbers_out_of_range_count_as_zero() {
    assert_eq!(first_number("16383"), 16383 * 65536);
    assert_eq!(first_number("16383.99999"), (1 << 30) - 1);
    assert_eq!(first_number("-16383.99999"), -((1 << 30) - 1));
    assert_eq!(first_number("16384"), 0);
    assert_eq!(first_number("-16384"), 0);
    assert_eq!(first_number("99999999999999999999999999"), 0);
}

#[test]
fn words_that_spell_no_number_count_as_zero() {
    for word in [
        "abc", "1.2.3", "--1", "+", "-", ".", "1,5", "0x10", "1-", "nan", "inf", "e5", "1e", "1e+",
        "1e5.5", "1e1e1", ".e1", "-.e1", "1e-", "1E", "e", "+e1",
    ] {
        let text = format!("v {} 7 7", word);
        let m = Model::parse(text.as_bytes());
        assert_eq!(m.vertices[0].x, 0);
    }
}

#[test]
fn numbers_with_an_exponent() {
    assert_eq!(first_number("1e0"), 65536);
    assert_eq!(first_number("2.5e1"), 25 * 65536);
    assert_eq!(first_number("25E-1"), 163840);
    assert_eq!(first_number("1e+2"), 100 * 65536);
    assert_eq!(first_number("-1.25e2"), -125 * 65536);
    assert_eq!(first_number("1.e1"), 10 * 65536);
    assert_eq!(first_number(".5e1"), 5 * 65536);
    assert_eq!(first_number("0.00000000001e11"), 65536);
    assert_eq!(first_number("100000000000000000000e-20"), 65536);
    // 0.0015 is 98.304 raw units.
    assert_eq!(first_number("1.5e-3"), 98);
    assert_eq!(first_number("-1.5e-3"), -98);
    assert_eq!(first_number("1638399e-2"), 16383 * 65536 + 64880);
}

#[test]
fn exponents_beyond_the_range() {
    assert_eq!(first_number("1e5"), 0);
    assert_eq!(first_number("163.84e2"), 0);
    assert_eq!(first_number("1e99999999999999999999999999999999999999"), 0);
    assert_eq!(first_number("0.000e99999999999999999999999999999999999999"), 0);
    assert_eq!(first_number("5e-99999999999999999999999999999999999999"), 0);
    assert_eq!(first_number("5e-6"), 0);
    assert_eq!(first_number("1e-5"), 0);
    assert_eq!(first_number("2e-5"), 1);
    let m = Model::parse(b"v 0e999 1e-0 -0e0\n");
    assert_eq!(m.vertices, vec![Vec3f::new(0, ONE, 0)]);
}

#[test]
fn a_bad_number_does_not_drop_the_line() {
    let m = Model::parse(b"v 1 oops 2\nvt x 0.5\nvn 0 0 ?\n");
    assert_eq!(m.vertices, vec![Vec3f::new(ONE, 0, 2 * ONE)]);
    assert_eq!((m.texture_coords[0].x, m.texture_coords[0].y), (0, ONE / 2));
    assert_eq!(m.normals, vec![Vec3f::new(0, 0, 0)]);
}

#[test]
fn lines_with_too_few_words_are_passed_over() {
    let m = Model::parse(b"v 1 2\nv\nv \nvt 0.5\nvn 1 2\nf 1 2\nf 1/1/1 2/2/2\nv 1 2 3\n");
    assert_eq!(m.vertices, vec![Vec3f::new(ONE, 2 * ONE, 3 * ONE)]);
    assert!(m.texture_coords.is_empty());
    assert!(m.normals.is_empty());
    assert!(m.faces.is_empty());
}

#[test]
fn other_lines_are_ignored() {
    let m = Model::parse(b"# v 1 2 3\n v 1 2 3\nvp 1 2 3\nvt\t1 2\nV 1 2 3\nfv 1 2 3\ns off\n\n\n");
    assert!(m.vertices.is_empty() && m.normals.is_empty());
    assert!(m.texture_coords.is_empty() && m.faces.is_empty());
}

#[test]
fn blanks_between_words_do_not_matter() {
    let m = Model::parse(b"v   1\t 2  \t3  \r\nvt 0.5   0.25\r\nv 4 5 6 7 8");
    assert_eq!(m.vertices, vec![Vec3f::new(ONE, 2 * ONE, 3 * ONE), Vec3f::new(4 * ONE, 5 * ONE, 6 * ONE)]);
    assert_eq!((m.texture_coords[0].x, m.texture_coords[0].y), (ONE / 2, ONE / 4));
}

#[test]
fn faces_count_from_one() {
    assert_eq!(face_of("f 1/2/3 4/5/6 7/8/9"), [0, 1, 2, 3, 4, 5, 6, 7, 8]);
    assert_eq!(face_of("f 10/20/30 1/1/1 2147483647/1/1"), [9, 19, 29, 0, 0, 0, 2147483646, 0, 0]);
}

#[test]
fn missing_face_indices_are_minus_one() {
    assert_eq!(face_of("f 1 2 3"), [0, -1, -1, 1, -1, -1, 2, -1, -1]);
    assert_eq!(face_of("f 1/2 3/4 5/6"), [0, 1, -1, 2, 3, -1, 4, 5, -1]);
    assert_eq!(face_of("f 1//2 3//4 5//6"), [0, -1, 1, 2, -1, 3, 4, -1, 5]);
    assert_eq!(face_of("f 1/ /2 x/y/z"), [0, -1, -1, -1, 1, -1, -1, -1, -1]);
    assert_eq!(face_of("f 0/0/0 -1/-2/-3 2147483648/1/1"), [-1, -1, -1, -2, -3, -4, -1, 0, 0]);
}

#[test]
fn further_face_words_and_fields_are_not_looked_at() {
    assert_eq!(face_of("f 1/2/3/4 5/6/7/8/9 10/11/12 13/14/15"), [0, 1, 2, 4, 5, 6, 9, 10, 11]);
}

#[test]
fn validity_checks_indices_and_ranges() {
    let good = Model::parse(b"v 0 0 0\nv 1 0 0\nv 0 1 0\nvt 0 0\nf 1/1 2/1 3/1\n");
    assert!(good.is_valid());
    assert!(!good.has_all_normals());

    assert!(!Model::parse(b"v 0 0 0\nvt 0 0\nf 1/1 2/1 1/1\n").is_valid());
    assert!(!Model::parse(b"v 0 0 0\nvt 0 0\nf 1/1 1/2 1/1\n").is_valid());
    assert!(!Model::parse(b"v 0 0 0\nf 1 1 1\n").is_valid());
    assert!(!Model::parse(b"v 0 0 0\nvt 0 0\nf 0/1 1/1 1/1\n").is_valid());

    let mut far = Model::parse(b"v 0 0 0\n");
    assert!(far.is_valid());
    far.vertices[0].y = 1 << 30;
    assert!(!far.is_valid());

    let mut lit = Model::parse(b"v 0 0 0\nvt 0 0\nvn 0 0 1\nf 1/1/1 1/1/1 1/1/1\n");
    assert!(lit.has_all_normals());
    lit.normals[0].z = -(1 << 30);
    assert!(!lit.has_all_normals());
    assert!(!Model::parse(b"v 0 0 0\nvt 0 0\nvn 0 0 1\nf 1/1/1 1/1/2 1/1/1\n").has_all_normals());
}

const FACING: &str = "v -0.8 -0.8 0\nv 0.8 -0.8 0\nv 0 0.8 0\nvt 0 0\n";

#[test]
fn flat_shading_takes_the_face_normal() {
    // The normal of this face points along the negative z axis, toward the light.
    let text = format!("{}f 1/1 2/1 3/1\n", FACING);
    let model = Model::parse(text.as_bytes());
    assert!(model.is_valid());
    let mut r = Renderer::new(100, 100);
    r.draw_model(model);
    assert_eq!(r.image.get_pixel(50, 50), RgbaColor::new(255, 255, 255, 255));
    assert_eq!(r.image.get_pixel(5, 5), RgbaColor::new(0, 0, 0, 0));
    // z = 0 lies halfway into the depth range of 255, rounded down.
    assert_eq!(r.zbuffer[50 + 100 * 50], Some(127 * 65536));
    // -0.8 and 0.8 come to the columns 10 and 89.
    assert_eq!(r.image.get_pixel(10, 10), RgbaColor::new(255, 255, 255, 255));
    assert_eq!(r.image.get_pixel(89, 10), RgbaColor::new(255, 255, 255, 255));
    assert_eq!(r.image.get_pixel(90, 10), RgbaColor::new(0, 0, 0, 0));
    assert_eq!(r.image.get_pixel(9, 10), RgbaColor::new(0, 0, 0, 0));
}

#[test]
fn flat_shading_of_a_face_turned_away_is_as_bright() {
    let text = format!("{}f 1/1 3/1 2/1\n", FACING);
    let mut r = Renderer::new(100, 100);
    r.draw_model(Model::parse(text.as_bytes()));
    assert_eq!(r.image.get_pixel(50, 50), RgbaColor::new(255, 255, 255, 255));
}

#[test]
fn flat_shading_of_a_tilted_face() {
    // The face rises by 3 in z over 4 in x: its normal is (3, 0, -4) / 5.
    let text = "v -0.5 -0.5 -0.375\nv 0.5 -0.5 0.375\nv -0.5 0.5 -0.375\nvt 0 0\nf 1/1 2/1 3/1\n";
    let mut r = Renderer::new(64, 64);
    r.color = RgbaColor::new(100, 200, 50, 255);
    r.draw_model(Model::parse(text.as_bytes()));
    // Four fifths of the flat color, rounded down.
    assert_eq!(r.image.get_pixel(24, 24), RgbaColor::new(79, 159, 39, 255));
}

#[test]
fn gouraud_shading_takes_the_corner_normals() {
    let text = format!("{}vn 0 0 -1\nvn 0 0 -0.5\nvn 0 0 0.25\nf 1/1/1 2/1/1 3/1/1\n", FACING);
    let model = Model::parse(text.as_bytes());
    assert!(model.is_valid() && model.has_all_normals());
    let mut r = Renderer::new(100, 100);
    r.set_shading(Shading::Gouraud);
    r.draw_model(model);
    assert_eq!(r.image.get_pixel(50, 50), RgbaColor::new(255, 255, 255, 255));

    let dim = format!("{}vn 0 0 -1\nvn 0 0 -0.5\nvn 0 0 0.25\nf 1/1/2 2/1/2 3/1/2\n", FACING);
    let mut r = Renderer::new(100, 100);
    r.set_shading(Shading::Gouraud);
    r.draw_model(Model::parse(dim.as_bytes()));
    assert_eq!(r.image.get_pixel(50, 50), RgbaColor::new(127, 127, 127, 255));

    let away = format!("{}vn 0 0 -1\nvn 0 0 -0.5\nvn 0 0 0.25\nf 1/1/3 2/1/3 3/1/3\n", FACING);
    let mut r = Renderer::new(100, 100);
    r.set_shading(Shading::Gouraud);
    r.draw_model(Model::parse(away.as_bytes()));
    assert_eq!(r.image.get_pixel(50, 50), RgbaColor::new(63, 63, 63, 255));
}

#[test]
fn faces_are_drawn_in_order_with_the_depth_test() {
    // Two faces over the same pixels; the second is deeper.
    let text = "v -0.8 -0.8 -0.5\nv 0.8 -0.8 -0.5\nv 0 0.8 -0.5\n\
                v -0.8 -0.8 0.5\nv 0.8 -0.8 0.5\nv 0 0.8 0.5\n\
                vt 0 0\nvn 0 0 -1\nvn 0 0 -0.5\n\
                f 1/1/1 2/1/1 3/1/1\nf 4/1/2 5/1/2 6/1/2\n";
    let mut r = Renderer::new(50, 50);
    r.set_shading(Shading::Gouraud);
    r.draw_model(Model::parse(text.as_bytes()));
    assert_eq!(r.image.get_pixel(25, 25), RgbaColor::new(127, 127, 127, 255));
    assert_eq!(r.zbuffer[25 + 50 * 25], Some(191 * 65536));

    let swapped = text.replace("f 1/1/1 2/1/1 3/1/1\nf 4/1/2 5/1/2 6/1/2\n", "f 4/1/2 5/1/2 6/1/2\nf 1/1/1 2/1/1 3/1/1\n");
    let mut s = Renderer::new(50, 50);
    s.set_shading(Shading::Gouraud);
    s.draw_model(Model::parse(swapped.as_bytes()));
    assert_eq!(s.image.pixels, r.image.pixels);
}
