use rasterizer::fixed::ONE;
use rasterizer::tga::{RgbaColor, TgaImage, TgaPixel, MAX_DIM};

#[test]
fn color_constructors() {
    let c = RgbaColor::new(1, -2, 300, 4);
    assert_eq!((c.r, c.g, c.b, c.a), (1, -2, 300, 4));
    let d = RgbaColor::new_from_u8(0, 128, 255, 7);
    assert_eq!(d, RgbaColor::new(0, 128, 255, 7));
}

#[test]
fn named_colors() {
    assert_eq!(RgbaColor::white(), RgbaColor::new(255, 255, 255, 255));
    assert_eq!(RgbaColor::black(), RgbaColor::new(0, 0, 0, 255));
    assert_eq!(RgbaColor::red(), RgbaColor::new(255, 0, 0, 255));
    assert_eq!(RgbaColor::green(), RgbaColor::new(0, 255, 0, 255));
    assert_eq!(RgbaColor::blue(), RgbaColor::new(0, 0, 255, 255));
    assert_eq!(RgbaColor::red() + RgbaColor::green() + RgbaColor::blue(), RgbaColor::white());
}

#[test]
fn clamp_brings_channels_into_range() {
    let mut c = RgbaColor::new(300, -5, 128, 256);
    let r = c.clamp();
    assert_eq!(r, RgbaColor::new(255, 0, 128, 255));
    assert_eq!(c, r);
    let mut edge = RgbaColor::new(0, 255, i32::MIN, i32::MAX);
    assert_eq!(edge.clamp(), RgbaColor::new(0, 255, 0, 255));
}

#[test]
fn color_times_factor() {
    let c = RgbaColor::new(200, 100, 50, 255);
    assert_eq!(c * (ONE as i64 / 2), RgbaColor::new(100, 50, 25, 255));
    assert_eq!(c * (2 * ONE as i64), RgbaColor::new(255, 200, 100, 255));
    assert_eq!(c * 0, RgbaColor::new(0, 0, 0, 255));
    assert_eq!(c * (-(ONE as i64)), RgbaColor::new(0, 0, 0, 255));
    // The product is rounded down: 3 * 0.5 = 1.5.
    assert_eq!(RgbaColor::new(3, 1, 0, 300) * (ONE as i64 / 2), RgbaColor::new(1, 0, 0, 255));
    assert_eq!(RgbaColor::new(1, 1, 1, 1) * i64::MAX, RgbaColor::new(255, 255, 255, 1));
}

#[test]
fn color_plus_color() {
    let c = RgbaColor::new(200, 100, 50, 40);
    let d = RgbaColor::new(100, 100, -60, 200);
    assert_eq!(c + d, RgbaColor::new(255, 200, 0, 40));
    assert_eq!(
        RgbaColor::new(i32::MAX, i32::MIN, 0, -1) + RgbaColor::new(i32::MAX, i32::MIN, 0, 9),
        RgbaColor::new(255, 0, 0, 0)
    );
}

#[test]
fn pixel_stores_clamped_color() {
    let mut p = TgaPixel::default();
    assert_eq!(p, TgaPixel { r: 0, g: 0, b: 0, a: 0 });
    p.set_color(&RgbaColor::new(12, 300, -1, 255));
    assert_eq!(p, TgaPixel { r: 12, g: 255, b: 0, a: 255 });
    assert_eq!(p.get_color(), RgbaColor::new(12, 255, 0, 255));
}

#[test]
fn new_image_is_blank() {
    let img = TgaImage::new(5, 3);
    assert_eq!(img.width, 5);
    assert_eq!(img.height, 3);
    assert_eq!(img.pixels.len(), 15);
    assert!(img.pixels.iter().all(|p| *p == TgaPixel::default()));
    assert_eq!(img.get_pixel(4, 2), RgbaColor::new(0, 0, 0, 0));
    assert_eq!(MAX_DIM, 65535);
}

#[test]
fn pixels_are_stored_row_by_row() {
    let mut img = TgaImage::new(3, 4);
    img.set_pixel(1, 2, &RgbaColor::new(1, 2, 3, 4));
    assert_eq!(img.position(1, 2), 7);
    assert_eq!(img.pixels[7], TgaPixel { r: 1, g: 2, b: 3, a: 4 });
    assert_eq!(img.get_pixel(1, 2), RgbaColor::new(1, 2, 3, 4));
    assert_eq!(img.pixels.iter().filter(|p| **p != TgaPixel::default()).count(), 1);
}

#[test]
fn wide_and_tall_images_keep_every_position_apart() {
    for (w, h) in [(7, 2), (2, 7)] {
        let mut img = TgaImage::new(w, h);
        for y in 0..h {
            for x in 0..w {
                img.set_pixel(x, y, &RgbaColor::new(x, y, 0, 255));
            }
        }
        for y in 0..h {
            for x in 0..w {
                assert_eq!(img.get_pixel(x, y), RgbaColor::new(x, y, 0, 255));
            }
        }
    }
}

#[test]
fn positions_outside_are_ignored() {
    let mut img = TgaImage::new(3, 2);
    let c = RgbaColor::new(9, 9, 9, 9);
    img.set_pixel(3, 0, &c);
    img.set_pixel(-1, 1, &c);
    img.set_pixel(0, 2, &c);
    img.set_pixel(0, -1, &c);
    img.set_pixel(i32::MAX, i32::MAX, &c);
    img.set_pixel(i32::MIN, i32::MIN, &c);
    assert!(img.pixels.iter().all(|p| *p == TgaPixel::default()));
}
