use rasterizer::codec::TgaError;
use rasterizer::tga::{RgbaColor, TgaImage, TgaPixel};

fn header(kind: u8, width: u16, height: u16) -> Vec<u8> {
    let mut h = vec![0, 0, kind, 0, 0, 0, 0, 0, 0, 0, 0, 0];
    h.push((width & 0xff) as u8);
    h.push((width >> 8) as u8);
    h.push((height & 0xff) as u8);
    h.push((height >> 8) as u8);
    h.push(24);
    h.push(0);
    h
}

fn error_of(data: &[u8]) -> TgaError {
    match TgaImage::from_bytes(data) {
        Ok(_) => panic!("the bytes were accepted"),
        Err(e) => e,
    }
}

#[test]
fn written_bytes_are_header_then_blue_green_red() {
    let mut img = TgaImage::new(2, 1);
    img.set_pixel(0, 0, &RgbaColor::new(1, 2, 3, 255));
    img.set_pixel(1, 0, &RgbaColor::new(40, 50, 60, 7));
    let bytes = img.to_bytes();
    assert_eq!(
        bytes,
        vec![0, 0, 2, 0, 0, 0, 0, 0, 0, 0, 0, 0, 2, 0, 1, 0, 24, 0, 3, 2, 1, 60, 50, 40]
    );
}

#[test]
fn header_holds_the_size_low_byte_first() {
    let img = TgaImage::new(300, 2);
    let bytes = img.to_bytes();
    assert_eq!(bytes.len(), 18 + 3 * 600);
    assert_eq!(&bytes[12..16], &[44, 1, 2, 0]);
    assert_eq!(&bytes[16..18], &[24, 0]);
}

#[test]
fn round_trip_keeps_colors_and_makes_opaque() {
    let mut img = TgaImage::new(3, 2);
    let mut n: i32 = 0;
    for y in 0..2 {
        for x in 0..3 {
            img.set_pixel(x, y, &RgbaColor::new(10 * n, 255 - n, 3 * n + 1, 17 * n));
            n += 1;
        }
    }
    let back = TgaImage::from_bytes(&img.to_bytes()).unwrap();
    assert_eq!(back.width, 3);
    assert_eq!(back.height, 2);
    assert_eq!(back.pixels.len(), 6);
    for y in 0..2 {
        for x in 0..3 {
            let was = img.get_pixel(x, y);
            assert_eq!(back.get_pixel(x, y), RgbaColor::new(was.r, was.g, was.b, 255));
        }
    }
    assert_eq!(back.to_bytes(), img.to_bytes());
}

#[test]
fn round_trip_of_the_largest_width() {
    let mut img = TgaImage::new(65535, 1);
    img.set_pixel(65534, 0, &RgbaColor::new(9, 8, 7, 255));
    let back = TgaImage::from_bytes(&img.to_bytes()).unwrap();
    assert_eq!(back.width, 65535);
    assert_eq!(back.height, 1);
    assert_eq!(back.get_pixel(65534, 0), RgbaColor::new(9, 8, 7, 255));
    assert_eq!(back.get_pixel(0, 0), RgbaColor::new(0, 0, 0, 255));
}

#[test]
fn plain_pixels_are_read_row_by_row() {
    let mut data = header(2, 2, 2);
    data.extend_from_slice(&[1, 2, 3, 4, 5, 6, 7, 8, 9, 10, 11, 12]);
    let img = TgaImage::from_bytes(&data).unwrap();
    assert_eq!(img.get_pixel(0, 0), RgbaColor::new(3, 2, 1, 255));
    assert_eq!(img.get_pixel(1, 0), RgbaColor::new(6, 5, 4, 255));
    assert_eq!(img.get_pixel(0, 1), RgbaColor::new(9, 8, 7, 255));
    assert_eq!(img.get_pixel(1, 1), RgbaColor::new(12, 11, 10, 255));
}

#[test]
fn packets_are_runs_or_literals() {
    let mut data = header(10, 3, 2);
    // A run of four, then a literal packet of two.
    data.extend_from_slice(&[0x83, 10, 20, 30]);
    data.extend_from_slice(&[0x01, 1, 2, 3, 4, 5, 6]);
    let img = TgaImage::from_bytes(&data).unwrap();
    let run = TgaPixel { r: 30, g: 20, b: 10, a: 255 };
    assert_eq!(
        img.pixels,
        vec![
            run,
            run,
            run,
            run,
            TgaPixel { r: 3, g: 2, b: 1, a: 255 },
            TgaPixel { r: 6, g: 5, b: 4, a: 255 },
        ]
    );
    assert_eq!(img.get_pixel(0, 1), RgbaColor::new(30, 20, 10, 255));
}

#[test]
fn a_packet_beyond_the_last_pixel_is_cut_off() {
    let mut data = header(10, 2, 1);
    data.extend_from_slice(&[0xff, 9, 8, 7]);
    let img = TgaImage::from_bytes(&data).unwrap();
    assert_eq!(img.pixels.len(), 2);
    assert_eq!(img.get_pixel(1, 0), RgbaColor::new(7, 8, 9, 255));

    let mut literal = header(10, 1, 1);
    literal.extend_from_slice(&[0x01, 1, 2, 3, 4, 5, 6]);
    let img = TgaImage::from_bytes(&literal).unwrap();
    assert_eq!(img.pixels, vec![TgaPixel { r: 3, g: 2, b: 1, a: 255 }]);
}

#[test]
fn identification_is_skipped_and_trailing_bytes_ignored() {
    let mut data = header(2, 1, 1);
    data[0] = 3;
    data.extend_from_slice(&[b'a', b'b', b'c']);
    data.extend_from_slice(&[5, 6, 7]);
    data.extend_from_slice(&[99, 99]);
    let img = TgaImage::from_bytes(&data).unwrap();
    assert_eq!(img.get_pixel(0, 0), RgbaColor::new(7, 6, 5, 255));
}

#[test]
fn pixel_depth_and_descriptor_are_not_looked_at() {
    let mut data = header(2, 1, 1);
    data[16] = 32;
    data[17] = 8;
    data.extend_from_slice(&[5, 6, 7]);
    let img = TgaImage::from_bytes(&data).unwrap();
    assert_eq!(img.get_pixel(0, 0), RgbaColor::new(7, 6, 5, 255));
}

#[test]
fn short_header_is_truncated() {
    assert_eq!(error_of(&[]), TgaError::Truncated);
    assert_eq!(error_of(&header(2, 1, 1)[..17]), TgaError::Truncated);
}

#[test]
fn color_map_is_refused() {
    let mut data = header(2, 1, 1);
    data[1] = 1;
    data.extend_from_slice(&[5, 6, 7]);
    assert_eq!(error_of(&data), TgaError::ColorMapped);
    // The color map is looked at before anything else of the header.
    let mut odd = header(7, 0, 0);
    odd[1] = 1;
    assert_eq!(error_of(&odd), TgaError::ColorMapped);
}

#[test]
fn missing_identification_is_truncated() {
    let mut data = header(2, 1, 1);
    data[0] = 4;
    data.extend_from_slice(&[5, 6, 7]);
    assert_eq!(error_of(&data), TgaError::Truncated);
}

#[test]
fn zero_size_is_empty() {
    assert_eq!(error_of(&header(2, 0, 5)), TgaError::Empty);
    assert_eq!(error_of(&header(10, 5, 0)), TgaError::Empty);
    assert_eq!(error_of(&header(3, 0, 0)), TgaError::Empty);
}

#[test]
fn other_data_types_are_unsupported() {
    for kind in [0u8, 1, 3, 9, 11, 255] {
        let mut data = header(kind, 1, 1);
        data.extend_from_slice(&[5, 6, 7]);
        assert_eq!(error_of(&data), TgaError::Unsupported);
    }
}

#[test]
fn missing_pixels_are_truncated() {
    let mut plain = header(2, 2, 1);
    plain.extend_from_slice(&[1, 2, 3, 4, 5]);
    assert_eq!(error_of(&plain), TgaError::Truncated);

    let mut no_packet = header(10, 2, 1);
    no_packet.extend_from_slice(&[0x00, 1, 2, 3]);
    assert_eq!(error_of(&no_packet), TgaError::Truncated);

    let mut short_run = header(10, 2, 1);
    short_run.extend_from_slice(&[0x81, 1, 2]);
    assert_eq!(error_of(&short_run), TgaError::Truncated);

    let mut short_literal = header(10, 1, 1);
    short_literal.extend_from_slice(&[0x01, 1, 2, 3, 4, 5]);
    assert_eq!(error_of(&short_literal), TgaError::Truncated);
}
