use image::imageops::{flip_horizontal, flip_vertical, rotate180, rotate270, rotate90};
use image::{Rgb, RgbImage, Rgba, RgbaImage};
use photoviewer::decode::{
    decode_to_rgba8, display_decoded, display_image, downscale_rgb_to_fit, downscale_to_fit, orientation_from_bytes,
    orientation_from_value, read_orientation, DecodeError,
};
use photoviewer::raster::{add_alpha, apply_orientation, display_dimensions, rotate_turns, Raster, Symmetry};
use photoviewer::sizing::fit_dims;
use std::io::Cursor;
use std::sync::Arc;

fn raster(img: &RgbaImage) -> Raster {
    Raster::new(img.width(), img.height(), 4, img.as_raw().clone()).unwrap()
}

fn raster_rgb(img: &RgbImage) -> Raster {
    Raster::new(img.width(), img.height(), 3, img.as_raw().clone()).unwrap()
}

fn dimensions(img: &Raster) -> (u32, u32) {
    (img.width(), img.height())
}

fn pixel(img: &Raster, x: u32, y: u32) -> &[u8] {
    let c = img.channels() as usize;
    let at = (y as usize * img.width() as usize + x as usize) * c;
    &img.data()[at..at + c]
}

fn png_of(img: &RgbaImage) -> Vec<u8> {
    let mut bytes = Vec::new();
    img.write_to(&mut Cursor::new(&mut bytes), image::ImageFormat::Png).unwrap();
    bytes
}

fn png_of_rgb(img: &RgbImage) -> Vec<u8> {
    let mut bytes = Vec::new();
    img.write_to(&mut Cursor::new(&mut bytes), image::ImageFormat::Png).unwrap();
    bytes
}

/// The header of an EXIF block with an orientation.
fn exif_block(orientation: u16) -> Vec<u8> {
    let mut tiff = vec![b'M', b'M', 0, 42, 0, 0, 0, 8, 0, 1, 0x01, 0x12, 0, 3, 0, 0, 0, 1];
    tiff.extend_from_slice(&orientation.to_be_bytes());
    tiff.extend_from_slice(&[0, 0, 0, 0, 0, 0]);
    tiff
}

fn crc32(data: &[u8]) -> u32 {
    let mut crc = u32::MAX;
    for &byte in data {
        crc ^= byte as u32;
        for _ in 0..8 {
            crc = if crc & 1 == 1 { (crc >> 1) ^ 0xedb8_8320 } else { crc >> 1 };
        }
    }
    !crc
}

/// A PNG with an EXIF block behind its header.
fn with_exif(png: &[u8], orientation: u16) -> Vec<u8> {
    let block = exif_block(orientation);
    let header_end = 8 + 4 + 4 + 13 + 4;
    let mut named = b"eXIf".to_vec();
    named.extend_from_slice(&block);
    let mut out = png[..header_end].to_vec();
    out.extend_from_slice(&(block.len() as u32).to_be_bytes());
    out.extend_from_slice(&named);
    out.extend_from_slice(&crc32(&named).to_be_bytes());
    out.extend_from_slice(&png[header_end..]);
    out
}

fn two_px() -> RgbaImage {
    // width 2, height 1: left RED, right BLUE
    let mut img = RgbaImage::new(2, 1);
    img.put_pixel(0, 0, Rgba([255, 0, 0, 255]));
    img.put_pixel(1, 0, Rgba([0, 0, 255, 255]));
    img
}

fn numbered(w: u32, h: u32) -> RgbaImage {
    let mut img = RgbaImage::new(w, h);
    for (x, y, px) in img.enumerate_pixels_mut() {
        *px = Rgba([x as u8, y as u8, (x * 31 + y * 7) as u8, (200 + x + y) as u8]);
    }
    img
}

#[test]
fn orientation_1_is_identity() {
    let out = apply_orientation(raster(&two_px()), 1);
    assert_eq!(dimensions(&out), (2, 1));
    assert_eq!(pixel(&out, 0, 0), [255, 0, 0, 255]);
    assert_eq!(pixel(&out, 1, 0), [0, 0, 255, 255]);
}

#[test]
fn orientation_2_mirrors_horizontally() {
    let out = apply_orientation(raster(&two_px()), 2);
    assert_eq!(dimensions(&out), (2, 1));
    assert_eq!(pixel(&out, 0, 0), [0, 0, 255, 255]);
    assert_eq!(pixel(&out, 1, 0), [255, 0, 0, 255]);
}

#[test]
fn orientation_3_rotates_180() {
    let out = apply_orientation(raster(&two_px()), 3);
    assert_eq!(dimensions(&out), (2, 1));
    assert_eq!(pixel(&out, 0, 0), [0, 0, 255, 255]);
    assert_eq!(pixel(&out, 1, 0), [255, 0, 0, 255]);
}

#[test]
fn rotating_orientations_swap_dimensions() {
    for o in [5u16, 6, 7, 8] {
        let out = apply_orientation(raster(&two_px()), o);
        assert_eq!(dimensions(&out), (1, 2), "orientation {o} should swap W/H");
    }
}

#[test]
fn orientations_match_the_image_crate() {
    let img = numbered(5, 3);
    let expected = [
        (0, img.clone()),
        (1, img.clone()),
        (2, flip_horizontal(&img)),
        (3, rotate180(&img)),
        (4, flip_vertical(&img)),
        (5, rotate270(&flip_horizontal(&img))),
        (6, rotate90(&img)),
        (7, rotate90(&flip_horizontal(&img))),
        (8, rotate270(&img)),
        (9, img.clone()),
    ];
    for (o, want) in expected {
        assert_eq!(apply_orientation(raster(&img), o), raster(&want), "orientation {o}");
    }
}

#[test]
fn orientations_undo_each_other() {
    for (o, back) in [(1u16, 1u16), (2, 2), (3, 3), (4, 4), (5, 5), (6, 8), (7, 7), (8, 6)] {
        let img = raster(&numbered(4, 3));
        let out = apply_orientation(apply_orientation(raster(&numbered(4, 3)), o), back);
        assert_eq!(out, img);
    }
}

#[test]
fn symmetries_compose() {
    let img = raster(&numbered(4, 3));
    let flip = Symmetry { swap: false, flip_x: true, flip_y: false };
    let quarter = Symmetry { swap: true, flip_x: false, flip_y: true };
    let transposed = Symmetry { swap: true, flip_x: true, flip_y: true };
    assert_eq!(img.transform(flip).transform(quarter), img.transform(transposed));
    assert_eq!(img.transform(flip).transform(flip), img);
}

#[test]
fn rotate_turns_one_swaps_dimensions() {
    let mut img = RgbaImage::new(2, 1);
    img.put_pixel(0, 0, Rgba([1, 2, 3, 255]));
    let base = Arc::new(raster(&img));
    assert_eq!(dimensions(&rotate_turns(&base, 0)), (2, 1));
    assert_eq!(dimensions(&rotate_turns(&base, 1)), (1, 2));
    assert_eq!(dimensions(&rotate_turns(&base, 2)), (2, 1));
    assert_eq!(dimensions(&rotate_turns(&base, 3)), (1, 2));
    // 0 turns shares the base Arc (no deep copy).
    assert!(Arc::ptr_eq(&rotate_turns(&base, 0), &base));
    // matches image::imageops::rotate90 directly.
    assert_eq!(
        dimensions(&rotate_turns(&base, 1)),
        image::imageops::rotate90(&img).dimensions()
    );
}

#[test]
fn turns_match_the_image_crate_and_add_up() {
    let img = numbered(3, 4);
    let base = Arc::new(raster(&img));
    assert_eq!(*rotate_turns(&base, 1), raster(&image::imageops::rotate90(&img)));
    assert_eq!(*rotate_turns(&base, 2), raster(&image::imageops::rotate180(&img)));
    assert_eq!(*rotate_turns(&base, -1), raster(&image::imageops::rotate270(&img)));
    for a in -5..6 {
        for b in -5..6 {
            assert_eq!(rotate_turns(&rotate_turns(&base, a), b), rotate_turns(&base, a + b));
        }
        assert_eq!(rotate_turns(&base, a), rotate_turns(&base, a + 4));
    }
    assert_eq!(*rotate_turns(&base, i32::MIN), *base);
    assert_eq!(rotate_turns(&base, i32::MAX), rotate_turns(&base, 3));
}

#[test]
fn buffers_match_their_dimensions() {
    assert!(Raster::new(2, 2, 4, vec![0; 16]).is_some());
    assert!(Raster::new(2, 2, 4, vec![0; 15]).is_none());
    assert!(Raster::new(2, 2, 4, vec![0; 17]).is_none());
    assert!(Raster::new(2, 2, 0, vec![]).is_none());
    assert!(Raster::new(0, 9, 3, vec![]).is_some());
    assert!(Raster::new(u32::MAX, u32::MAX, 255, vec![]).is_none());
    let img = Raster::new(1, 1, 3, vec![7, 8, 9]).unwrap();
    assert_eq!(img.into_data(), vec![7, 8, 9]);
}

#[test]
fn alpha_is_added_as_the_image_crate_adds_it() {
    let mut img = RgbImage::new(3, 2);
    for (x, y, px) in img.enumerate_pixels_mut() {
        *px = Rgb([x as u8 * 9, y as u8 * 50, 77]);
    }
    let expected = image::DynamicImage::ImageRgb8(img.clone()).into_rgba8();
    assert_eq!(add_alpha(&raster_rgb(&img)).unwrap(), raster(&expected));
}

#[test]
fn decode_roundtrip_via_temp_png() {
    let mut src = RgbaImage::new(3, 2);
    src.put_pixel(0, 0, Rgba([10, 20, 30, 255]));

    let rgba = decode_to_rgba8(&png_of(&src)).unwrap();
    assert_eq!(dimensions(&rgba), (3, 2));
    assert_eq!(pixel(&rgba, 0, 0), [10, 20, 30, 255]);
    assert_eq!(rgba, raster(&src));
}

#[test]
fn other_formats_and_colors_decode_to_rgba() {
    let mut gray = image::GrayImage::new(2, 1);
    gray.put_pixel(1, 0, image::Luma([90]));
    for format in [image::ImageFormat::Png, image::ImageFormat::Jpeg, image::ImageFormat::WebP] {
        let mut bytes = Vec::new();
        let result = image::DynamicImage::ImageRgb8(RgbImage::from_pixel(4, 3, Rgb([200, 10, 60])))
            .write_to(&mut Cursor::new(&mut bytes), format);
        assert!(result.is_ok());
        let img = decode_to_rgba8(&bytes).unwrap();
        assert_eq!(dimensions(&img), (4, 3));
        assert_eq!(img.channels(), 4);
        assert_eq!(pixel(&img, 3, 2)[3], 255);
    }
    let mut bytes = Vec::new();
    gray.write_to(&mut Cursor::new(&mut bytes), image::ImageFormat::Png).unwrap();
    let img = decode_to_rgba8(&bytes).unwrap();
    assert_eq!(pixel(&img, 1, 0), [90, 90, 90, 255]);
}

#[test]
fn bytes_that_are_no_image_are_an_error() {
    assert!(matches!(decode_to_rgba8(b"no image at all"), Err(DecodeError::Image(_))));
    assert!(matches!(decode_to_rgba8(&[]), Err(DecodeError::Image(_))));
    assert!(matches!(display_image(b"no image at all", 40), Err(DecodeError::Image(_))));
    let png = png_of(&RgbaImage::new(9, 9));
    assert!(matches!(display_image(&png[..png.len() / 2], 40), Err(DecodeError::Image(_))));
}

#[test]
fn read_orientation_is_none_without_exif() {
    let png = png_of(&RgbaImage::new(2, 2));
    assert_eq!(read_orientation(Some(&png)), None);
    assert_eq!(read_orientation(None), None);
}

#[test]
fn orientation_is_read_from_exif() {
    for o in 1..=8u16 {
        assert_eq!(orientation_from_bytes(&exif_block(o)), Some(o));
        let png = with_exif(&png_of(&RgbaImage::new(2, 2)), o);
        assert_eq!(read_orientation(Some(&png)), Some(o));
    }
    assert_eq!(orientation_from_bytes(&exif_block(0)), None);
    assert_eq!(orientation_from_bytes(&exif_block(9)), None);
    assert_eq!(orientation_from_bytes(b"no image at all"), None);
}

#[test]
fn only_one_to_eight_are_orientations() {
    assert_eq!(orientation_from_value(None), None);
    assert_eq!(orientation_from_value(Some(0)), None);
    assert_eq!(orientation_from_value(Some(1)), Some(1));
    assert_eq!(orientation_from_value(Some(8)), Some(8));
    assert_eq!(orientation_from_value(Some(9)), None);
    assert_eq!(orientation_from_value(Some(65537)), None);
}

#[test]
fn downscale_fits_within_max_and_leaves_small_alone() {
    let big = raster(&RgbaImage::new(100, 50));
    let out = downscale_to_fit(big, 40);
    assert!(out.width() <= 40 && out.height() <= 40);
    assert_eq!(out.width(), 40);

    let small = raster(&RgbaImage::new(30, 20));
    let out2 = downscale_to_fit(small, 40);
    assert_eq!(dimensions(&out2), (30, 20));
}

#[test]
fn downscaling_keeps_an_even_color() {
    let rgba = raster(&RgbaImage::from_pixel(100, 50, Rgba([10, 200, 30, 255])));
    let out = downscale_to_fit(rgba, 40);
    assert_eq!(dimensions(&out), (40, 20));
    for y in 0..20 {
        for x in 0..40 {
            assert_eq!(pixel(&out, x, y), [10, 200, 30, 255]);
        }
    }
    let rgb = raster_rgb(&RgbImage::from_pixel(50, 100, Rgb([10, 200, 30])));
    let out = downscale_rgb_to_fit(rgb, 40);
    assert_eq!(dimensions(&out), (20, 40));
    for y in 0..40 {
        for x in 0..20 {
            assert_eq!(pixel(&out, x, y), [10, 200, 30]);
        }
    }
    let small = raster_rgb(&RgbImage::from_pixel(5, 10, Rgb([1, 2, 3])));
    assert_eq!(downscale_rgb_to_fit(small, 40), raster_rgb(&RgbImage::from_pixel(5, 10, Rgb([1, 2, 3]))));
}

#[test]
fn downscaling_averages_neighbors() {
    let mut img = RgbaImage::new(64, 2);
    for (x, _, px) in img.enumerate_pixels_mut() {
        let v = if x < 32 { 0 } else { 240 };
        *px = Rgba([v, v, v, 255]);
    }
    let out = downscale_to_fit(raster(&img), 8);
    assert_eq!(dimensions(&out), (8, 1));
    assert!(pixel(&out, 0, 0)[0] < 30);
    assert!(pixel(&out, 7, 0)[0] > 200);
}

#[test]
fn images_without_pixels_become_blank() {
    let out = downscale_to_fit(Raster::new(0, 100, 4, Vec::new()).unwrap(), 40);
    assert_eq!(dimensions(&out), (1, 40));
    assert!(out.data().iter().all(|&b| b == 0));
    let out = downscale_rgb_to_fit(Raster::new(100, 0, 3, Vec::new()).unwrap(), 40);
    assert_eq!(dimensions(&out), (40, 1));
    assert!(out.data().iter().all(|&b| b == 0));
    let shown = display_decoded(Raster::new(0, 100, 3, Vec::new()).unwrap(), None, 40).unwrap();
    assert_eq!(dimensions(&shown), (1, 40));
    assert_eq!(pixel(&shown, 0, 39), [0, 0, 0, 255]);
}

#[test]
fn display_image_decodes_and_downscales() {
    let out = display_image(&png_of(&RgbaImage::new(100, 50)), 40).unwrap();
    assert!(out.width() <= 40 && out.height() <= 40);
    assert_eq!(out.width(), 40); // limiting side hits max
}

#[test]
fn display_image_applies_the_orientation() {
    let mut img = RgbaImage::new(2, 1);
    img.put_pixel(0, 0, Rgba([255, 0, 0, 255]));
    img.put_pixel(1, 0, Rgba([0, 0, 255, 255]));
    let out = display_image(&with_exif(&png_of(&img), 6), 40).unwrap();
    assert_eq!(dimensions(&out), (1, 2));
    assert_eq!(pixel(&out, 0, 0), [255, 0, 0, 255]);
    assert_eq!(pixel(&out, 0, 1), [0, 0, 255, 255]);
    let out = display_image(&with_exif(&png_of(&img), 8), 40).unwrap();
    assert_eq!(pixel(&out, 0, 0), [0, 0, 255, 255]);
    let out = display_image(&with_exif(&png_of(&RgbaImage::new(100, 50)), 6), 40).unwrap();
    assert_eq!(dimensions(&out), (20, 40));
}

#[test]
fn small_images_keep_their_pixels() {
    let img = numbered(7, 5);
    for o in 0..=9u16 {
        let shown = display_decoded(raster(&img), Some(o), 7).unwrap();
        assert_eq!(shown, apply_orientation(raster(&img), o));
    }
    let rgb = RgbImage::from_fn(7, 5, |x, y| Rgb([x as u8, y as u8, 9]));
    for o in 1..=8u16 {
        let late = display_decoded(raster_rgb(&rgb), Some(o), 7).unwrap();
        let early = apply_orientation(add_alpha(&raster_rgb(&rgb)).unwrap(), o);
        assert_eq!(late, early);
    }
}

#[test]
fn display_dimensions_reads_header_without_exif_swap_for_orientation_1() {
    let png = png_of(&RgbaImage::new(40, 20)); // no EXIF → orientation 1
    let header = image::ImageReader::new(Cursor::new(png.as_slice()))
        .with_guessed_format()
        .unwrap()
        .into_dimensions()
        .ok();
    assert_eq!(display_dimensions(header, read_orientation(Some(&png))), Some((40, 20)));
}

#[test]
fn display_dimensions_is_none_for_missing_file() {
    let header = image::image_dimensions("/no/such/file.jpg").ok();
    assert_eq!(display_dimensions(header, read_orientation(None)), None);
}

#[test]
fn display_dimensions_swap_for_quarter_turns() {
    for o in 0..=9u16 {
        let expected = if (5..=8).contains(&o) { (20, 40) } else { (40, 20) };
        assert_eq!(display_dimensions(Some((40, 20)), Some(o)), Some(expected));
        let img = raster(&RgbaImage::new(40, 20));
        assert_eq!(dimensions(&apply_orientation(img, o)), expected);
    }
    assert_eq!(display_dimensions(Some((40, 20)), None), Some((40, 20)));
    assert_eq!(display_dimensions(None, Some(6)), None);
}

#[test]
fn display_image_rgb_path_matches_naive_and_fits_cap() {
    // An RGB (no-alpha) PNG decodes to DynamicImage::ImageRgb8 → exercises the deferred path.
    let mut src = RgbImage::new(100, 50);
    for (x, _y, px) in src.enumerate_pixels_mut() {
        *px = Rgb([(x % 256) as u8, 20, 200]); // some horizontal gradient
    }
    let png = png_of_rgb(&src);

    // Reference: the naive path (decode → rgba8 → downscale).
    let naive = downscale_to_fit(decode_to_rgba8(&png).unwrap(), 40);
    let got = display_image(&png, 40).unwrap();

    assert!(got.width() <= 40 && got.height() <= 40);
    assert_eq!(dimensions(&got), dimensions(&naive));
    // Per-channel equality within rounding tolerance (Lanczos on RGB vs RGBA).
    for (a, b) in got.data().chunks(4).zip(naive.data().chunks(4)) {
        for c in 0..4 {
            assert!((a[c] as i16 - b[c] as i16).abs() <= 1, "channel {c} differs");
        }
    }
    // Opaque alpha preserved.
    assert_eq!(pixel(&got, 0, 0)[3], 255);
}

#[test]
fn displayed_size_is_the_fitted_upright_size() {
    for (w, h) in [(100, 50), (30, 20), (0, 0), (70, 0)] {
        for orientation in 1..=8 {
            let img = Raster::new(w, h, 4, vec![9; (w * h * 4) as usize]).unwrap();
            let (up_w, up_h) = if orientation >= 5 { (h, w) } else { (w, h) };
            let shown = display_decoded(img, Some(orientation), 40).unwrap();
            assert_eq!(dimensions(&shown), fit_dims(up_w, up_h, 40).unwrap_or((up_w, up_h)));
        }
    }
}

#[test]
fn files_without_alpha_are_opaque_in_any_color() {
    let gray = image::GrayImage::from_fn(90, 50, |x, y| image::Luma([(x * 2 + y) as u8]));
    let gray16 = image::ImageBuffer::from_fn(90, 50, |x, y| image::Luma([(x * 700 + y) as u16]));
    let rgb16 = image::ImageBuffer::from_fn(90, 50, |x, y| Rgb([x as u16 * 700, y as u16, 9]));
    let rgb = RgbImage::from_fn(90, 50, |x, y| Rgb([x as u8, y as u8, 9]));
    for img in [
        image::DynamicImage::ImageLuma8(gray),
        image::DynamicImage::ImageLuma16(gray16),
        image::DynamicImage::ImageRgb16(rgb16),
        image::DynamicImage::ImageRgb8(rgb),
    ] {
        let mut bytes = Vec::new();
        img.write_to(&mut Cursor::new(&mut bytes), image::ImageFormat::Png).unwrap();
        let whole = decode_to_rgba8(&bytes).unwrap();
        assert!(whole.data().chunks(4).all(|p| p[3] == 255));
        // Turned, scaled down a little, and down to an eighth.
        for (orientation, max) in [(1, 90), (6, 90), (1, 89), (8, 40), (3, 12)] {
            let shown = display_image(&with_exif(&bytes, orientation), max).unwrap();
            assert!(shown.data().chunks(4).all(|p| p[3] == 255), "{orientation} within {max}");
        }
    }
}

#[test]
fn opaque_pixels_stay_opaque_down_to_an_eighth() {
    for (w, h, max) in [(800, 600, 100), (800, 8, 100), (1, 512, 64), (333, 211, 42), (17, 16, 16), (4096, 3, 512)] {
        let img = Raster::new(w, h, 4, vec![255; (w * h * 4) as usize]).unwrap();
        let small = downscale_to_fit(img, max);
        assert!(small.width() <= max && small.height() <= max);
        assert!(small.data().chunks(4).all(|p| p[3] == 255), "{w}x{h} within {max}");
    }
}
