use photoviewer::single::Single;
use photoviewer::sizing::{fit_80_dims, fit_dims, fit_window_to_aspect, is_placeable, Monitor};

/// The size in floating point.
fn in_floats(aspect: f32, mon_w: u32, mon_h: u32, mon_x: i32, mon_y: i32) -> (u32, u32, i32, i32) {
    let box_w = mon_w as f32 * 0.8;
    let box_h = mon_h as f32 * 0.8;
    let (w, h) = if box_w / box_h > aspect {
        (box_h * aspect, box_h)
    } else {
        (box_w, box_w / aspect)
    };
    let w = (w.round() as u32).max(1);
    let h = (h.round() as u32).max(1);
    let x = mon_x + (mon_w as i32 - w as i32) / 2;
    let y = mon_y + (mon_h as i32 - h as i32) / 2;
    (w, h, x, y)
}

fn fitted_in_floats(w: u32, h: u32, max: u32) -> Option<(u32, u32)> {
    if w <= max && h <= max {
        return None;
    }
    let scale = (max as f32 / w as f32).min(max as f32 / h as f32);
    Some((((w as f32 * scale).round() as u32).max(1), ((h as f32 * scale).round() as u32).max(1)))
}

/// A row of numbers without a pattern.
fn next(seed: &mut u64) -> u32 {
    *seed = seed.wrapping_mul(6364136223846793005).wrapping_add(1442695040888963407);
    (*seed >> 33) as u32
}

#[test]
fn landscape_image_in_landscape_monitor_is_width_limited() {
    // 1000x1000 monitor, 0.8 box = 800x800. aspect 2.0 (wide) → width-limited: 800x400.
    let (w, h, x, y) = fit_80_dims(2, 1, 1000, 1000, 0, 0);
    assert_eq!((w, h), (800, 400));
    assert_eq!((x, y), ((1000 - 800) / 2, (1000 - 400) / 2)); // (100, 300)
}

#[test]
fn portrait_image_is_height_limited() {
    // box 800x800, aspect 0.5 (tall) → height-limited: 400x800.
    let (w, h, _, _) = fit_80_dims(1, 2, 1000, 1000, 0, 0);
    assert_eq!((w, h), (400, 800));
}

#[test]
fn centering_adds_monitor_offset_and_stays_signed() {
    // Monitor to the left of primary (negative x).
    let (w, _h, x, _y) = fit_80_dims(1, 1, 1000, 1000, -1920, 0);
    assert_eq!(w, 800);
    assert_eq!(x, -1920 + (1000 - 800) / 2); // -1820
}

#[test]
fn window_matches_floating_point() {
    let mut seed: u64 = 1;
    for round in 0..20000 {
        let limit: u32 = if round % 2 == 0 { 5000 } else { 100000 };
        let aw = next(&mut seed) % limit;
        let ah = next(&mut seed) % limit + 1;
        let mw = next(&mut seed) % 8000;
        let mh = next(&mut seed) % 5000;
        let x = (next(&mut seed) % 10000) as i32 - 5000;
        let y = (next(&mut seed) % 10000) as i32 - 5000;
        let aspect = aw as f32 / ah as f32;
        assert_eq!(
            fit_80_dims(aw, ah, mw, mh, x, y),
            in_floats(aspect, mw, mh, x, y),
            "{aw}/{ah} on {mw}x{mh}"
        );
    }
}

#[test]
fn window_without_a_monitor_area_is_one_pixel() {
    assert_eq!(fit_80_dims(3, 2, 0, 0, 7, 9), (1, 1, 7, 9));
    assert_eq!(fit_80_dims(3, 2, 0, 500, 7, 9), in_floats(1.5, 0, 500, 7, 9));
    assert_eq!(fit_80_dims(3, 2, 500, 0, 7, 9), in_floats(1.5, 500, 0, 7, 9));
    assert_eq!(fit_80_dims(0, 2, 500, 400, 7, 9), in_floats(0.0, 500, 400, 7, 9));
}

#[test]
fn window_stays_on_the_monitor_and_takes_four_fifths() {
    let mut seed: u64 = 5;
    for _ in 0..5000 {
        let aw = next(&mut seed) % 9000 + 1;
        let ah = next(&mut seed) % 9000 + 1;
        let mw = next(&mut seed) % 8000 + 1;
        let mh = next(&mut seed) % 5000 + 1;
        let (w, h, x, y) = fit_80_dims(aw, ah, mw, mh, -100, 50);
        assert!(x >= -100 && x + w as i32 <= -100 + mw as i32);
        assert!(y >= 50 && y + h as i32 <= 50 + mh as i32);
        assert!(5 * w <= 4 * mw + 3 && 5 * h <= 4 * mh + 3);
        assert!(5 * w + 2 >= 4 * mw || 5 * h + 2 >= 4 * mh);
        if w > 1 && h > 1 {
            let crosswise = w as i64 * ah as i64 - h as i64 * aw as i64;
            assert!(crosswise.abs() < aw as i64 + ah as i64);
        }
    }
}

#[test]
fn window_is_left_alone_where_it_must_be() {
    let monitor = Some(Monitor { w: 1000, h: 1000, x: 0, y: 0 });
    assert_eq!(fit_window_to_aspect(monitor, false, 2, 1, false), Some((800, 400, 100, 300)));
    assert_eq!(fit_window_to_aspect(monitor, false, 2, 1, true), None);
    assert_eq!(fit_window_to_aspect(monitor, true, 2, 1, false), None);
    assert_eq!(fit_window_to_aspect(monitor, false, 2, 0, false), None);
    assert_eq!(fit_window_to_aspect(None, false, 2, 1, false), None);
}

#[test]
fn windows_are_placeable_within_the_coordinates() {
    let most = i32::MAX as u32;
    let on = |w: u32, h: u32, x: i32, y: i32| Monitor { w, h, x, y };
    assert!(is_placeable(2, 1, on(1000, 1000, -1920, 0)));
    assert!(is_placeable(2, 1, on(most, 1000, 0, 0)));
    assert!(!is_placeable(2, 1, on(most + 1, 1000, 0, 0)));
    assert!(!is_placeable(2, 1, on(1000, most + 1, 0, 0)));
    // The corner itself has to be within reach, not the far end of the monitor.
    assert!(is_placeable(1, 1, on(1000, 1000, i32::MAX - 100, 0)));
    assert!(!is_placeable(1, 1, on(1000, 1000, i32::MAX - 99, 0)));
    assert!(!is_placeable(1, 1, on(1000, 1000, 0, i32::MAX - 99)));
    // A window wider than its monitor starts before it.
    assert!(is_placeable(1, 1, on(0, 0, i32::MIN, i32::MIN)));
}

#[test]
fn a_very_narrow_window_is_one_pixel() {
    // An exact width of 0.4 or less is raised to one pixel.
    assert_eq!(fit_80_dims(1, 2000, 1000, 1000, 0, 0), (1, 800, 499, 100));
    assert_eq!(fit_80_dims(1, 10_000, 1000, 1000, 0, 0), (1, 800, 499, 100));
    assert_eq!(fit_80_dims(10_000, 1, 1000, 1000, 0, 0), (800, 1, 100, 499));
    // One of 1.6 is rounded to two.
    assert_eq!(fit_80_dims(1, 500, 1000, 1000, 0, 0), (2, 800, 499, 100));
}

#[test]
fn fitted_size_of_known_images() {
    assert_eq!(fit_dims(100, 50, 40), Some((40, 20)));
    assert_eq!(fit_dims(30, 20, 40), None);
    assert_eq!(fit_dims(40, 40, 40), None);
    assert_eq!(fit_dims(6000, 4000, 4096), Some((4096, 2731)));
    assert_eq!(fit_dims(4000, 6000, 4096), Some((2731, 4096)));
    assert_eq!(fit_dims(10000, 1, 4096), Some((4096, 1)));
    assert_eq!(fit_dims(10000, 0, 4096), fitted_in_floats(10000, 0, 4096));
    assert_eq!(fit_dims(0, 10000, 4096), fitted_in_floats(0, 10000, 4096));
    assert_eq!(fit_dims(5, 7, 0), Some((1, 1)));
    assert_eq!(fit_dims(0, 0, 0), None);
}

#[test]
fn fitted_size_matches_floating_point() {
    let mut seed: u64 = 3;
    for round in 0..20000 {
        let limit: u32 = [300, 70000, 1 << 24][round % 3];
        let w = next(&mut seed) % limit;
        let h = next(&mut seed) % limit;
        let max = next(&mut seed) % 9000 + 1;
        assert_eq!(fit_dims(w, h, max), fitted_in_floats(w, h, max), "{w}x{h} within {max}");
    }
}

#[test]
fn fitted_size_shrinks_and_uses_up_the_limit() {
    let mut seed: u64 = 4;
    for _ in 0..5000 {
        let w = next(&mut seed) % 60000 + 1;
        let h = next(&mut seed) % 60000 + 1;
        let max = next(&mut seed) % 5000 + 1;
        if let Some((nw, nh)) = fit_dims(w, h, max) {
            assert!(1 <= nw && nw <= max && nw <= w);
            assert!(1 <= nh && nh <= max && nh <= h);
            if w >= h {
                assert_eq!(nw, max);
                assert!((nh as i64 * w as i64 - h as i64 * max as i64).abs() < w as i64);
            } else {
                assert_eq!(nh, max);
                assert!((nw as i64 * h as i64 - w as i64 * max as i64).abs() < h as i64);
            }
        } else {
            assert!(w <= max && h <= max);
        }
    }
}

#[test]
fn huge_images_are_not_enlarged() {
    let max: u32 = 4_000_000_000;
    let (nw, nh) = fit_dims(4_100_000_000, 4_100_000_000, max).unwrap();
    assert!(nw <= max && nh <= max);
    let (nw, nh) = fit_dims(u32::MAX, 16_777_217, 16_777_217).unwrap();
    assert!(nw <= 16_777_217 && nh <= 16_777_217);
}

#[test]
fn limit_is_used_up_while_halves_can_be_told_apart() {
    let max: u32 = (1 << 23) - 1;
    let mut seed: u64 = 6;
    for _ in 0..20000 {
        let side = max + 1 + next(&mut seed) % (1 << 30);
        assert_eq!(fit_dims(side, side, max), Some((max, max)));
    }
    // Beyond that the last pixel can be lost.
    assert_eq!(fit_dims(2_187_098_234, 2_187_098_234, 8_624_262), Some((8_624_261, 8_624_261)));
}

fn as_float(s: Single) -> f32 {
    s.mantissa as f32 * 2.0f32.powi(s.exponent)
}

#[test]
fn single_precision_matches_the_machine() {
    let mut seed: u64 = 2;
    let mut numbers: Vec<u32> = vec![0, 1, 2, 3, 0xff_ffff, 0x100_0000, 0x100_0001, 0x100_0003, u32::MAX];
    for _ in 0..60 {
        let bits = next(&mut seed) % 31 + 1;
        numbers.push(next(&mut seed) % (1 << bits));
    }
    for &a in &numbers {
        let sa = Single::from_u32(a);
        assert_eq!(as_float(sa), a as f32);
        assert_eq!(sa.round_to_u32(), (a as f32).round() as u32);
        for &b in &numbers {
            let sb = Single::from_u32(b);
            assert_eq!(sa.is_below(sb), (a as f32) < (b as f32));
            assert_eq!(as_float(sa.times(sb)), a as f32 * b as f32);
            if b != 0 {
                let q = sa.over(sb);
                assert_eq!(as_float(q), a as f32 / b as f32);
                assert_eq!(q.round_to_u32(), (a as f32 / b as f32).round() as u32);
            }
        }
    }
}

#[test]
fn fitting_treats_both_sides_alike() {
    let mut seed: u64 = 7;
    for _ in 0..5000 {
        let w = next(&mut seed) >> (next(&mut seed) % 31);
        let h = next(&mut seed) >> (next(&mut seed) % 31);
        let max = next(&mut seed) >> (next(&mut seed) % 31);
        assert_eq!(fit_dims(h, w, max), fit_dims(w, h, max).map(|(nw, nh)| (nh, nw)), "{w}x{h} within {max}");
    }
}
