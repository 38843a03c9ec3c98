use window_switcher::binary32::Binary32;
use window_switcher::icon_scale::{
    desired_visible_size, is_topleft_icon, is_valid_icon, normalized_rect, normalized_scale,
};
use window_switcher::pixels::PixelBounds;

fn as_f32(number: Binary32) -> f32 {
    number.mantissa as f32 * (number.exponent as f32).exp2()
}

/// Numbers that spread over the whole range, small ones first.
fn samples() -> Vec<u32> {
    let mut list: Vec<u32> = (1..300).collect();
    let mut state: u64 = 0x2545_f491_4f6c_dd1d;
    for i in 0..3000u32 {
        state ^= state << 13;
        state ^= state >> 7;
        state ^= state << 17;
        let number = (state >> 32) as u32 >> (i % 31);
        list.push(number.max(1));
    }
    list.extend([
        0x7f_ffff, 0x80_0000, 0x80_0001, 0xff_ffff, 0x100_0000, 0x100_0001, 0x100_0002,
        0x100_0003, 0x1ff_ffff, 0x7fff_ffff, 0x7fff_ffc0, 0x7fff_ffbf, 0xffff_ffff,
    ]);
    list
}

#[test]
fn integers_round_to_single_precision() {
    for number in samples() {
        assert_eq!(as_f32(Binary32::from_positive(number)), number as f32, "{number}");
    }
}

#[test]
fn products_and_quotients_are_those_of_single_precision() {
    let list = samples();
    for pair in list.windows(2) {
        let (a, b) = (Binary32::from_positive(pair[0]), Binary32::from_positive(pair[1]));
        assert_eq!(as_f32(a.times(b)), pair[0] as f32 * pair[1] as f32, "{pair:?}");
        assert_eq!(as_f32(a.over(b)), pair[0] as f32 / pair[1] as f32, "{pair:?}");
    }
}

#[test]
fn rounding_is_that_of_single_precision() {
    let list = samples();
    for pair in list.windows(2) {
        let share = Binary32::from_positive(pair[0]).over(Binary32::from_positive(pair[1]));
        let expected = (pair[0] as f32 / pair[1] as f32).round() as i32;
        assert_eq!(share.round(), expected, "{pair:?}");
        let half = Binary32 { exponent: share.exponent - 1, ..share };
        assert_eq!(half.round(), (as_f32(share) / 2.0).round() as i32, "{pair:?}");
    }
    // Halves go up; what does not fit becomes the greatest number.
    assert_eq!(Binary32 { mantissa: 0x80_0000, exponent: -24 }.round(), 1);
    assert_eq!(Binary32 { mantissa: 0x80_0000, exponent: -25 }.round(), 0);
    assert_eq!(Binary32 { mantissa: 0xa0_0000, exponent: -22 }.round(), 3);
    assert_eq!(Binary32 { mantissa: 0x80_0000, exponent: 8 }.round(), i32::MAX);
}

fn bounds_of(canvas: (i32, i32), x: (i32, i32), y: (i32, i32)) -> PixelBounds {
    PixelBounds {
        canvas_width: canvas.0,
        canvas_height: canvas.1,
        min_x: x.0,
        min_y: y.0,
        max_x: x.1,
        max_y: y.1,
    }
}

#[test]
fn the_visible_part_takes_seven_tenths() {
    for target in -3..3000 {
        let expected = (target.max(1) as f32 * 0.70f32).round().max(1.0) as i32;
        assert_eq!(desired_visible_size(target), expected, "{target}");
    }
    assert_eq!(desired_visible_size(i32::MAX), (i32::MAX as f32 * 0.70f32).round() as i32);
    assert_eq!(desired_visible_size(64), 45);
    // Seven tenths of five, rounded to single precision, is three and a half.
    assert_eq!(desired_visible_size(5), 4);
}

#[test]
fn rectangles_are_those_of_single_precision() {
    for target in [-7, 0, 1, 2, 15, 64, 100, 384, 1023, 1536] {
        for width in 1..70 {
            for height in [1, 2, 3, 16, 31, 48, 64, 255, 256] {
                let bounds = bounds_of((300, 300), (5, 4 + width), (7, 6 + height));
                let scale =
                    target.max(1) as f32 * 0.70f32 / width.max(height).max(1) as f32;
                assert_eq!(as_f32(normalized_scale(bounds, target)), scale);
                let w = (width as f32 * scale).round() as i32;
                let h = (height as f32 * scale).round() as i32;
                assert_eq!(
                    normalized_rect(bounds, target),
                    ((target - w) / 2, (target - h) / 2, w.max(1), h.max(1))
                );
            }
        }
    }
}

fn single_precision_topleft(bounds: &PixelBounds) -> bool {
    let area = (bounds.max_x - bounds.min_x + 1) * (bounds.max_y - bounds.min_y + 1);
    let canvas_area = bounds.canvas_width * bounds.canvas_height;
    let ratio = area as f32 / canvas_area as f32;
    let center_x = (bounds.min_x + bounds.max_x) as f32 / 2.0 / bounds.canvas_width as f32;
    let center_y = (bounds.min_y + bounds.max_y) as f32 / 2.0 / bounds.canvas_height as f32;
    ratio < 0.25 && center_x < 0.30 && center_y < 0.30
}

#[test]
fn icons_in_the_corner_are_found() {
    for canvas in [1, 2, 5, 10, 16, 20, 32] {
        for min in 0..canvas {
            for max in min..canvas {
                for (y_min, y_max) in [(0, 0), (0, max), (min, max), (0, canvas - 1)] {
                    let bounds = bounds_of((canvas, canvas), (min, max), (y_min, y_max));
                    assert_eq!(
                        is_topleft_icon(&bounds),
                        single_precision_topleft(&bounds),
                        "{bounds:?}"
                    );
                }
            }
        }
    }
    // Half of each side is a quarter of the canvas, which is not less than a quarter.
    assert!(!is_topleft_icon(&bounds_of((32, 32), (0, 15), (0, 15))));
    assert!(is_topleft_icon(&bounds_of((32, 32), (0, 14), (0, 15))));
    // The middle at three tenths is not before three tenths.
    assert!(!is_topleft_icon(&bounds_of((10, 10), (3, 3), (0, 0))));
    assert!(is_topleft_icon(&bounds_of((10, 10), (2, 3), (0, 0))));
}

#[test]
fn an_icon_is_valid_where_its_visible_part_is_known_and_not_in_the_corner() {
    assert_eq!(is_valid_icon(&None), None);
    assert_eq!(is_valid_icon(&Some(PixelBounds::full(32, 32))), Some(true));
    assert_eq!(
        is_valid_icon(&Some(bounds_of((256, 256), (0, 47), (0, 47)))),
        Some(false)
    );
}

#[test]
fn results_are_off_by_one_part_in_sixteen_million_at_most() {
    let near = |n: f64, exact: f64| (n - exact).abs() * 16777216.0 <= exact;
    let value = |number: Binary32| f64::from(number.mantissa) * f64::from(number.exponent).exp2();
    let list = samples();
    for pair in list.windows(2) {
        let (a, b) = (Binary32::from_positive(pair[0]), Binary32::from_positive(pair[1]));
        assert!(near(value(a), f64::from(pair[0])));
        assert!(near(value(a.times(b)), value(a) * value(b)));
        assert!(near(value(a.over(b)) * value(b), value(a)));
    }
}

#[test]
fn drawing_keeps_the_shape_and_fits_the_square() {
    for target in [1, 2, 3, 10, 64, 333, 384, 100_000, i32::MAX] {
        for (width, height) in [(1, 1), (7, 3), (256, 255), (13, 256), (1000, 1)] {
            let bounds = bounds_of((1000, 1000), (0, width - 1), (0, height - 1));
            let (x, y, w, h) = normalized_rect(bounds, target);
            assert!(x >= 0 && y >= 0 && x + w <= target && y + h <= target);
            let longer = width.max(height) as i64;
            for (side, length) in [(w, width), (h, height)] {
                let share = length as i64 * i64::from(target);
                let side = i64::from(side);
                if side > 1 {
                    assert!(10000 * longer * (2 * side - 1) <= 14002 * share);
                }
                assert!(13998 * share < 10000 * longer * (2 * side + 1));
            }
        }
    }
}

#[test]
fn the_corner_is_a_quarter_of_the_canvas_and_three_tenths_of_each_side() {
    for canvas in [3, 10, 32, 48, 100, 256, 1000, 2000] {
        for step in 1..40 {
            let max_x = (canvas * step / 40).min(canvas - 1);
            for min_x in [0, max_x / 3, max_x] {
                for max_y in [0, canvas / 2, canvas * 3 / 5, canvas - 1] {
                    let bounds = bounds_of((canvas, canvas), (min_x, max_x), (0, max_y));
                    let area = (max_x - min_x + 1) * (max_y + 1);
                    let expected = 4 * area < canvas * canvas
                        && 5 * (min_x + max_x) < 3 * canvas
                        && 5 * max_y < 3 * canvas;
                    assert_eq!(is_topleft_icon(&bounds), expected, "{bounds:?}");
                }
            }
        }
    }
}
