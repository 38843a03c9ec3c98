use window_switcher::pixels::{
    alpha_bounds, canonical_dimensions, canonicalize_pixels, clear_fully_transparent_rgb,
    color_icon_bounds, has_semi_transparent, icon_dimensions, make_surface_opaque, mask_bounds,
    mask_visibility, monochrome_icon_bounds, monochrome_mask_visibility, needs_mask,
    premultiply_alpha, select_bounds, PixelBounds,
};

fn pixels_of(alphas: &[u8]) -> Vec<u8> {
    alphas.iter().flat_map(|alpha| [9, 9, 9, *alpha]).collect()
}

fn mask_of(visible: &[bool]) -> Vec<u8> {
    visible
        .iter()
        .flat_map(|v| if *v { [0, 0, 0, 0] } else { [255, 255, 255, 0] })
        .collect()
}

fn boxed(width: i32, height: i32, x: (i32, i32), y: (i32, i32)) -> PixelBounds {
    PixelBounds {
        canvas_width: width,
        canvas_height: height,
        min_x: x.0,
        min_y: y.0,
        max_x: x.1,
        max_y: y.1,
    }
}

#[test]
fn an_image_without_visible_pixels_has_no_bounds() {
    assert_eq!(alpha_bounds(2, 2, &pixels_of(&[0, 8, 3, 1])), None);
    assert_eq!(alpha_bounds(0, 2, &[]), None);
    assert_eq!(alpha_bounds(2, -1, &[]), None);
    assert_eq!(alpha_bounds(2, 2, &pixels_of(&[255, 255, 255])), None);
    assert_eq!(mask_bounds(2, 2, &[true; 3]), None);
    assert_eq!(mask_bounds(-2, -2, &[true; 4]), None);
}

#[test]
fn bounds_are_tight() {
    let pixels = pixels_of(&[0, 0, 0, 0, 9, 0, 0, 0, 200, 0, 0, 0]);
    assert_eq!(
        alpha_bounds(4, 3, &pixels),
        Some(boxed(4, 3, (0, 0), (1, 2)))
    );
    let mut visible = [false; 12];
    visible[3] = true;
    visible[9] = true;
    assert_eq!(
        mask_bounds(4, 3, &visible),
        Some(boxed(4, 3, (1, 3), (0, 2)))
    );
}

#[test]
fn two_colour_icons_show_what_is_not_masked_or_is_inverted() {
    // AND mask: set, set, clear; XOR mask: clear, set, clear.
    let mut pixels = mask_of(&[false, false, true]);
    pixels.extend(mask_of(&[true, false, true]));
    assert_eq!(
        monochrome_mask_visibility(3, 1, &pixels),
        Some(vec![false, true, true])
    );
    assert_eq!(
        monochrome_icon_bounds(3, 1, &pixels),
        Some(boxed(3, 1, (1, 2), (0, 0)))
    );
    assert_eq!(monochrome_mask_visibility(3, 1, &pixels[..20]), None);
    assert_eq!(monochrome_mask_visibility(0, 1, &[]), None);
    assert_eq!(monochrome_icon_bounds(3, 1, &pixels[..20]), None);
}

#[test]
fn the_mask_is_asked_where_alpha_tells_nothing() {
    let opaque = pixels_of(&[255; 4]);
    let partial = pixels_of(&[255, 255, 0, 0]);
    let soft = pixels_of(&[255, 255, 255, 100]);
    let clear = pixels_of(&[0; 4]);
    assert!(needs_mask(2, 2, &opaque));
    assert!(needs_mask(2, 2, &clear));
    assert!(!needs_mask(2, 2, &partial));
    assert!(!needs_mask(2, 2, &soft));
    let mask = mask_of(&[false, true, false, false]);
    let only = boxed(2, 2, (1, 1), (0, 0));
    assert_eq!(color_icon_bounds(2, 2, &opaque, Some(&mask)), Some(only));
    assert_eq!(color_icon_bounds(2, 2, &clear, Some(&mask)), Some(only));
    assert_eq!(
        color_icon_bounds(2, 2, &partial, Some(&mask)),
        Some(boxed(2, 2, (0, 1), (0, 0)))
    );
    let empty = mask_of(&[false; 4]);
    assert_eq!(
        color_icon_bounds(2, 2, &opaque, Some(&empty)),
        Some(PixelBounds::full(2, 2))
    );
    assert_eq!(color_icon_bounds(2, 2, &clear, Some(&empty)), None);
    assert_eq!(color_icon_bounds(2, 2, &clear, None), None);
    assert_eq!(mask_visibility(&mask), vec![false, true, false, false]);
}

#[test]
fn only_pixels_between_the_limits_are_translucent() {
    assert!(!has_semi_transparent(&pixels_of(&[0, 8, 255])));
    assert!(has_semi_transparent(&pixels_of(&[0, 9, 255])));
    assert!(has_semi_transparent(&pixels_of(&[254])));
    // Three bytes are no pixel.
    assert!(!has_semi_transparent(&[9, 9, 9]));
}

#[test]
fn translucent_images_go_by_alpha() {
    let full = PixelBounds::full(2, 2);
    let small = boxed(2, 2, (0, 0), (0, 0));
    let soft = pixels_of(&[100; 4]);
    let hard = pixels_of(&[255; 4]);
    assert_eq!(select_bounds(Some(full), Some(small), 2, 2, &soft), full);
    assert_eq!(select_bounds(Some(full), Some(small), 2, 2, &hard), small);
    assert_eq!(select_bounds(Some(full), None, 2, 2, &hard), full);
    assert_eq!(select_bounds(None, Some(small), 2, 2, &hard), small);
}

#[test]
fn transparent_pixels_lose_their_colour() {
    let mut pixels = vec![1, 2, 3, 0, 4, 5, 6, 7, 8];
    clear_fully_transparent_rgb(&mut pixels);
    assert_eq!(pixels, vec![0, 0, 0, 0, 4, 5, 6, 7, 8]);
    let mut premultiplied = pixels.clone();
    premultiply_alpha(&mut premultiplied);
    assert_eq!(premultiplied, vec![0, 0, 0, 0, 0, 0, 0, 7, 8]);
    make_surface_opaque(&mut pixels);
    assert_eq!(pixels, vec![0, 0, 0, 255, 4, 5, 6, 255, 8]);
}

#[test]
fn premultiplied_channels_are_rounded_and_stay_below_alpha() {
    for alpha in 0..=255u8 {
        for channel in 0..=255u8 {
            let mut pixel = [channel, 0, 255, alpha];
            premultiply_alpha(&mut pixel);
            let exact = f64::from(channel) * f64::from(alpha) / 255.0;
            assert_eq!(f64::from(pixel[0]), exact.round());
            assert!(pixel[0] <= alpha);
            assert_eq!(pixel[2], alpha);
        }
    }
}

#[test]
fn icons_have_the_size_of_their_bitmap() {
    assert_eq!(icon_dimensions(true, 32, 32), (32, 32));
    assert_eq!(icon_dimensions(false, 32, 64), (32, 32));
    assert_eq!(icon_dimensions(false, 32, -3), (32, -1));
    assert_eq!(canonical_dimensions(0, 7), Some((1, 7)));
    assert_eq!(canonical_dimensions(0x7fff_ffff, 0), Some((i32::MAX, 1)));
    assert_eq!(canonical_dimensions(0x8000_0000, 1), None);
    assert_eq!(canonical_dimensions(1, 0x8000_0000), None);
}

#[test]
fn canonical_pixels_have_bounds() {
    let mut pixels = vec![255, 128, 0, 128, 1, 2, 3, 0];
    assert_eq!(
        canonicalize_pixels(2, 1, &mut pixels, None),
        boxed(2, 1, (0, 0), (0, 0))
    );
    assert_eq!(pixels, vec![128, 64, 0, 128, 0, 0, 0, 0]);
    let small = boxed(1, 1, (0, 0), (0, 0));
    let mut opaque = vec![1, 2, 3, 255];
    assert_eq!(canonicalize_pixels(1, 1, &mut opaque, Some(small)), small);
    let mut clear = vec![1, 2, 3, 0];
    assert_eq!(
        canonicalize_pixels(1, 1, &mut clear, None),
        PixelBounds::full(1, 1)
    );
}

#[test]
fn a_canvas_without_edges_is_not_full() {
    let odd = PixelBounds { canvas_width: i32::MIN, ..boxed(2, 2, (1, 1), (0, 0)) };
    assert!(!odd.is_full());
    assert_eq!(select_bounds(Some(odd), None, i32::MIN, i32::MIN, &[]), odd);
}

#[test]
fn colour_icons_without_a_size_have_no_bounds() {
    let mask = mask_of(&[true; 4]);
    for (width, height) in [(0, 2), (2, 0), (-2, -2), (i32::MIN, 1), (i32::MAX, i32::MIN)] {
        assert!(!needs_mask(width, height, &[0, 0, 0, 255]));
        assert_eq!(color_icon_bounds(width, height, &[0, 0, 0, 255], Some(&mask)), None);
    }
}
