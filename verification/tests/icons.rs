use window_switcher::app_icon::{
    exe_image_lists, get_exe_icon, get_shfileinfo, get_window_icon, ico_frame_dimensions,
    image_kind, load_image_as_hicon, load_images_as_hicon, AppIcon, Canonical, ImageKind,
    LoadedFrame, LoadedImage, LookupStep, WindowIconStep, WindowQuery,
};
use window_switcher::icon_scale::normalized_rect;
use window_switcher::pixels::{
    alpha_bounds, mask_bounds, monochrome_icon_bounds, premultiply_alpha, select_bounds,
    PixelBounds,
};

#[test]
fn alpha_bounds_ignores_nearly_transparent_pixels() {
    let pixels = [0, 0, 0, 8, 0, 0, 0, 0, 0, 0, 0, 0, 0, 0, 0, 255];

    assert_eq!(
        alpha_bounds(2, 2, &pixels),
        Some(PixelBounds {
            canvas_width: 2,
            canvas_height: 2,
            min_x: 1,
            min_y: 1,
            max_x: 1,
            max_y: 1,
        })
    );
}

#[test]
fn normalized_rect_preserves_aspect_ratio_and_uses_seventy_percent() {
    let bounds = PixelBounds {
        canvas_width: 100,
        canvas_height: 50,
        min_x: 10,
        min_y: 5,
        max_x: 89,
        max_y: 44,
    };

    assert_eq!(normalized_rect(bounds, 100), (15, 32, 70, 35));
}

#[test]
fn empty_mask_falls_back_to_the_complete_canvas() {
    let all_black = [true; 16];
    let all_white = [false; 16];

    assert_eq!(
        mask_bounds(4, 4, &all_black),
        Some(PixelBounds::full(4, 4))
    );
    assert_eq!(mask_bounds(4, 4, &all_white), None);
    assert_eq!(
        select_bounds(None, None, 4, 4, &[0; 64]),
        PixelBounds::full(4, 4)
    );
}

#[test]
fn valid_mask_bounds_are_returned() {
    let mut visible = [false; 16];
    visible[5] = true;
    visible[6] = true;
    visible[9] = true;

    assert_eq!(
        mask_bounds(4, 4, &visible),
        Some(PixelBounds {
            canvas_width: 4,
            canvas_height: 4,
            min_x: 1,
            min_y: 1,
            max_x: 2,
            max_y: 2,
        })
    );
}

#[test]
fn canonical_pixels_are_premultiplied() {
    let mut pixels = [0x10, 0x20, 0x30, 0, 0x40, 0x80, 0xff, 128];

    premultiply_alpha(&mut pixels);

    assert_eq!(pixels, [0, 0, 0, 0, 0x20, 0x40, 0x80, 128]);
}

#[test]
fn candidate_selection_avoids_upscaling_at_high_dpi() {
    let mut icon: AppIcon<usize, usize> = AppIcon::new();
    for size in [32, 48, 256] {
        icon.push_candidate(0, None, size, size, None);
    }

    assert_eq!(icon.selected(64).map(|candidate| candidate.width), Some(48));
    assert_eq!(icon.selected(128).map(|candidate| candidate.width), Some(256));
}

#[test]
fn ico_dimensions_contain_only_native_unique_frames() {
    let mut data = vec![0, 0, 1, 0, 3, 0];
    for (width, height) in [(0, 0), (48, 48), (48, 48)] {
        data.extend_from_slice(&[
            width, height, 0, 0, 1, 0, 32, 0, 0, 0, 0, 0, 0, 0, 0, 0,
        ]);
    }

    assert_eq!(ico_frame_dimensions(&data), Some(vec![(256, 256), (48, 48)]));
    assert_eq!(ico_frame_dimensions(&data[..data.len() - 1]), None);
}

#[test]
fn hicon_candidates_keep_the_native_renderer() {
    let icon: AppIcon<usize, usize> =
        AppIcon::from_hicon(Some(7), Some((32, 32)), Some(PixelBounds::full(32, 32)));

    assert!(icon.candidates[0].bitmap.is_none());
    assert!(!icon.candidates[0].has_bitmap());
    assert_eq!(icon.candidates[0].hicon, 7);
}

#[test]
fn monochrome_hicon_bounds_include_inverted_pixels() {
    // Two pixels: the AND mask is set in both, the XOR mask in the second.
    let pixels = [
        255, 255, 255, 0, 255, 255, 255, 0, 0, 0, 0, 0, 255, 255, 255, 0,
    ];

    let bounds = monochrome_icon_bounds(2, 1, &pixels).unwrap();

    assert_eq!((bounds.min_x, bounds.max_x), (1, 1));
}

#[test]
fn visible_bounds_prefer_alpha_then_mask() {
    let alpha = PixelBounds {
        canvas_width: 4,
        canvas_height: 4,
        min_x: 1,
        min_y: 1,
        max_x: 2,
        max_y: 2,
    };
    let mask = PixelBounds::full(4, 4);
    let mut pixels = [0; 64];
    pixels[3] = 255;

    assert_eq!(select_bounds(Some(alpha), Some(mask), 4, 4, &pixels), alpha);
    assert_eq!(select_bounds(Some(mask), Some(alpha), 4, 4, &pixels), alpha);
}

fn bounds_on(canvas: i32, extent: i32) -> PixelBounds {
    PixelBounds {
        canvas_width: canvas,
        canvas_height: canvas,
        min_x: 0,
        min_y: 0,
        max_x: extent - 1,
        max_y: 0,
    }
}

#[test]
fn of_equal_images_the_first_is_large_enough_and_the_last_is_largest() {
    let mut icon: AppIcon<usize, usize> = AppIcon::new();
    for (handle, extent) in [(0, 20), (1, 48), (2, 48), (3, 64)] {
        icon.push_candidate(handle, None, 64, 64, Some(bounds_on(64, extent)));
    }
    // 45 pixels are wanted, then 70.
    assert_eq!(icon.selected(64).map(|c| c.hicon), Some(1));
    assert_eq!(icon.selected_index(100), Some(3));
    icon.push_candidate(4, None, 64, 64, Some(bounds_on(64, 64)));
    assert_eq!(icon.selected_index(100), Some(4));
    // Sizes below one count as one.
    assert_eq!(icon.selected_index(-5), Some(0));
    let none: AppIcon<usize, usize> = AppIcon::new();
    assert!(none.selected(64).is_none());
}

#[test]
fn an_image_without_known_size_counts_as_256_pixels() {
    let mut icon: AppIcon<usize, usize> = AppIcon::new();
    icon.push(None, Some((16, 16)), None);
    assert!(icon.is_empty());
    icon.push(Some(5), None, None);
    icon.push(Some(6), Some((0, -4)), None);
    assert_eq!(icon.candidates[0].bounds, PixelBounds::full(256, 256));
    assert_eq!((icon.candidates[1].width, icon.candidates[1].height), (1, 1));
    assert_eq!(icon.candidates[1].bounds, PixelBounds::full(1, 1));
}

#[test]
fn a_bitmap_speaks_for_its_image() {
    let canonical = Canonical {
        bitmap: 9,
        width: 40,
        height: 30,
        bounds: bounds_on(40, 12),
    };
    let icon: AppIcon<usize, usize> = AppIcon::from_bitmap(Some(canonical), 3, Some((64, 64)));
    assert!(icon.candidates[0].has_bitmap());
    assert_eq!(icon.candidates[0].width, 40);
    assert_eq!(icon.candidates[0].bounds, bounds_on(40, 12));
    let icon: AppIcon<usize, usize> = AppIcon::from_bitmap(None, 3, None);
    assert!(!icon.candidates[0].has_bitmap());
    assert_eq!(icon.candidates[0].height, 256);
}

#[test]
fn broken_icon_files_have_no_sizes() {
    assert_eq!(ico_frame_dimensions(&[0, 0, 1, 0, 1]), None);
    let entry = [16u8, 24, 0, 0, 1, 0, 32, 0, 0, 0, 0, 0, 0, 0, 0, 0];
    for (header, expected) in [
        ([0u8, 0, 1, 0, 1, 0], Some(vec![(16, 24)])),
        ([1, 0, 1, 0, 1, 0], None),
        ([0, 1, 1, 0, 1, 0], None),
        ([0, 0, 2, 0, 1, 0], None),
        ([0, 0, 1, 0, 0, 0], None),
        ([0, 0, 1, 0, 2, 0], None),
        ([0, 0, 1, 0, 0, 1], None),
    ] {
        let mut data = header.to_vec();
        data.extend_from_slice(&entry);
        assert_eq!(ico_frame_dimensions(&data), expected, "{header:?}");
    }
}

#[test]
fn files_are_loaded_by_their_extension() {
    assert_eq!(image_kind(false, Some("ico")), ImageKind::Missing);
    assert_eq!(image_kind(true, Some("ico")), ImageKind::Ico);
    assert_eq!(image_kind(true, Some("IcO")), ImageKind::Ico);
    assert_eq!(image_kind(true, Some("icon")), ImageKind::Raster);
    assert_eq!(image_kind(true, Some("png")), ImageKind::Raster);
    assert_eq!(image_kind(true, None), ImageKind::Raster);
}

fn frame(hicon: Option<usize>, size: i32) -> LoadedFrame<usize> {
    LoadedFrame {
        hicon,
        dimensions: Some((size, size)),
        bounds: None,
    }
}

#[test]
fn an_icon_keeps_one_image_of_each_size() {
    let image: LoadedImage<usize, usize> = LoadedImage::Frames(vec![
        frame(Some(1), 16),
        frame(None, 32),
        frame(Some(2), 48),
        frame(Some(3), 16),
        frame(Some(4), 48),
        frame(Some(5), 64),
    ]);
    let icon = load_image_as_hicon(image).unwrap();
    assert_eq!(
        icon.candidates.iter().map(|c| c.hicon).collect::<Vec<_>>(),
        vec![1, 2, 5]
    );
    assert!(load_image_as_hicon::<usize, usize>(LoadedImage::Missing).is_none());
    let nothing: LoadedImage<usize, usize> = LoadedImage::Frames(vec![frame(None, 16)]);
    assert!(load_image_as_hicon(nothing).is_none());
}

#[test]
fn several_files_make_one_icon() {
    let picture = LoadedImage::Raster {
        hicon: 7usize,
        canonical: None::<Canonical<usize>>,
        dimensions: Some((16, 16)),
    };
    let frames = LoadedImage::Frames(vec![frame(Some(8), 16), frame(Some(9), 32)]);
    let icon = load_images_as_hicon(vec![LoadedImage::Missing, picture, frames]).unwrap();
    assert_eq!(
        icon.candidates.iter().map(|c| c.hicon).collect::<Vec<_>>(),
        vec![7, 8, 9]
    );
    assert!(load_images_as_hicon::<usize, usize>(vec![LoadedImage::Missing]).is_none());
    assert!(load_images_as_hicon::<usize, usize>(vec![]).is_none());
}

#[test]
fn an_executable_has_the_images_that_are_usable() {
    let with = |hicon: Option<usize>, bounds: Option<PixelBounds>| LoadedFrame {
        hicon,
        dimensions: Some((256, 256)),
        bounds,
    };
    let corner = PixelBounds { max_y: 30, ..bounds_on(256, 40) };
    let icon: AppIcon<usize, usize> = get_exe_icon(vec![
        with(Some(1), Some(corner)),
        with(Some(2), None),
        with(None, Some(PixelBounds::full(48, 48))),
        with(Some(3), Some(PixelBounds::full(32, 32))),
    ])
    .unwrap();
    assert_eq!(icon.candidates.len(), 1);
    assert_eq!(icon.candidates[0].hicon, 3);
    assert!(get_exe_icon::<usize, usize>(vec![with(Some(1), Some(corner))]).is_none());
    assert_eq!(exe_image_lists(), [4, 2, 0]);
}

#[test]
fn a_window_is_asked_three_times() {
    assert_eq!(
        get_window_icon(WindowQuery::Big, true, 5),
        WindowIconStep::Found(5)
    );
    assert_eq!(
        get_window_icon(WindowQuery::Big, false, 5),
        WindowIconStep::Ask(WindowQuery::Class)
    );
    assert_eq!(
        get_window_icon(WindowQuery::Class, true, 0),
        WindowIconStep::Ask(WindowQuery::Small)
    );
    assert_eq!(
        get_window_icon(WindowQuery::Small, true, 0),
        WindowIconStep::Nothing
    );
    assert_eq!(
        get_window_icon(WindowQuery::Small, true, 8),
        WindowIconStep::Found(8)
    );
}

#[test]
fn the_shell_is_called_up_to_three_times() {
    assert_eq!(get_shfileinfo(1, 7), LookupStep::Found);
    assert_eq!(get_shfileinfo(3, 1), LookupStep::Found);
    assert_eq!(get_shfileinfo(1, 0), LookupStep::WaitAndAsk { millis: 30 });
    assert_eq!(get_shfileinfo(2, 0), LookupStep::WaitAndAsk { millis: 30 });
    assert_eq!(get_shfileinfo(3, 0), LookupStep::GiveUp { millis: 30 });
}
