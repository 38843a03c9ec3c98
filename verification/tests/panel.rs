use std::rc::Rc;
use window_switcher::app_icon::AppIcon;
use window_switcher::painter::{
    app_item_index_at, app_item_index_in_panel, draw_icons, scale_by_dpi, surface_len, theme_color,
    Coordinate, GdiAAPainter, IconsLayout, PlacedIcon, ScreenRect, BG_DARK_COLOR, BG_LIGHT_COLOR,
    FG_DARK_COLOR, FG_LIGHT_COLOR, ICON_BORDER_SIZE_BASE, ICON_SIZE_BASE, SCALE_FACTOR,
    WINDOW_BORDER_SIZE_BASE,
};
use window_switcher::switch_apps::SwitchAppsState;

#[test]
fn app_item_hit_test_uses_full_item_rectangles_and_excludes_panel_border() {
    let origin = (100, 50);

    assert_eq!(app_item_index_at((110, 60), origin, 10, 20, 3), Some(0));
    assert_eq!(app_item_index_at((129, 79), origin, 10, 20, 3), Some(0));
    assert_eq!(app_item_index_at((130, 60), origin, 10, 20, 3), Some(1));
    assert_eq!(app_item_index_at((109, 60), origin, 10, 20, 3), None);
    assert_eq!(app_item_index_at((110, 80), origin, 10, 20, 3), None);
    assert_eq!(app_item_index_at((170, 60), origin, 10, 20, 3), None);
}

#[test]
fn app_item_hit_test_derives_item_size_from_rendered_panel_width() {
    assert_eq!(app_item_index_in_panel((10, 10), 80, 10, 3), Some(0));
    assert_eq!(app_item_index_in_panel((49, 29), 80, 10, 3), Some(1));
    assert_eq!(app_item_index_in_panel((69, 29), 80, 10, 3), Some(2));
    assert_eq!(app_item_index_in_panel((70, 10), 80, 10, 3), None);
    assert_eq!(app_item_index_in_panel((10, 30), 80, 10, 3), None);
}

const SCREEN: ScreenRect = ScreenRect { left: -1920, top: 40, right: 0, bottom: 1120 };

/// The measures of a panel as floating point gives them.
fn expected(num_apps: i32, dpi: u32, monitor: ScreenRect) -> Coordinate {
    let scale = if dpi == 0 { 1.0 } else { f64::from(dpi) / 96.0 };
    let icon_size_max = (64.0 * scale) as i32;
    let border_size = (10.0 * scale) as i32;
    let icon_border = (4.0 * scale) as i32;
    let monitor_width = monitor.right - monitor.left;
    let monitor_height = monitor.bottom - monitor.top;
    let available = (monitor_width - 2 * border_size) / num_apps - icon_border * 2;
    let min_icon_size = (32.0 * (f64::from(icon_size_max) / 64.0)) as i32;
    let icon_size = if available >= min_icon_size {
        available.min(icon_size_max)
    } else {
        available.max(1)
    };
    let item_size = icon_size + icon_border * 2;
    let width = item_size * num_apps + border_size * 2;
    let height = item_size + border_size * 2;
    Coordinate {
        x: monitor.left + (monitor_width - width) / 2,
        y: monitor.top + (monitor_height - height) / 2,
        width,
        height,
        icon_size,
        item_size,
    }
}

#[test]
fn lengths_follow_the_resolution() {
    for dpi in (0..5000).chain([96_000_000, 2_147_483_647, 3_221_225_472, u32::MAX]) {
        let scale = if dpi == 0 { 1.0 } else { f64::from(dpi) / 96.0 };
        for base in [64, 10, 4] {
            assert_eq!(
                scale_by_dpi(base, dpi),
                (f64::from(base) * scale) as i32,
                "{base} {dpi}"
            );
        }
    }
    assert_eq!(scale_by_dpi(ICON_SIZE_BASE, 144), 96);
    assert_eq!(scale_by_dpi(WINDOW_BORDER_SIZE_BASE, 120), 12);
    assert_eq!(scale_by_dpi(ICON_BORDER_SIZE_BASE, 0), 4);
}

#[test]
fn the_panel_stands_in_the_middle_of_the_screen() {
    let painter = GdiAAPainter::new(true);
    for dpi in [0, 96, 120, 144, 192, 288] {
        for count in [1usize, 2, 5, 20, 40, 100, 400] {
            let plan = painter.paint(count, dpi, SCREEN, false);
            assert_eq!(plan.coordinate, expected(count as i32, dpi, SCREEN));
            assert_eq!(plan.corner_radius, plan.coordinate.item_size / 4);
            assert_eq!(plan.icons_width, plan.coordinate.item_size * count as i32);
            assert_eq!(plan.icons_height, plan.coordinate.item_size);
        }
    }
    let plan = painter.paint(3, 96, SCREEN, true);
    assert_eq!(
        plan.coordinate,
        Coordinate { x: -1078, y: 534, width: 236, height: 92, icon_size: 64, item_size: 72 }
    );
    assert_eq!((plan.fg_color, plan.bg_color), (FG_LIGHT_COLOR, BG_LIGHT_COLOR));
    assert_eq!((plan.border_size, plan.icon_border), (10, 4));
    let square = GdiAAPainter::new(false).paint(3, 96, SCREEN, false);
    assert_eq!(square.corner_radius, 0);
    assert_eq!((square.fg_color, square.bg_color), (FG_DARK_COLOR, BG_DARK_COLOR));
    assert_eq!(theme_color(true), (0xf2f2f2, 0xe0e0e0));
    assert_eq!(theme_color(false), (0x3b3b3b, 0x4c4c4c));
}

#[test]
fn points_belong_to_what_is_drawn_there() {
    for count in [1usize, 3, 17, 60] {
        let plan = GdiAAPainter::new(false).paint(count, 120, SCREEN, false);
        let Coordinate { width, height, item_size, .. } = plan.coordinate;
        let border = plan.border_size;
        for y in [0, border - 1, border, border + item_size - 1, border + item_size, height - 1] {
            for x in 0..width {
                let inside = x >= border && x < width - border && y >= border
                    && y < border + item_size;
                let item = inside.then_some(((x - border) / item_size).max(0) as usize);
                assert_eq!(app_item_index_in_panel((x, y), width, border, count), item);
            }
        }
    }
    assert_eq!(app_item_index_in_panel((5, 5), 80, 10, 0), None);
    assert_eq!(app_item_index_in_panel((15, 15), 20, 10, 3), None);
    assert_eq!(app_item_index_at((15, 15), (0, 0), 10, -4, 3), None);
}

#[test]
fn the_panel_is_brought_up_once() {
    let mut painter = GdiAAPainter::new(false);
    assert!(painter.painted());
    assert!(!painter.painted());
    painter.unpaint();
    assert!(!painter.show);
    assert!(painter.painted());
}

#[test]
fn surfaces_have_four_bytes_a_pixel() {
    assert_eq!(surface_len(3, 5), Some(60));
    assert_eq!(surface_len(0, 5), None);
    assert_eq!(surface_len(5, 0), None);
    assert_eq!(surface_len(-1, -1), None);
}

fn icon(sizes: &[i32]) -> Rc<AppIcon<usize, usize>> {
    let mut icon = AppIcon::new();
    for (handle, size) in sizes.iter().enumerate() {
        icon.push_candidate(handle, None, *size, *size, None);
    }
    Rc::new(icon)
}

#[test]
fn icons_are_drawn_in_a_row() {
    let mut state = SwitchAppsState::open(
        vec![(icon(&[16, 32, 256]), 10), (icon(&[]), 20), (icon(&[400]), 30)],
        false,
        (0, 0),
    )
    .unwrap();
    let plan = draw_icons(&state, 64, 4, 216, 72, 18);
    assert_eq!(
        plan.layout,
        IconsLayout {
            width: 1296,
            height: 432,
            corner_radius: 108,
            border_size: 24,
            inner_size: 384,
            outer_size: 432,
        }
    );
    assert_eq!(
        plan.highlight,
        Some(ScreenRect { left: 432, top: 0, right: 864, bottom: 432 })
    );
    assert_eq!(
        plan.icons,
        vec![
            Some(PlacedIcon { x: 24, candidate: 2 }),
            None,
            Some(PlacedIcon { x: 888, candidate: 0 }),
        ]
    );
    // What lies under the pointer is highlighted instead.
    assert!(state.update_hover((1, 1), Some(2)));
    let plan = draw_icons(&state, 64, 4, 216, 72, 18);
    assert_eq!(plan.highlight.unwrap().left, 864);
    state.update_hover((2, 2), Some(7));
    assert_eq!(draw_icons(&state, 64, 4, 216, 72, 18).highlight, None);
}

#[test]
fn the_panel_stays_on_the_screen_and_its_icons_in_their_items() {
    let painter = GdiAAPainter::new(true);
    for count in [1usize, 4, 25, 80] {
        let plan = painter.paint(count, 96, SCREEN, false);
        let Coordinate { x, width, item_size, icon_size, .. } = plan.coordinate;
        assert!(SCREEN.left <= x && x + width <= SCREEN.right);
        let apps = (0..count).map(|i| (icon(&[32]), i as isize)).collect();
        let state = SwitchAppsState::open(apps, true, (0, 0)).unwrap();
        let icons = draw_icons(
            &state,
            icon_size,
            plan.icon_border,
            plan.icons_width,
            plan.icons_height,
            plan.corner_radius,
        );
        assert_eq!(icons.layout.outer_size, item_size * SCALE_FACTOR);
        assert_eq!(icons.layout.width, icons.layout.outer_size * count as i32);
        for (i, placed) in icons.icons.iter().enumerate() {
            let placed = placed.unwrap();
            let left = icons.layout.outer_size * i as i32;
            assert!(left <= placed.x);
            assert!(placed.x + icons.layout.inner_size <= left + icons.layout.outer_size);
        }
        assert_eq!(icons.highlight.unwrap().right, icons.layout.width);
    }
}

#[test]
fn only_what_is_drawn_has_to_fit() {
    // The second item would lie beyond the greatest number, but nothing is drawn there.
    let mut state =
        SwitchAppsState::open(vec![(icon(&[32]), 1), (icon(&[]), 2), (icon(&[]), 3)], false, (0, 0))
            .unwrap();
    state.update_hover((1, 1), Some(0));
    let plan = draw_icons(&state, 200_000_000, 0, 1, 1, 0);
    assert_eq!(plan.highlight.unwrap().right, 1_200_000_000);
    assert_eq!(
        plan.icons,
        vec![Some(PlacedIcon { x: 0, candidate: 0 }), None, None]
    );
}
