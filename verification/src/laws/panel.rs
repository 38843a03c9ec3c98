//! The panel: where it lies, how large it is, and what lies under a point of it.
use vstd::prelude::*;

use crate::app_icon::is_selected;
use crate::icon_scale::desired_visible_size;
use crate::laws::icons::{lemma_suits_best, suits_best};
use crate::painter::{
    app_item_index_at, app_item_index_in_panel, draw_icons, is_placed, scale_by_dpi, surface_len,
    theme_color, Coordinate, GdiAAPainter, IconsPlan, PaintPlan, ScreenRect,
};
use crate::switch_apps::SwitchAppsState;

verus! {

/// What is placed over a length lies in the middle of it: the room before it and the room
/// after it are the same but for an odd pixel, which goes after it. Where there is too
/// little room, it stands out on both sides alike.
pub open spec fn is_centred(start: int, length: int, from: int, to: int) -> bool {
    let before = start - from;
    let after = to - (start + length);
    if length <= to - from {
        0 <= before <= after <= before + 1
    } else {
        before - 1 <= after <= before <= 0
    }
}

/// The panel lies in the middle of its screen, from left to right and from top to bottom,
/// wherever the screen lies and whatever its size. So it lies on the screen, if it is not
/// larger.
pub proof fn the_panel_lies_in_the_middle(
    num_apps: i32,
    icon_size_max: i32,
    border_size: i32,
    icon_border: i32,
    monitor: ScreenRect,
    panel: Coordinate,
)
    requires
        call_ensures(
            Coordinate::new,
            (num_apps, icon_size_max, border_size, icon_border, monitor),
            panel,
        ),
    ensures
        is_centred(
            panel.x as int,
            panel.width as int,
            monitor.left as int,
            monitor.right as int,
        ),
        is_centred(
            panel.y as int,
            panel.height as int,
            monitor.top as int,
            monitor.bottom as int,
        ),
        panel.width <= monitor.right - monitor.left ==> monitor.left <= panel.x && panel.x
            + panel.width <= monitor.right,
        panel.height <= monitor.bottom - monitor.top ==> monitor.top <= panel.y && panel.y
            + panel.height <= monitor.bottom,
{
}

/// The panel moves with its screen, and keeps its measures on a screen of the same size.
pub proof fn the_panel_moves_with_its_screen(
    num_apps: i32,
    icon_size_max: i32,
    border_size: i32,
    icon_border: i32,
    monitor: ScreenRect,
    panel: Coordinate,
    other_monitor: ScreenRect,
    other_panel: Coordinate,
)
    requires
        call_ensures(
            Coordinate::new,
            (num_apps, icon_size_max, border_size, icon_border, monitor),
            panel,
        ),
        call_ensures(
            Coordinate::new,
            (num_apps, icon_size_max, border_size, icon_border, other_monitor),
            other_panel,
        ),
        other_monitor.right - other_monitor.left == monitor.right - monitor.left,
    ensures
        other_panel.x - other_monitor.left == panel.x - monitor.left,
        other_panel.width == panel.width,
        other_panel.height == panel.height,
        other_panel.icon_size == panel.icon_size,
        other_monitor.bottom - other_monitor.top == monitor.bottom - monitor.top
            ==> other_panel.y - other_monitor.top == panel.y - monitor.top,
{
}

/// The panel is a row of items, one for each application, with a border around the row;
/// an item is an icon with a border around it.
pub proof fn the_panel_is_a_row_of_items(
    num_apps: i32,
    icon_size_max: i32,
    border_size: i32,
    icon_border: i32,
    monitor: ScreenRect,
    panel: Coordinate,
)
    requires
        call_ensures(
            Coordinate::new,
            (num_apps, icon_size_max, border_size, icon_border, monitor),
            panel,
        ),
    ensures
        panel.item_size == icon_border + panel.icon_size + icon_border,
        panel.height == border_size + panel.item_size + border_size,
        panel.width == border_size + num_apps * panel.item_size + border_size,
{
    let item = panel.item_size as int;
    let n = num_apps as int;
    assert(n * item == item * n) by (nonlinear_arith);
}

/// The icons are as large as the screen allows, up to the greatest size: the row fits
/// the screen, unless the icons are a single pixel, and with icons a pixel larger it would
/// not, unless they have the greatest size.
pub proof fn the_icons_are_as_large_as_the_screen_allows(
    num_apps: i32,
    icon_size_max: i32,
    border_size: i32,
    icon_border: i32,
    monitor: ScreenRect,
    panel: Coordinate,
)
    requires
        call_ensures(
            Coordinate::new,
            (num_apps, icon_size_max, border_size, icon_border, monitor),
            panel,
        ),
        num_apps > 0,
        icon_size_max >= 2,
        icon_border >= 0,
    ensures
        1 <= panel.icon_size <= icon_size_max,
        panel.icon_size > 1 ==> panel.width <= monitor.right - monitor.left,
        panel.icon_size < icon_size_max ==> panel.width + num_apps > monitor.right - monitor.left,
{
    let room = monitor.right - monitor.left - 2 * border_size;
    let n = num_apps as int;
    let item = panel.item_size as int;
    if room >= 0 {
        let each = room / n;
        assert(each * n <= room && room < each * n + n) by (nonlinear_arith)
            requires
                n > 0,
                each == room / n,
        ;
        if panel.icon_size > 1 {
            assert(item <= each);
            assert(item * n <= each * n) by (nonlinear_arith)
                requires
                    item <= each,
                    n > 0,
            ;
        }
        if panel.icon_size < icon_size_max {
            assert(item >= each);
            assert(item * n >= each * n) by (nonlinear_arith)
                requires
                    item >= each,
                    n > 0,
            ;
        }
    } else {
        let each = -room / n;
        assert(each >= 0) by (nonlinear_arith)
            requires
                n > 0,
                room < 0,
                each == -room / n,
        ;
        assert(item * n >= 0) by (nonlinear_arith)
            requires
                n > 0,
                item >= 0,
        ;
    }
}

/// A length grows with the resolution: at 96 dots per inch, or where the resolution is not
/// known, it is what it is; at others it is in proportion, cut to whole pixels and to
/// what 32 bits hold.
pub proof fn lengths_grow_with_the_resolution(base: i32, dpi: u32, length: i32)
    requires
        call_ensures(scale_by_dpi, (base, dpi), length),
        0 <= base,
    ensures
        dpi == 0 || dpi == 96 ==> length == base,
        dpi > 0 && length < 0x7fff_ffff ==> 96 * length <= base * dpi < 96 * length + 96,
        dpi > 0 && length == 0x7fff_ffff ==> 96 * length <= base * dpi,
        length >= 0,
{
    assert(base * 96 / 96 == base);
    if dpi > 0 {
        let product = base * dpi;
        assert(product >= 0) by (nonlinear_arith)
            requires
                base >= 0,
                dpi > 0,
                product == base * dpi,
        ;
    }
}

/// A point belongs to the item that it lies in: the items stand side by side inside the
/// border, each as wide as it is high.
pub proof fn points_belong_to_the_item_they_lie_in(
    pointer_position: (i32, i32),
    panel_origin: (i32, i32),
    border_size: i32,
    item_size: i32,
    app_count: usize,
    index: Option<usize>,
    i: usize,
)
    requires
        call_ensures(
            app_item_index_at,
            (pointer_position, panel_origin, border_size, item_size, app_count),
            index,
        ),
    ensures
        index == Some(i) <==> {
            &&& i < app_count
            &&& i * item_size <= pointer_position.0 - panel_origin.0 - border_size < i * item_size
                + item_size
            &&& 0 <= pointer_position.1 - panel_origin.1 - border_size < item_size
        },
{
    let x = pointer_position.0 - panel_origin.0 - border_size;
    lemma_place(x, item_size as int, i as int);
}

proof fn lemma_place(x: int, size: int, i: int)
    requires
        i >= 0,
    ensures
        size > 0 && x >= 0 ==> (x / size == i <==> i * size <= x < i * size + size),
        size > 0 && x < 0 ==> !(i * size <= x < i * size + size),
{
    if size > 0 {
        assert(i * size >= 0) by (nonlinear_arith)
            requires
                i >= 0,
                size > 0,
        ;
        if x >= 0 {
            if x / size == i {
                assert(i * size <= x < i * size + size) by (nonlinear_arith)
                    requires
                        size > 0,
                        x / size == i,
                ;
            }
            if i * size <= x < i * size + size {
                assert(x / size == i) by (nonlinear_arith)
                    requires
                        size > 0,
                        i * size <= x < i * size + size,
                ;
            }
        }
    }
}

/// An item of this size is the largest that a row of `count` finds room for between the
/// borders of a panel.
pub open spec fn is_drawn_size(size: int, panel_width: int, border_size: int, count: int) -> bool {
    &&& size > 0
    &&& size * count <= panel_width - 2 * border_size < size * count + count
}

/// In a panel of which the width alone is known, the items are as wide as its applications
/// allow between the borders, and a point belongs to the item that it lies in.
pub proof fn points_of_a_panel_belong_to_the_item_they_lie_in(
    pointer_position: (i32, i32),
    panel_width: i32,
    border_size: i32,
    app_count: usize,
    index: Option<usize>,
    size: int,
    i: usize,
)
    requires
        call_ensures(
            app_item_index_in_panel,
            (pointer_position, panel_width, border_size, app_count),
            index,
        ),
        0 < app_count <= 0x7fff_ffff,
        is_drawn_size(size, panel_width as int, border_size as int, app_count as int),
    ensures
        index == Some(i) <==> {
            &&& i < app_count
            &&& i * size <= pointer_position.0 - border_size < i * size + size
            &&& 0 <= pointer_position.1 - border_size < size
        },
{
    let room = panel_width - 2 * border_size;
    let n = app_count as int;
    lemma_drawn_size(size, room, n);
    lemma_place(pointer_position.0 - border_size, size, i as int);
}

proof fn lemma_drawn_size(size: int, room: int, n: int)
    requires
        n > 0,
        size > 0,
        size * n <= room < size * n + n,
    ensures
        room >= 0,
        room / n == size,
{
    assert(size * n >= 0) by (nonlinear_arith)
        requires
            n > 0,
            size > 0,
    ;
    assert(room / n == size) by (nonlinear_arith)
        requires
            n > 0,
            size * n <= room < size * n + n,
    ;
}

/// A panel without applications, or without room for a pixel of each, has nothing under
/// any of its points.
pub proof fn a_panel_without_items_has_nothing_under_its_points(
    pointer_position: (i32, i32),
    panel_width: i32,
    border_size: i32,
    app_count: usize,
    index: Option<usize>,
)
    requires
        call_ensures(
            app_item_index_in_panel,
            (pointer_position, panel_width, border_size, app_count),
            index,
        ),
        app_count == 0 || (app_count <= 0x7fff_ffff && panel_width - 2 * border_size < app_count),
    ensures
        index is None,
{
    if app_count > 0 {
        let room = panel_width - 2 * border_size;
        let n = app_count as int;
        if room >= 0 {
            assert(room / n == 0) by (nonlinear_arith)
                requires
                    0 <= room < n,
            ;
        } else {
            assert(-room / n >= 0) by (nonlinear_arith)
                requires
                    n > 0,
                    room < 0,
            ;
        }
    }
}

/// The pointer over the panel is told with the border that the resolution calls for.
pub proof fn the_pointer_is_found_in_the_panel<H, B>(
    painter: &GdiAAPainter,
    state: &SwitchAppsState<H, B>,
    pointer_position: (i32, i32),
    dpi: u32,
    client: ScreenRect,
    index: Option<usize>,
    border_size: i32,
    size: int,
    i: usize,
)
    requires
        call_ensures(
            GdiAAPainter::find_app_index_at_client,
            (painter, state, pointer_position, dpi, client),
            index,
        ),
        call_ensures(scale_by_dpi, (10, dpi), border_size),
        0 < state.apps@.len() <= 0x7fff_ffff,
        is_drawn_size(
            size,
            client.right - client.left,
            border_size as int,
            state.apps@.len() as int,
        ),
    ensures
        index == Some(i) <==> {
            &&& i < state.apps@.len()
            &&& i * size <= pointer_position.0 - border_size < i * size + size
            &&& 0 <= pointer_position.1 - border_size < size
        },
{
    let room = client.right - client.left - 2 * border_size;
    let n = state.apps@.len() as int;
    lemma_drawn_size(size, room, n);
    lemma_place(pointer_position.0 - border_size, size, i as int);
}

/// The pointer over the panel is over what lies there in a panel of that width.
pub proof fn the_pointer_is_over_what_lies_in_the_panel<H, B>(
    painter: &GdiAAPainter,
    state: &SwitchAppsState<H, B>,
    pointer_position: (i32, i32),
    dpi: u32,
    client: ScreenRect,
    index: Option<usize>,
    border_size: i32,
    width: i32,
    app_count: usize,
    expected: Option<usize>,
)
    requires
        call_ensures(
            GdiAAPainter::find_app_index_at_client,
            (painter, state, pointer_position, dpi, client),
            index,
        ),
        call_ensures(scale_by_dpi, (10, dpi), border_size),
        width == client.right - client.left,
        app_count == state.apps@.len(),
        call_ensures(
            app_item_index_in_panel,
            (pointer_position, width, border_size, app_count),
            expected,
        ),
    ensures
        index == expected,
{
}

/// The panel is planned for one item for each application, with the greatest icon, the
/// border and the border of an icon as the resolution calls for: 64, 10 and 4 pixels at
/// 96 dots per inch. Rounded corners have a quarter of an item for their radius.
pub proof fn the_panel_is_planned_for_its_applications(
    painter: &GdiAAPainter,
    app_count: usize,
    dpi: u32,
    monitor: ScreenRect,
    light_theme: bool,
    plan: PaintPlan,
    icon_size_max: i32,
    border_size: i32,
    icon_border: i32,
    panel: Coordinate,
)
    requires
        call_ensures(GdiAAPainter::paint, (painter, app_count, dpi, monitor, light_theme), plan),
        call_ensures(scale_by_dpi, (64, dpi), icon_size_max),
        call_ensures(scale_by_dpi, (10, dpi), border_size),
        call_ensures(scale_by_dpi, (4, dpi), icon_border),
        app_count <= 0x7fff_ffff,
        call_ensures(
            Coordinate::new,
            (app_count as i32, icon_size_max, border_size, icon_border, monitor),
            panel,
        ),
    ensures
        plan.coordinate == panel,
        plan.border_size == border_size,
        plan.icon_border == icon_border,
        plan.icons_width == panel.width - 2 * border_size,
        plan.icons_height == panel.height - 2 * border_size,
        plan.rounded_corner == painter.rounded_corner,
        !painter.rounded_corner ==> plan.corner_radius == 0,
        painter.rounded_corner && panel.item_size >= 0 ==> 4 * plan.corner_radius
            <= panel.item_size < 4 * plan.corner_radius + 4,
{
    assert(plan.coordinate@ == panel@);
}

/// The colours of the panel: on a light theme a light grey on a darker one, else a dark
/// grey on a lighter one.
pub proof fn the_panel_has_the_colours_of_the_theme(
    painter: &GdiAAPainter,
    app_count: usize,
    dpi: u32,
    monitor: ScreenRect,
    light_theme: bool,
    plan: PaintPlan,
    colors: (u32, u32),
)
    requires
        call_ensures(GdiAAPainter::paint, (painter, app_count, dpi, monitor, light_theme), plan),
        call_ensures(theme_color, (light_theme,), colors),
    ensures
        light_theme ==> colors.0 == 0xf2f2f2 && colors.1 == 0xe0e0e0,
        !light_theme ==> colors.0 == 0x3b3b3b && colors.1 == 0x4c4c4c,
        plan.fg_color == colors.0,
        plan.bg_color == colors.1,
{
}

/// A surface has four bytes for each pixel of each of its rows, and there is none without
/// pixels.
pub proof fn surfaces_have_four_bytes_a_pixel(width: i32, height: i32, len: Option<usize>)
    requires
        call_ensures(surface_len, (width, height), len),
        width > 0 && height > 0 ==> width * height * 4 <= i32::MAX,
    ensures
        len is Some <==> width > 0 && height > 0,
        len matches Some(len) ==> len == 4 * (width * height),
{
    if width > 0 && height > 0 {
        assert(width * height >= 1) by (nonlinear_arith)
            requires
                width > 0,
                height > 0,
        ;
    }
}

/// The panel is brought up when it is drawn for the first time, and again after it has
/// gone: not each time that it is drawn.
pub proof fn the_panel_is_brought_up_once(
    painter: &mut GdiAAPainter,
    first: bool,
    again: &mut GdiAAPainter,
    second: bool,
    gone: &mut GdiAAPainter,
    later: &mut GdiAAPainter,
    third: bool,
    rounded_corner: bool,
    fresh: GdiAAPainter,
    drawn: &mut GdiAAPainter,
    at_first: bool,
)
    requires
        call_ensures(GdiAAPainter::painted, (painter,), first),
        call_ensures(GdiAAPainter::painted, (again,), second),
        call_ensures(GdiAAPainter::unpaint, (gone,), ()),
        call_ensures(GdiAAPainter::painted, (later,), third),
        call_ensures(GdiAAPainter::new, (rounded_corner,), fresh),
        call_ensures(GdiAAPainter::painted, (drawn,), at_first),
    ensures
        first <==> !old(painter).show,
        final(painter).show,
        *old(again) == *final(painter) ==> !second,
        *old(later) == *final(gone) ==> third,
        *old(drawn) == fresh ==> at_first,
        fresh.rounded_corner == rounded_corner,
        final(painter).rounded_corner == old(painter).rounded_corner,
        final(gone).rounded_corner == old(gone).rounded_corner,
{
}

/// The icons are drawn six times as large as they will be: the surface, the corners and the
/// items. Behind the item that is highlighted there is a box of its size; each icon stands
/// in the middle of its item, drawn by the image that suits best, and one without images is
/// not drawn.
pub proof fn icons_are_drawn_six_times_as_large<H, B>(
    state: &SwitchAppsState<H, B>,
    icon_size: i32,
    icon_border: i32,
    width: i32,
    height: i32,
    corner_radius: i32,
    plan: IconsPlan,
    displayed: usize,
    wanted: i32,
    i: int,
)
    requires
        call_ensures(
            draw_icons::<H, B>,
            (state, icon_size, icon_border, width, height, corner_radius),
            plan,
        ),
        call_ensures(SwitchAppsState::<H, B>::displayed_index, (state,), displayed),
        call_ensures(desired_visible_size, (plan.layout.inner_size,), wanted),
    ensures
        plan.layout.width == 6 * width && plan.layout.height == 6 * height,
        plan.layout.corner_radius == 6 * corner_radius,
        plan.layout.border_size == 6 * icon_border && plan.layout.inner_size == 6 * icon_size,
        plan.layout.outer_size == 6 * (icon_size + 2 * icon_border),
        plan.highlight is Some <==> displayed < state.apps@.len(),
        plan.highlight matches Some(highlight) ==> {
            &&& highlight.left == plan.layout.outer_size * displayed
            &&& highlight.right == highlight.left + plan.layout.outer_size
            &&& highlight.top == 0 && highlight.bottom == plan.layout.outer_size
        },
        plan.icons@.len() == state.apps@.len(),
        0 <= i < state.apps@.len() ==> (plan.icons@[i] is Some
            <==> state.apps@[i].0.candidates@.len() > 0),
        0 <= i < state.apps@.len() && plan.icons@[i] is Some ==> {
            let placed = plan.icons@[i]->0;
            let left = plan.layout.outer_size * i;
            &&& placed.x - left == (left + plan.layout.outer_size) - (placed.x
                + plan.layout.inner_size)
            &&& suits_best(
                state.apps@[i].0.candidates@,
                wanted as int,
                placed.candidate as int,
            )
        },
{
    if 0 <= i < state.apps@.len() {
        let icon = *state.apps@[i].0;
        assert(is_placed(icon, plan.layout, i, plan.icons@[i]));
        if plan.icons@[i] is Some {
            let place = plan.icons@[i]->0.candidate as int;
            assert(is_selected(icon.extents(), wanted as int, place));
            lemma_suits_best(icon, wanted as int, place);
            assert(icon.extents().len() == icon.candidates@.len());
        }
    }
}

/// Where the greatest icon is a single pixel or none, the icons are that large if the row
/// fits the screen, and have no pixel if only that fits; a row for which even that is too
/// much keeps icons of a pixel.
pub proof fn tiny_icons_give_way_to_the_screen(
    num_apps: i32,
    icon_size_max: i32,
    border_size: i32,
    icon_border: i32,
    monitor: ScreenRect,
    panel: Coordinate,
)
    requires
        call_ensures(
            Coordinate::new,
            (num_apps, icon_size_max, border_size, icon_border, monitor),
            panel,
        ),
        num_apps > 0,
        0 <= icon_size_max < 2,
        icon_border >= 0,
        monitor.right - monitor.left >= 2 * border_size,
    ensures
        panel.icon_size == 0 || panel.icon_size == 1,
        panel.icon_size == 0 ==> panel.width <= monitor.right - monitor.left,
        panel.icon_size == 0 && icon_size_max == 1 ==> panel.width + num_apps > monitor.right
            - monitor.left,
        panel.icon_size == 1 ==> {
            ||| icon_size_max == 1 && panel.width <= monitor.right - monitor.left
            ||| panel.width - num_apps > monitor.right - monitor.left
        },
{
    let room = monitor.right - monitor.left - 2 * border_size;
    let n = num_apps as int;
    let item = panel.item_size as int;
    let each = room / n;
    assert(each * n <= room && room < each * n + n) by (nonlinear_arith)
        requires
            n > 0,
            each == room / n,
    ;
    if item <= each {
        assert(item * n <= each * n) by (nonlinear_arith)
            requires
                item <= each,
                n > 0,
        ;
    }
    if item >= each {
        assert(item * n >= each * n) by (nonlinear_arith)
            requires
                item >= each,
                n > 0,
        ;
    }
    if item - 1 > each {
        assert(item * n - n >= each * n + n) by (nonlinear_arith)
            requires
                item - 1 > each,
                n > 0,
        ;
    }
}

} // verus!
