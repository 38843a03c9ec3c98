//! The panel on the screen: its place and its measures, what is drawn where, and
//! which application a point in it belongs to.
use vstd::prelude::*;

use crate::app_icon::{is_selected, AppIcon};
use crate::icon_scale::desired_size;
use crate::pixels::halved;
use crate::switch_apps::SwitchAppsState;

verus! {

pub const BG_DARK_COLOR: u32 = 0x4c4c4c;

pub const FG_DARK_COLOR: u32 = 0x3b3b3b;

pub const BG_LIGHT_COLOR: u32 = 0xe0e0e0;

pub const FG_LIGHT_COLOR: u32 = 0xf2f2f2;

/// The bits of a colour that make it opaque.
pub const ALPHA_MASK: u32 = 0xff000000;

pub const ICON_SIZE_BASE: i32 = 64;

pub const WINDOW_BORDER_SIZE_BASE: i32 = 10;

pub const ICON_BORDER_SIZE_BASE: i32 = 4;

/// How many times larger the icons are drawn before they are scaled down.
pub const SCALE_FACTOR: i32 = 6;

/// The dots per inch at which lengths are given.
pub const BASE_DPI: u32 = 96;

/// A rectangle on the screen, right and bottom excluded.
#[derive(Clone, Copy, Debug, PartialEq, Eq, Structural)]
pub struct ScreenRect {
    pub left: i32,
    pub top: i32,
    pub right: i32,
    pub bottom: i32,
}

pub open spec fn fits(n: int) -> bool {
    i32::MIN <= n <= i32::MAX
}

/// The quotient, rounded towards zero.
pub open spec fn truncated(n: int, d: int) -> int {
    if n >= 0 {
        n / d
    } else {
        -(-n / d)
    }
}

/// The foreground and the background of the panel.
pub fn theme_color(light_theme: bool) -> (colors: (u32, u32))
    ensures
        colors == if light_theme {
            (FG_LIGHT_COLOR, BG_LIGHT_COLOR)
        } else {
            (FG_DARK_COLOR, BG_DARK_COLOR)
        },
{
    if light_theme {
        (FG_LIGHT_COLOR, BG_LIGHT_COLOR)
    } else {
        (FG_DARK_COLOR, BG_DARK_COLOR)
    }
}

/// A length at the resolution of a screen, in whole pixels. A resolution of zero is
/// one that is not known.
pub open spec fn scaled_by_dpi(base: int, dpi: u32) -> int {
    let known = if dpi == 0 {
        BASE_DPI
    } else {
        dpi
    };
    let length = base * known / BASE_DPI as int;
    if length > i32::MAX {
        i32::MAX as int
    } else {
        length
    }
}

/// A length at the resolution of a screen.
pub fn scale_by_dpi(base: i32, dpi: u32) -> (length: i32)
    requires
        0 <= base,
    ensures
        length == scaled_by_dpi(base as int, dpi),
{
    let known: u32 = if dpi == 0 {
        BASE_DPI
    } else {
        dpi
    };
    assert(0 <= base * known <= 0x7fff_ffff * 0xffff_ffff) by (nonlinear_arith)
        requires
            0 <= base <= 0x7fff_ffff,
            0 <= known <= 0xffff_ffff,
    ;
    let length: u64 = base as u64 * known as u64 / BASE_DPI as u64;
    if length > 0x7fff_ffff {
        0x7fff_ffff
    } else {
        length as i32
    }
}

/// The place of the panel on the screen and its measures.
#[derive(Clone, Copy, Debug, PartialEq, Eq, Structural)]
pub struct Coordinate {
    pub x: i32,
    pub y: i32,
    pub width: i32,
    pub height: i32,
    pub icon_size: i32,
    pub item_size: i32,
}

/// The size of an icon: as large as the screen allows, up to the greatest; where that
/// is less than half of the greatest, what the screen allows, but never nothing.
pub open spec fn fitting_icon_size(available: int, icon_size_max: int) -> int {
    if available >= halved(icon_size_max) {
        if available <= icon_size_max {
            available
        } else {
            icon_size_max
        }
    } else if available >= 1 {
        available
    } else {
        1
    }
}

/// The room that a screen has for each icon.
pub open spec fn available_icon_size(
    num_apps: int,
    border_size: int,
    icon_border: int,
    monitor_width: int,
) -> int {
    truncated(monitor_width - 2 * border_size, num_apps) - icon_border * 2
}

/// The measures of the panel.
pub struct PanelView {
    pub x: int,
    pub y: int,
    pub width: int,
    pub height: int,
    pub icon_size: int,
    pub item_size: int,
}

impl View for Coordinate {
    type V = PanelView;

    open spec fn view(&self) -> PanelView {
        PanelView {
            x: self.x as int,
            y: self.y as int,
            width: self.width as int,
            height: self.height as int,
            icon_size: self.icon_size as int,
            item_size: self.item_size as int,
        }
    }
}

/// The panel in the middle of a screen: a row of items, each an icon with a border
/// around it, and a border around the row.
pub open spec fn panel(
    num_apps: int,
    icon_size_max: int,
    border_size: int,
    icon_border: int,
    monitor: ScreenRect,
) -> PanelView {
    let monitor_width = monitor.right - monitor.left;
    let monitor_height = monitor.bottom - monitor.top;
    let icon_size = fitting_icon_size(
        available_icon_size(num_apps, border_size, icon_border, monitor_width),
        icon_size_max,
    );
    let item_size = icon_size + icon_border * 2;
    let width = item_size * num_apps + border_size * 2;
    let height = item_size + border_size * 2;
    PanelView {
        x: monitor.left + halved(monitor_width - width),
        y: monitor.top + halved(monitor_height - height),
        width,
        height,
        icon_size,
        item_size,
    }
}

/// Every length on the way to the panel's measures fits in 32 bits.
pub open spec fn panel_fits(
    num_apps: int,
    icon_size_max: int,
    border_size: int,
    icon_border: int,
    monitor: ScreenRect,
) -> bool {
    let monitor_width = monitor.right - monitor.left;
    let monitor_height = monitor.bottom - monitor.top;
    let view = panel(num_apps, icon_size_max, border_size, icon_border, monitor);
    &&& num_apps != 0
    &&& fits(monitor_width)
    &&& fits(monitor_height)
    &&& fits(2 * border_size)
    &&& fits(monitor_width - 2 * border_size)
    &&& fits(truncated(monitor_width - 2 * border_size, num_apps))
    &&& fits(icon_border * 2)
    &&& fits(available_icon_size(num_apps, border_size, icon_border, monitor_width))
    &&& fits(view.item_size)
    &&& fits(view.item_size * num_apps)
    &&& fits(view.width)
    &&& fits(view.height)
    &&& fits(monitor_width - view.width)
    &&& fits(monitor_height - view.height)
    &&& fits(view.x)
    &&& fits(view.y)
}

impl Coordinate {
    pub fn new(
        num_apps: i32,
        icon_size_max: i32,
        border_size: i32,
        icon_border: i32,
        monitor: ScreenRect,
    ) -> (coordinate: Self)
        requires
            panel_fits(
                num_apps as int,
                icon_size_max as int,
                border_size as int,
                icon_border as int,
                monitor,
            ),
        ensures
            coordinate@ == panel(
                num_apps as int,
                icon_size_max as int,
                border_size as int,
                icon_border as int,
                monitor,
            ),
    {
        let monitor_width: i32 = monitor.right - monitor.left;
        let monitor_height: i32 = monitor.bottom - monitor.top;
        let room: i32 = (monitor_width - 2 * border_size) / num_apps;
        assert(room == truncated(monitor_width - 2 * border_size, num_apps as int));
        let available: i32 = room - icon_border * 2;
        let min_icon_size: i32 = icon_size_max / 2;
        let icon_size: i32 = if available >= min_icon_size {
            if available <= icon_size_max {
                available
            } else {
                icon_size_max
            }
        } else if available >= 1 {
            available
        } else {
            1
        };
        let item_size: i32 = icon_size + icon_border * 2;
        let width: i32 = item_size * num_apps + border_size * 2;
        let height: i32 = item_size + border_size * 2;
        let x: i32 = monitor.left + (monitor_width - width) / 2;
        let y: i32 = monitor.top + (monitor_height - height) / 2;
        Coordinate { x, y, width, height, icon_size, item_size }
    }
}

/// The item of a row that a point belongs to, the point being given from the row's top
/// left corner.
pub open spec fn item_at(x: int, y: int, item_size: int, app_count: int) -> Option<int> {
    if item_size <= 0 || x < 0 || y < 0 || y >= item_size || x / item_size >= app_count {
        None
    } else {
        Some(x / item_size)
    }
}

pub open spec fn place_of(index: Option<usize>) -> Option<int> {
    match index {
        Some(index) => Some(index as int),
        None => None,
    }
}

/// The application that a point of the screen belongs to, in a panel whose top left
/// corner is `panel_origin`. The border belongs to none.
pub fn app_item_index_at(
    pointer_position: (i32, i32),
    panel_origin: (i32, i32),
    border_size: i32,
    item_size: i32,
    app_count: usize,
) -> (index: Option<usize>)
    requires
        item_size > 0 ==> {
            &&& fits(pointer_position.0 - panel_origin.0)
            &&& fits(pointer_position.0 - panel_origin.0 - border_size)
            &&& fits(pointer_position.1 - panel_origin.1)
            &&& fits(pointer_position.1 - panel_origin.1 - border_size)
        },
    ensures
        place_of(index) == item_at(
            pointer_position.0 - panel_origin.0 - border_size,
            pointer_position.1 - panel_origin.1 - border_size,
            item_size as int,
            app_count as int,
        ),
{
    if item_size <= 0 {
        return None;
    }
    let x: i32 = pointer_position.0 - panel_origin.0 - border_size;
    let y: i32 = pointer_position.1 - panel_origin.1 - border_size;
    if x < 0 || y < 0 || y >= item_size {
        return None;
    }
    let index: usize = (x / item_size) as usize;
    if index < app_count {
        Some(index)
    } else {
        None
    }
}

/// The size of an item, by the width of the panel that it was drawn in.
pub open spec fn drawn_item_size(panel_width: int, border_size: int, app_count: usize) -> int {
    truncated(panel_width - border_size * 2, app_count as i32 as int)
}

/// The lengths in a panel of this width can be told in 32 bits.
pub open spec fn panel_is_measurable(
    pointer_position: (i32, i32),
    panel_width: int,
    border_size: int,
    app_count: usize,
) -> bool {
    app_count > 0 ==> {
        &&& app_count as i32 != 0
        &&& fits(border_size * 2)
        &&& fits(panel_width - border_size * 2)
        &&& fits(drawn_item_size(panel_width, border_size, app_count))
        &&& drawn_item_size(panel_width, border_size, app_count) > 0 ==> {
            &&& fits(pointer_position.0 - border_size)
            &&& fits(pointer_position.1 - border_size)
        }
    }
}

/// The application that a point of the panel belongs to.
pub open spec fn panel_item_at(
    pointer_position: (i32, i32),
    panel_width: int,
    border_size: int,
    app_count: usize,
) -> Option<int> {
    if app_count == 0 {
        None
    } else {
        item_at(
            pointer_position.0 - border_size,
            pointer_position.1 - border_size,
            drawn_item_size(panel_width, border_size, app_count),
            app_count as int,
        )
    }
}

/// The application that a point of the panel belongs to, given the width of the panel.
pub fn app_item_index_in_panel(
    pointer_position: (i32, i32),
    panel_width: i32,
    border_size: i32,
    app_count: usize,
) -> (index: Option<usize>)
    requires
        panel_is_measurable(pointer_position, panel_width as int, border_size as int, app_count),
    ensures
        place_of(index) == panel_item_at(
            pointer_position,
            panel_width as int,
            border_size as int,
            app_count,
        ),
{
    if app_count == 0 {
        return None;
    }
    let item_size: i32 = (panel_width - border_size * 2) / app_count as i32;
    app_item_index_at(pointer_position, (0, 0), border_size, item_size, app_count)
}

/// The bytes of a surface of four bytes a pixel; nothing for a surface without pixels.
pub fn surface_len(width: i32, height: i32) -> (len: Option<usize>)
    requires
        width > 0 && height > 0 ==> width * height * 4 <= i32::MAX,
    ensures
        len == if width <= 0 || height <= 0 {
            None
        } else {
            Some((width * height * 4) as usize)
        },
{
    if width <= 0 || height <= 0 {
        return None;
    }
    assert(1 <= width * height) by (nonlinear_arith)
        requires
            width > 0,
            height > 0,
    ;
    Some((width * height * 4) as usize)
}

/// What to draw of the panel but for its icons.
pub struct PaintPlan {
    pub coordinate: Coordinate,
    pub border_size: i32,
    pub icon_border: i32,
    pub rounded_corner: bool,
    /// Zero for a panel with square corners.
    pub corner_radius: i32,
    pub fg_color: u32,
    pub bg_color: u32,
    pub icons_width: i32,
    pub icons_height: i32,
}

/// What does the painting: how it draws corners, and whether the panel is on the
/// screen.
pub struct GdiAAPainter {
    pub rounded_corner: bool,
    pub show: bool,
}

impl GdiAAPainter {
    pub fn new(rounded_corner: bool) -> (painter: Self)
        ensures
            painter == (GdiAAPainter { rounded_corner, show: false }),
    {
        GdiAAPainter { rounded_corner, show: false }
    }

    /// What to draw for a number of applications, at a resolution, on a screen.
    pub fn paint(
        &self,
        app_count: usize,
        dpi: u32,
        monitor: ScreenRect,
        light_theme: bool,
    ) -> (plan: PaintPlan)
        requires
            panel_fits(
                app_count as i32 as int,
                scaled_by_dpi(ICON_SIZE_BASE as int, dpi),
                scaled_by_dpi(WINDOW_BORDER_SIZE_BASE as int, dpi),
                scaled_by_dpi(ICON_BORDER_SIZE_BASE as int, dpi),
                monitor,
            ),
        ensures
            plan.coordinate@ == panel(
                app_count as i32 as int,
                scaled_by_dpi(ICON_SIZE_BASE as int, dpi),
                scaled_by_dpi(WINDOW_BORDER_SIZE_BASE as int, dpi),
                scaled_by_dpi(ICON_BORDER_SIZE_BASE as int, dpi),
                monitor,
            ),
            plan.border_size == scaled_by_dpi(WINDOW_BORDER_SIZE_BASE as int, dpi),
            plan.icon_border == scaled_by_dpi(ICON_BORDER_SIZE_BASE as int, dpi),
            plan.rounded_corner == self.rounded_corner,
            plan.corner_radius == if self.rounded_corner {
                truncated(plan.coordinate.item_size as int, 4)
            } else {
                0
            },
            (plan.fg_color, plan.bg_color) == if light_theme {
                (FG_LIGHT_COLOR, BG_LIGHT_COLOR)
            } else {
                (FG_DARK_COLOR, BG_DARK_COLOR)
            },
            plan.icons_width == plan.coordinate.item_size * (app_count as i32),
            plan.icons_height == plan.coordinate.item_size,
    {
        let icon_size_max: i32 = scale_by_dpi(ICON_SIZE_BASE, dpi);
        let border_size: i32 = scale_by_dpi(WINDOW_BORDER_SIZE_BASE, dpi);
        let icon_border: i32 = scale_by_dpi(ICON_BORDER_SIZE_BASE, dpi);
        let num_apps: i32 = app_count as i32;
        let coordinate = Coordinate::new(
            num_apps,
            icon_size_max,
            border_size,
            icon_border,
            monitor,
        );
        let corner_radius: i32 = if self.rounded_corner {
            coordinate.item_size / 4
        } else {
            0
        };
        let (fg_color, bg_color): (u32, u32) = theme_color(light_theme);
        PaintPlan {
            coordinate,
            border_size,
            icon_border,
            rounded_corner: self.rounded_corner,
            corner_radius,
            fg_color,
            bg_color,
            icons_width: coordinate.item_size * num_apps,
            icons_height: coordinate.item_size,
        }
    }

    /// Takes note that the panel has been drawn. Tells whether it has to be brought up
    /// on the screen, which it has to be once.
    pub fn painted(&mut self) -> (bring_up: bool)
        ensures
            *final(self) == (GdiAAPainter { show: true, ..*old(self) }),
            bring_up == !old(self).show,
    {
        if self.show {
            return false;
        }
        self.show = true;
        true
    }

    /// Takes note that the panel is gone from the screen.
    pub fn unpaint(&mut self)
        ensures
            *final(self) == (GdiAAPainter { show: false, ..*old(self) }),
    {
        self.show = false;
    }

    /// The application that a point of the panel belongs to, `client` being the panel
    /// as the system has it.
    pub fn find_app_index_at_client<H, B>(
        &self,
        state: &SwitchAppsState<H, B>,
        pointer_position: (i32, i32),
        dpi: u32,
        client: ScreenRect,
    ) -> (index: Option<usize>)
        requires
            fits(client.right - client.left),
            panel_is_measurable(
                pointer_position,
                client.right - client.left,
                scaled_by_dpi(WINDOW_BORDER_SIZE_BASE as int, dpi),
                state.apps@.len() as usize,
            ),
        ensures
            place_of(index) == panel_item_at(
                pointer_position,
                client.right - client.left,
                scaled_by_dpi(WINDOW_BORDER_SIZE_BASE as int, dpi),
                state.apps@.len() as usize,
            ),
            index matches Some(index) ==> index < state.apps@.len(),
    {
        let border_size: i32 = scale_by_dpi(WINDOW_BORDER_SIZE_BASE, dpi);
        app_item_index_in_panel(
            pointer_position,
            client.right - client.left,
            border_size,
            state.apps.len(),
        )
    }
}

/// The measures of the icons as they are drawn, before they are scaled down.
#[derive(Clone, Copy, Debug, PartialEq, Eq, Structural)]
pub struct IconsLayout {
    pub width: i32,
    pub height: i32,
    pub corner_radius: i32,
    pub border_size: i32,
    pub inner_size: i32,
    pub outer_size: i32,
}

/// Where an icon is drawn, and which of its images.
#[derive(Clone, Copy, Debug, PartialEq, Eq, Structural)]
pub struct PlacedIcon {
    pub x: i32,
    pub candidate: usize,
}

/// What to draw of the icons.
pub struct IconsPlan {
    pub layout: IconsLayout,
    /// The box behind the icon that is highlighted.
    pub highlight: Option<ScreenRect>,
    /// The icons, by application. An icon without images is not drawn.
    pub icons: Vec<Option<PlacedIcon>>,
}

/// The measures of the icons fit in 32 bits, as far as something is drawn.
pub open spec fn icons_fit<H, B>(
    state: SwitchAppsState<H, B>,
    icon_size: int,
    icon_border: int,
    width: int,
    height: int,
    corner_radius: int,
) -> bool {
    let outer = icon_size * SCALE_FACTOR + icon_border * SCALE_FACTOR * 2;
    &&& fits(width * SCALE_FACTOR)
    &&& fits(height * SCALE_FACTOR)
    &&& fits(corner_radius * SCALE_FACTOR)
    &&& fits(icon_border * SCALE_FACTOR)
    &&& fits(icon_border * SCALE_FACTOR * 2)
    &&& fits(icon_size * SCALE_FACTOR)
    &&& fits(outer)
    &&& state.apps@.len() <= i32::MAX
    &&& state.interaction.displayed() < state.apps@.len() ==> {
        &&& fits(outer * state.interaction.displayed())
        &&& fits(outer * state.interaction.displayed() + outer)
    }
    &&& forall|i: int|
        0 <= i < state.apps@.len() && (#[trigger] state.apps@[i]).0.candidates@.len() > 0 ==> {
            &&& fits(outer * i)
            &&& fits(icon_border * SCALE_FACTOR + outer * i)
        }
}

/// An icon is drawn by the image that is selected for the size of the row.
pub open spec fn is_placed<H, B>(
    icon: AppIcon<H, B>,
    layout: IconsLayout,
    i: int,
    placed: Option<PlacedIcon>,
) -> bool {
    match placed {
        Some(placed) => {
            &&& placed.x == layout.border_size + layout.outer_size * i
            &&& is_selected(
                icon.extents(),
                desired_size(layout.inner_size),
                placed.candidate as int,
            )
        },
        None => icon.candidates@.len() == 0,
    }
}

/// What to draw of the icons: a box behind the one that is highlighted, and each icon
/// in its place.
pub fn draw_icons<H, B>(
    state: &SwitchAppsState<H, B>,
    icon_size: i32,
    icon_border: i32,
    width: i32,
    height: i32,
    corner_radius: i32,
) -> (plan: IconsPlan)
    requires
        forall|i: int| 0 <= i < state.apps@.len() ==> (#[trigger] state.apps@[i]).0.wf(),
        icons_fit(
            *state,
            icon_size as int,
            icon_border as int,
            width as int,
            height as int,
            corner_radius as int,
        ),
    ensures
        plan.layout.width == width * SCALE_FACTOR,
        plan.layout.height == height * SCALE_FACTOR,
        plan.layout.corner_radius == corner_radius * SCALE_FACTOR,
        plan.layout.border_size == icon_border * SCALE_FACTOR,
        plan.layout.inner_size == icon_size * SCALE_FACTOR,
        plan.layout.outer_size == plan.layout.inner_size + 2 * plan.layout.border_size,
        match plan.highlight {
            Some(rect) => {
                let index = state.interaction.displayed();
                &&& index < state.apps@.len()
                &&& rect.left == plan.layout.outer_size * index
                &&& rect.top == 0
                &&& rect.right == rect.left + plan.layout.outer_size
                &&& rect.bottom == plan.layout.outer_size
            },
            None => state.interaction.displayed() >= state.apps@.len(),
        },
        plan.icons@.len() == state.apps@.len(),
        forall|i: int|
            0 <= i < state.apps@.len() ==> is_placed(
                *state.apps@[i].0,
                plan.layout,
                i,
                #[trigger] plan.icons@[i],
            ),
{
    let layout = IconsLayout {
        width: width * SCALE_FACTOR,
        height: height * SCALE_FACTOR,
        corner_radius: corner_radius * SCALE_FACTOR,
        border_size: icon_border * SCALE_FACTOR,
        inner_size: icon_size * SCALE_FACTOR,
        outer_size: icon_size * SCALE_FACTOR + icon_border * SCALE_FACTOR * 2,
    };
    let displayed: usize = state.displayed_index();
    let mut highlight: Option<ScreenRect> = None;
    let mut icons: Vec<Option<PlacedIcon>> = Vec::new();
    let mut i: usize = 0;
    while i < state.apps.len()
        invariant
            i <= state.apps@.len() <= i32::MAX,
            displayed == state.interaction.displayed(),
            forall|j: int| 0 <= j < state.apps@.len() ==> (#[trigger] state.apps@[j]).0.wf(),
            displayed < state.apps@.len() ==> {
                &&& fits(layout.outer_size * displayed)
                &&& fits(layout.outer_size * displayed + layout.outer_size)
            },
            forall|j: int|
                0 <= j < state.apps@.len() && (#[trigger] state.apps@[j]).0.candidates@.len() > 0
                    ==> {
                    &&& fits(layout.outer_size * j)
                    &&& fits(layout.border_size + layout.outer_size * j)
                },
            match highlight {
                Some(rect) => {
                    &&& displayed < i
                    &&& rect.left == layout.outer_size * displayed
                    &&& rect.top == 0
                    &&& rect.right == rect.left + layout.outer_size
                    &&& rect.bottom == layout.outer_size
                },
                None => displayed >= i,
            },
            icons@.len() == i,
            forall|j: int|
                0 <= j < i ==> is_placed(*state.apps@[j].0, layout, j, #[trigger] icons@[j]),
        decreases state.apps@.len() - i,
    {
        if i == displayed {
            let left: i32 = layout.outer_size * (i as i32);
            highlight = Some(
                ScreenRect {
                    left,
                    top: 0,
                    right: left + layout.outer_size,
                    bottom: layout.outer_size,
                },
            );
        }
        assert(state.apps@[i as int].0.wf());
        match state.apps[i].0.selected_index(layout.inner_size) {
            Some(candidate) => {
                let x: i32 = layout.border_size + layout.outer_size * (i as i32);
                icons.push(Some(PlacedIcon { x, candidate }));
            },
            None => {
                icons.push(None);
            },
        }
        i += 1;
    }
    IconsPlan { layout, highlight, icons }
}

/// A point over an item of a panel that was laid out for some applications belongs to
/// the application of that item.
pub proof fn points_belong_to_the_item_drawn_there(
    app_count: usize,
    icon_size_max: int,
    border_size: int,
    icon_border: int,
    monitor: ScreenRect,
    index: int,
    pointer_position: (i32, i32),
)
    requires
        0 <= index < app_count <= i32::MAX,
        ({
            let view = panel(app_count as int, icon_size_max, border_size, icon_border, monitor);
            let left = border_size + index * view.item_size;
            &&& view.item_size > 0
            &&& left <= pointer_position.0 < left + view.item_size
            &&& border_size <= pointer_position.1 < border_size + view.item_size
        }),
    ensures
        ({
            let view = panel(app_count as int, icon_size_max, border_size, icon_border, monitor);
            &&& drawn_item_size(view.width, border_size, app_count) == view.item_size
            &&& panel_item_at(pointer_position, view.width, border_size, app_count) == Some(index)
        }),
{
    let view = panel(app_count as int, icon_size_max, border_size, icon_border, monitor);
    let item = view.item_size;
    let n = app_count as int;
    assert(item * n >= 0 && (item * n) / n == item) by (nonlinear_arith)
        requires
            item > 0,
            n > 0,
    ;
    let x = pointer_position.0 - border_size;
    assert(x >= 0 && x / item == index) by (nonlinear_arith)
        requires
            item > 0,
            index >= 0,
            index * item <= x < index * item + item,
    ;
}

/// A point on the border of the panel, or beside its items, belongs to no application.
pub proof fn points_on_the_border_belong_to_none(
    app_count: usize,
    icon_size_max: int,
    border_size: int,
    icon_border: int,
    monitor: ScreenRect,
    pointer_position: (i32, i32),
)
    requires
        0 < app_count <= i32::MAX,
        ({
            let view = panel(app_count as int, icon_size_max, border_size, icon_border, monitor);
            &&& view.item_size > 0
            &&& pointer_position.0 < border_size || pointer_position.0 >= view.width - border_size
                || pointer_position.1 < border_size || pointer_position.1 >= view.height
                - border_size
        }),
    ensures
        ({
            let view = panel(app_count as int, icon_size_max, border_size, icon_border, monitor);
            panel_item_at(pointer_position, view.width, border_size, app_count) is None
        }),
{
    let view = panel(app_count as int, icon_size_max, border_size, icon_border, monitor);
    let item = view.item_size;
    let n = app_count as int;
    assert(item * n >= 0 && (item * n) / n == item) by (nonlinear_arith)
        requires
            item > 0,
            n > 0,
    ;
    let x = pointer_position.0 - border_size;
    if x >= item * n {
        assert(x / item >= n) by (nonlinear_arith)
            requires
                item > 0,
                x >= item * n,
        ;
    }
}

/// Where a screen has room for icons at all, the panel is no wider than the screen.
pub proof fn panel_stays_on_the_screen(
    num_apps: int,
    icon_size_max: int,
    border_size: int,
    icon_border: int,
    monitor: ScreenRect,
)
    requires
        num_apps > 0,
        available_icon_size(num_apps, border_size, icon_border, monitor.right - monitor.left) >= 1,
        monitor.right - monitor.left >= 2 * border_size,
    ensures
        ({
            let view = panel(num_apps, icon_size_max, border_size, icon_border, monitor);
            &&& view.width <= monitor.right - monitor.left
            &&& monitor.left <= view.x
            &&& view.x + view.width <= monitor.right
        }),
{
    let view = panel(num_apps, icon_size_max, border_size, icon_border, monitor);
    let room = monitor.right - monitor.left - 2 * border_size;
    assert(view.item_size <= room / num_apps);
    assert(view.item_size * num_apps <= room) by (nonlinear_arith)
        requires
            num_apps > 0,
            view.item_size <= room / num_apps,
    ;
}

/// The icons of a panel are drawn as large as its items, only enlarged: the row takes
/// the whole surface, each icon its own item, and the highlight the item that it is
/// for.
pub proof fn icons_are_drawn_in_their_items(
    item_size: int,
    icon_size: int,
    icon_border: int,
    app_count: int,
    i: int,
)
    requires
        item_size == icon_size + icon_border * 2,
        icon_size >= 0,
        icon_border >= 0,
        0 <= i < app_count,
    ensures
        ({
            let outer = icon_size * SCALE_FACTOR + 2 * (icon_border * SCALE_FACTOR);
            let left = icon_border * SCALE_FACTOR + outer * i;
            &&& outer == item_size * SCALE_FACTOR
            &&& (item_size * app_count) * SCALE_FACTOR == outer * app_count
            &&& outer * i <= left
            &&& left + icon_size * SCALE_FACTOR <= outer * (i + 1) <= outer * app_count
        }),
{
    let outer = icon_size * SCALE_FACTOR + 2 * (icon_border * SCALE_FACTOR);
    assert((item_size * app_count) * 6 == (item_size * 6) * app_count) by (nonlinear_arith);
    assert(outer * (i + 1) == outer * i + outer && outer * (i + 1) <= outer * app_count)
        by (nonlinear_arith)
        requires
            outer >= 0,
            i + 1 <= app_count,
    ;
}

} // verus!
