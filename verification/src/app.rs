//! The switcher as a whole: its state, and what it does about each message.
use indexmap::IndexMap;
use std::rc::Rc;
use vstd::hash_map::StringHashMap;
use vstd::prelude::*;

use crate::app_icon::AppIcon;
use crate::collections::{clone_text_map, text_entries};
use crate::fixed_order::{
    merge_fixed_order, merged_order, merged_order_has_the_visible_windows, rotate_fixed_order,
    rotated,
};
use crate::messages::Message;
use crate::painter::{
    fits, panel_is_measurable, panel_item_at, scaled_by_dpi, GdiAAPainter, ScreenRect,
    WINDOW_BORDER_SIZE_BASE,
};
use crate::sequences::{first_position, lemma_first_position, lemma_same_members_same_len};
use crate::switch_apps::{
    app_views, are_distinct, gathered, group_views, looked_up_icons_are_those_missing,
    missing_places, opening_index, shown_icons_are_kept, AppGroup, CachedView, GroupView, IconCache,
    SwitchAppsInteractionState, SwitchAppsState,
};
use crate::switch_windows::{
    find_group, group_place, held_list_has_the_present_windows, next_fixed_cycle,
    next_recent_cycle, steps_stay_in_the_group, CycleView, SwitchWindowsState, WindowCycle,
    WindowGroup,
};
use crate::text::{ascii_lowered, file_name, parts, path_file_name, path_parts, text_eq, texts};

verus! {

/// What the configuration says about switching.
pub struct Config {
    pub trayicon: bool,
    pub switch_windows_ignore_minimal: bool,
    pub switch_windows_only_current_desktop: bool,
    /// The executables, in small letters, whose windows keep a stable order.
    pub switch_windows_fixed_order: Vec<String>,
    pub switch_apps_ignore_minimal: bool,
    pub switch_apps_only_current_desktop: bool,
    /// Icon files, by a part of the application's path.
    pub switch_apps_override_icons: IndexMap<String, String>,
}

/// The content of a `Config`.
pub struct ConfigView {
    pub trayicon: bool,
    pub switch_windows_ignore_minimal: bool,
    pub switch_windows_only_current_desktop: bool,
    pub switch_windows_fixed_order: Seq<Seq<char>>,
    pub switch_apps_ignore_minimal: bool,
    pub switch_apps_only_current_desktop: bool,
    pub switch_apps_override_icons: Seq<(Seq<char>, Seq<char>)>,
}

impl View for Config {
    type V = ConfigView;

    open spec fn view(&self) -> ConfigView {
        ConfigView {
            trayicon: self.trayicon,
            switch_windows_ignore_minimal: self.switch_windows_ignore_minimal,
            switch_windows_only_current_desktop: self.switch_windows_only_current_desktop,
            switch_windows_fixed_order: texts(self.switch_windows_fixed_order@),
            switch_apps_ignore_minimal: self.switch_apps_ignore_minimal,
            switch_apps_only_current_desktop: self.switch_apps_only_current_desktop,
            switch_apps_override_icons: text_entries(self.switch_apps_override_icons),
        }
    }
}

fn copy_texts(strings: &Vec<String>) -> (copy: Vec<String>)
    ensures
        texts(copy@) == texts(strings@),
{
    let mut copy: Vec<String> = Vec::new();
    let mut i: usize = 0;
    while i < strings.len()
        invariant
            i <= strings@.len(),
            copy@.len() == i,
            forall|j: int| 0 <= j < i ==> (#[trigger] copy@[j])@ == strings@[j]@,
        decreases strings@.len() - i,
    {
        copy.push(strings[i].clone());
        i += 1;
    }
    assert(texts(copy@) =~= texts(strings@));
    copy
}

impl Config {
    /// A configuration with the same content.
    pub fn duplicate(&self) -> (copy: Self)
        ensures
            copy@ == self@,
    {
        Config {
            trayicon: self.trayicon,
            switch_windows_ignore_minimal: self.switch_windows_ignore_minimal,
            switch_windows_only_current_desktop: self.switch_windows_only_current_desktop,
            switch_windows_fixed_order: copy_texts(&self.switch_windows_fixed_order),
            switch_apps_ignore_minimal: self.switch_apps_ignore_minimal,
            switch_apps_only_current_desktop: self.switch_apps_only_current_desktop,
            switch_apps_override_icons: clone_text_map(&self.switch_apps_override_icons),
        }
    }
}

/// The switcher. `H` and `B` are the handles of icons and of bitmaps.
#[verifier::reject_recursive_types(H)]
#[verifier::reject_recursive_types(B)]
pub struct App<H, B> {
    pub is_admin: bool,
    pub has_trayicon: bool,
    pub config: Config,
    pub switch_windows_state: SwitchWindowsState,
    pub fixed_order_windows: StringHashMap<Vec<isize>>,
    pub switch_apps_state: Option<SwitchAppsState<H, B>>,
    pub cached_icons: IconCache<H, B>,
    pub painter: GdiAAPainter,
}

/// Starts the switcher: nothing is open, no walk is held, and nothing is remembered.
pub fn start<H, B>(config: &Config, is_admin: bool, rounded_corner: bool) -> (app: App<H, B>)
    ensures
        app.is_admin == is_admin,
        app.has_trayicon == config.trayicon,
        app.config@ == config@,
        app.switch_windows_state.cache is None,
        app.switch_windows_state.modifier_released,
        app.fixed_orders() == Map::<Seq<char>, Seq<isize>>::empty(),
        app.switch_apps_state is None,
        app.cached_icons@ == Map::<Seq<char>, CachedView<H, B>>::empty(),
        app.painter == (GdiAAPainter { rounded_corner, show: false }),
        app.wf(),
{
    App::start(config, is_admin, rounded_corner)
}

/// The windows of an executable keep a stable order: the executable's name is in the
/// list.
pub open spec fn uses_fixed_order(fixed_order: Seq<Seq<char>>, app_path: Seq<char>) -> bool {
    fixed_order.contains(ascii_lowered(file_name(parts(app_path)[0])))
}

/// The stable order of an application's windows, once those that are there now have
/// been merged into it.
pub open spec fn stable_order(
    orders: Map<Seq<char>, Seq<isize>>,
    app_path: Seq<char>,
    windows: Seq<isize>,
) -> Seq<isize> {
    merged_order(
        if orders.contains_key(app_path) {
            orders[app_path]
        } else {
            Seq::empty()
        },
        windows,
    )
}

/// The content of the stable orders.
pub open spec fn order_views(orders: Map<Seq<char>, Vec<isize>>) -> Map<Seq<char>, Seq<isize>> {
    orders.map_values(|order: Vec<isize>| order@)
}

/// No order has a window twice.
pub open spec fn repeat_nothing(orders: Map<Seq<char>, Seq<isize>>) -> bool {
    forall|path: Seq<char>|
        orders.contains_key(path) ==> (#[trigger] orders[path]).no_duplicates()
}

/// The application that has the window `hwnd` lists no window twice.
pub open spec fn group_repeats_nothing(groups: Seq<WindowGroup>, hwnd: isize) -> bool {
    group_place(groups, hwnd) < groups.len() ==> groups[group_place(
        groups,
        hwnd,
    )].windows@.no_duplicates()
}

/// The walk that a step leads to.
pub open spec fn next_cycle(
    last: Option<CycleView>,
    released: bool,
    fixed: bool,
    orders: Map<Seq<char>, Seq<isize>>,
    app_path: Seq<char>,
    windows: Seq<isize>,
    hwnd: isize,
    reverse: bool,
) -> Option<CycleView> {
    if fixed {
        let order = stable_order(orders, app_path, windows);
        next_fixed_cycle(
            last,
            released,
            app_path,
            rotated(order, first_position(order, hwnd)),
            hwnd,
            reverse,
        )
    } else {
        next_recent_cycle(last, released, app_path, windows, reverse)
    }
}

/// What the switcher's surroundings have to do about a message.
#[derive(Clone, Copy, Debug, PartialEq, Eq)]
pub enum Action {
    Nothing,
    /// Show the menu of the tray icon.
    ShowMenu,
    /// Find out where the pointer is and walk on in the panel.
    Navigate { reverse: bool },
    /// List the windows and open the panel.
    OpenApps { reverse: bool, ignore_minimal: bool, only_current_desktop: bool, is_admin: bool },
    /// Take the panel off the screen, and bring a window to the front, if one is named.
    Close { foreground: Option<isize> },
    /// List the windows and walk through those of the application that has the window
    /// `of`, or that is in front.
    WalkWindows {
        reverse: bool,
        of: Option<isize>,
        ignore_minimal: bool,
        only_current_desktop: bool,
        is_admin: bool,
    },
    /// Find out where the panel is and what was clicked.
    FindClicked { position: (i32, i32) },
    /// Find out where the panel and the pointer are, and what lies under it.
    FindHovered { position: (i32, i32) },
    /// Paint the panel anew.
    Repaint,
    /// Take the panel off the screen and put the tray icon in place, as each is asked
    /// for.
    RenewTrayIcon { close: bool, register: bool },
    /// Leave the program.
    Exit,
    /// Turn starting with the session on or off.
    ToggleStartup,
    /// Let the configuration be edited.
    Configure,
}

impl<H, B> App<H, B> {
    /// The panel, while it is open, can be drawn; only an open one is on the screen; and
    /// no stable order repeats a window.
    pub open spec fn wf(self) -> bool {
        &&& self.switch_apps_state matches Some(state) ==> state.wf()
        &&& self.painter.show ==> self.switch_apps_state is Some
        &&& self.cached_icons.wf()
        &&& repeat_nothing(order_views(self.fixed_order_windows@))
    }

    /// The stable orders, by application.
    pub open spec fn fixed_orders(self) -> Map<Seq<char>, Seq<isize>> {
        order_views(self.fixed_order_windows@)
    }

    pub fn start(config: &Config, is_admin: bool, rounded_corner: bool) -> (app: Self)
        ensures
            app.is_admin == is_admin,
            app.has_trayicon == config.trayicon,
            app.config@ == config@,
            app.switch_windows_state.cache is None,
            app.switch_windows_state.modifier_released,
            app.fixed_orders() == Map::<Seq<char>, Seq<isize>>::empty(),
            app.switch_apps_state is None,
            app.cached_icons@ == Map::<Seq<char>, CachedView<H, B>>::empty(),
            app.painter == (GdiAAPainter { rounded_corner, show: false }),
            app.wf(),
    {
        let app = App {
            is_admin,
            has_trayicon: config.trayicon,
            config: config.duplicate(),
            switch_windows_state: SwitchWindowsState { cache: None, modifier_released: true },
            fixed_order_windows: StringHashMap::new(),
            switch_apps_state: None,
            cached_icons: IconCache::new(),
            painter: GdiAAPainter::new(rounded_corner),
        };
        assert(app.fixed_orders() =~= Map::<Seq<char>, Seq<isize>>::empty());
        app
    }

    /// Whether the windows of an application keep a stable order.
    pub fn uses_fixed_window_order(&self, app_path: &str) -> (uses: bool)
        ensures
            uses == uses_fixed_order(self.config@.switch_windows_fixed_order, app_path@),
    {
        let pieces: Vec<String> = path_parts(app_path);
        assert(parts(app_path@)[0] == pieces@[0]@);
        let exe: String = path_file_name(pieces[0].as_str()).as_str().to_ascii_lowercase();
        let ghost fixed = texts(self.config.switch_windows_fixed_order@);
        let mut i: usize = 0;
        while i < self.config.switch_windows_fixed_order.len()
            invariant
                i <= self.config.switch_windows_fixed_order@.len(),
                fixed == texts(self.config.switch_windows_fixed_order@),
                exe@ == ascii_lowered(file_name(parts(app_path@)[0])),
                forall|j: int| 0 <= j < i ==> #[trigger] fixed[j] != exe@,
            decreases self.config.switch_windows_fixed_order@.len() - i,
        {
            assert(fixed[i as int] == self.config.switch_windows_fixed_order@[i as int]@);
            if text_eq(self.config.switch_windows_fixed_order[i].as_str(), exe.as_str()) {
                return true;
            }
            i += 1;
        }
        false
    }

    /// What follows from an attempt to put the tray icon in place: the seconds after which
    /// the message that asks for it is to come again. That is so where the attempt failed
    /// and the icon is not there; without a tray icon there is nothing to put in place.
    pub fn set_trayicon(&self, registered: bool, is_there: bool) -> (retry: Option<u64>)
        ensures
            retry == if self.has_trayicon && !registered && !is_there {
                Some(3u64)
            } else {
                None
            },
    {
        if self.has_trayicon && !registered && !is_there {
            Some(3)
        } else {
            None
        }
    }

    /// The list of the last walk repeats no window.
    pub open spec fn last_walk_repeats_nothing(self) -> bool {
        self.switch_windows_state.last() matches Some(walk) ==> walk.windows.no_duplicates()
    }

    /// The walk that a step from a window leads to; nothing where the window belongs to
    /// no application of the list.
    pub open spec fn next_walk(
        self,
        groups: Seq<WindowGroup>,
        hwnd: isize,
        reverse: bool,
    ) -> Option<CycleView> {
        let place = group_place(groups, hwnd);
        if place >= groups.len() {
            None
        } else {
            let path = groups[place].app_path@;
            next_cycle(
                self.switch_windows_state.last(),
                self.switch_windows_state.modifier_released,
                uses_fixed_order(self.config@.switch_windows_fixed_order, path),
                self.fixed_orders(),
                path,
                groups[place].windows@,
                hwnd,
                reverse,
            )
        }
    }

    /// The stable orders after a step from a window.
    pub open spec fn next_orders(self, groups: Seq<WindowGroup>, hwnd: isize) -> Map<
        Seq<char>,
        Seq<isize>,
    > {
        let place = group_place(groups, hwnd);
        if place < groups.len() && uses_fixed_order(
            self.config@.switch_windows_fixed_order,
            groups[place].app_path@,
        ) {
            let path = groups[place].app_path@;
            self.fixed_orders().insert(
                path,
                stable_order(self.fixed_orders(), path, groups[place].windows@),
            )
        } else {
            self.fixed_orders()
        }
    }

    /// One step through the windows of the application that has the window `hwnd`, among
    /// all windows there are. The window to bring to the front, if there is another.
    pub fn switch_windows(
        &mut self,
        groups: &Vec<WindowGroup>,
        hwnd: isize,
        reverse: bool,
    ) -> (window: Option<isize>)
        requires
            old(self).next_walk(groups@, hwnd, reverse) matches Some(walk) ==> 0 <= walk.index
                < walk.windows.len(),
        ensures
            final(self).fixed_orders() == old(self).next_orders(groups@, hwnd),
            match old(self).next_walk(groups@, hwnd, reverse) {
                Some(walk) => {
                    &&& window == Some(walk.windows[walk.index])
                    &&& final(self).switch_windows_state.last() == Some(walk)
                    &&& !final(self).switch_windows_state.modifier_released
                },
                None => {
                    &&& window is None
                    &&& final(self).switch_windows_state == old(self).switch_windows_state
                },
            },
            *final(self) == (App {
                switch_windows_state: final(self).switch_windows_state,
                fixed_order_windows: final(self).fixed_order_windows,
                ..*old(self)
            }),
            old(self).wf() ==> final(self).wf(),
            old(self).wf() && old(self).last_walk_repeats_nothing() && group_repeats_nothing(
                groups@,
                hwnd,
            ) ==> final(self).last_walk_repeats_nothing(),
    {
        proof {
            lemma_orders_repeat_nothing(*self, groups@, hwnd);
            if self.wf() && self.last_walk_repeats_nothing() && group_repeats_nothing(
                groups@,
                hwnd,
            ) {
                walks_list_the_windows_of_the_application(*self, groups@, hwnd, reverse);
            }
        }
        let group: &WindowGroup = match find_group(groups, hwnd) {
            Some(place) => &groups[place],
            None => {
                return None;
            },
        };
        let next: Option<WindowCycle> = if self.uses_fixed_window_order(group.app_path.as_str()) {
            let list: Vec<isize> = self.merge_order(group, hwnd);
            self.switch_windows_state.step_fixed(&group.app_path, &list, hwnd, reverse)
        } else {
            self.switch_windows_state.step_recent(&group.app_path, &group.windows, reverse)
        };
        match next {
            Some(cycle) => {
                let window: isize = cycle.windows[cycle.index];
                self.switch_windows_state = SwitchWindowsState {
                    cache: Some(cycle),
                    modifier_released: false,
                };
                Some(window)
            },
            None => None,
        }
    }

    /// The second half of a message that walks through windows, once they have been
    /// listed: one step, after which the panel is closed. The window to bring to the
    /// front, if there is another, and whether the panel was open.
    pub fn walk_windows(
        &mut self,
        groups: &Vec<WindowGroup>,
        hwnd: isize,
        reverse: bool,
    ) -> (done: (Option<isize>, bool))
        requires
            old(self).next_walk(groups@, hwnd, reverse) matches Some(walk) ==> 0 <= walk.index
                < walk.windows.len(),
        ensures
            final(self).fixed_orders() == old(self).next_orders(groups@, hwnd),
            match old(self).next_walk(groups@, hwnd, reverse) {
                Some(walk) => {
                    &&& done.0 == Some(walk.windows[walk.index])
                    &&& final(self).switch_windows_state.last() == Some(walk)
                    &&& !final(self).switch_windows_state.modifier_released
                },
                None => {
                    &&& done.0 is None
                    &&& final(self).switch_windows_state == old(self).switch_windows_state
                },
            },
            done.1 == (old(self).switch_apps_state is Some),
            final(self).switch_apps_state is None,
            old(self).switch_apps_state is Some ==> !final(self).painter.show,
            *final(self) == (App {
                switch_windows_state: final(self).switch_windows_state,
                fixed_order_windows: final(self).fixed_order_windows,
                ..old(self).closed()
            }),
            old(self).wf() ==> final(self).wf(),
            old(self).wf() && old(self).last_walk_repeats_nothing() && group_repeats_nothing(
                groups@,
                hwnd,
            ) ==> final(self).last_walk_repeats_nothing(),
    {
        let window: Option<isize> = self.switch_windows(groups, hwnd, reverse);
        let closed: bool = self.cancel_switch_app();
        (window, closed)
    }

    /// Merges the windows of an application into its stable order, and gives that order
    /// from the current window on.
    fn merge_order(&mut self, group: &WindowGroup, hwnd: isize) -> (list: Vec<isize>)
        requires
            group.windows@.contains(hwnd),
        ensures
            final(self).fixed_orders() == old(self).fixed_orders().insert(
                group.app_path@,
                stable_order(old(self).fixed_orders(), group.app_path@, group.windows@),
            ),
            *final(self) == (App {
                fixed_order_windows: final(self).fixed_order_windows,
                ..*old(self)
            }),
            ({
                let order = stable_order(
                    old(self).fixed_orders(),
                    group.app_path@,
                    group.windows@,
                );
                list@ == rotated(order, first_position(order, hwnd))
            }),
    {
        let mut order: Vec<isize> = match self.fixed_order_windows.get(group.app_path.as_str()) {
            Some(order) => vstd::slice::slice_to_vec(order.as_slice()),
            None => Vec::new(),
        };
        merge_fixed_order(&mut order, group.windows.as_slice());
        let ghost merged = stable_order(self.fixed_orders(), group.app_path@, group.windows@);
        assert(order@ == merged);
        proof {
            merged_order_has_the_visible_windows(
                if self.fixed_orders().contains_key(group.app_path@) {
                    self.fixed_orders()[group.app_path@]
                } else {
                    Seq::empty()
                },
                group.windows@,
            );
            lemma_first_position(merged, hwnd);
        }
        let list: Vec<isize> = match rotate_fixed_order(order.as_slice(), hwnd) {
            Some(list) => list,
            None => vstd::slice::slice_to_vec(group.windows.as_slice()),
        };
        self.fixed_order_windows.insert(group.app_path.clone(), order);
        assert(self.fixed_orders() =~= old(self).fixed_orders().insert(group.app_path@, merged));
        list
    }
}

impl<H, B> App<H, B> {
    /// The state with the panel closed.
    pub open spec fn closed(self) -> Self {
        App {
            switch_apps_state: None,
            painter: GdiAAPainter {
                show: self.painter.show && self.switch_apps_state is None,
                ..self.painter
            },
            ..self
        }
    }

    /// A step of the keyboard in the panel. Tells whether the panel is open; a closed
    /// one has to be opened.
    pub fn switch_apps(&mut self, reverse: bool, pointer_position: (i32, i32)) -> (moved: bool)
        ensures
            moved == (old(self).switch_apps_state is Some),
            *final(self) == (App {
                switch_apps_state: match old(self).switch_apps_state {
                    Some(state) => Some(
                        SwitchAppsState {
                            interaction: state.interaction.stepped(
                                state.apps@.len() as int,
                                reverse,
                                pointer_position,
                            ),
                            ..state
                        },
                    ),
                    None => None,
                },
                ..*old(self)
            }),
            old(self).wf() ==> final(self).wf(),
    {
        match &mut self.switch_apps_state {
            Some(state) => {
                state.navigate(reverse, pointer_position);
                true
            },
            None => false,
        }
    }

    /// The places of the applications whose icon has to be looked up before the panel
    /// opens on them.
    pub fn missing_icons(&self, groups: &Vec<AppGroup>) -> (places: Vec<usize>)
        ensures
            places@ == missing_places(group_views(groups@), self.cached_icons@),
    {
        self.cached_icons.missing(groups)
    }

    /// Opens the panel on some applications, with the icons that were looked up for
    /// those that miss one. Without applications it stays closed.
    pub fn open_switch_apps(
        &mut self,
        groups: &Vec<AppGroup>,
        looked_up: Vec<AppIcon<H, B>>,
        reverse: bool,
        pointer_position: (i32, i32),
    )
        requires
            old(self).wf(),
            old(self).switch_apps_state is None,
            forall|i: int| 0 <= i < groups@.len() ==> (#[trigger] groups@[i]).windows@.len() > 0,
            are_distinct(group_views(groups@)),
            looked_up@.len() == missing_places(
                group_views(groups@),
                old(self).cached_icons@,
            ).len(),
            forall|i: int| 0 <= i < looked_up@.len() ==> (#[trigger] looked_up@[i]).wf(),
        ensures
            ({
                let shown = gathered(
                    group_views(groups@),
                    looked_up@,
                    old(self).cached_icons@,
                );
                &&& final(self).cached_icons@ == shown.cache
                &&& match final(self).switch_apps_state {
                    Some(state) => {
                        &&& groups@.len() > 0
                        &&& app_views(state.apps@) == shown.apps
                        &&& state.interaction == (SwitchAppsInteractionState {
                            keyboard_index: opening_index(
                                groups@.len() as int,
                                reverse,
                            ) as usize,
                            hovered_index: None,
                            pointer_position,
                        })
                    },
                    None => groups@.len() == 0,
                }
            }),
            *final(self) == (App {
                switch_apps_state: final(self).switch_apps_state,
                cached_icons: final(self).cached_icons,
                ..*old(self)
            }),
            final(self).wf(),
    {
        let ghost all = group_views(groups@);
        let ghost icons = looked_up@;
        let ghost cache = self.cached_icons@;
        proof {
            looked_up_icons_are_those_missing(all, icons, cache);
            lemma_gathered_wf(all, icons, cache);
        }
        let apps: Vec<(Rc<AppIcon<H, B>>, isize)> = self.cached_icons.gather(groups, looked_up);
        assert(apps@.len() == app_views(apps@).len());
        assert forall|i: int| 0 <= i < apps@.len() implies (#[trigger] apps@[i]).0.wf() by {
            assert(app_views(apps@)[i] == (*apps@[i].0, apps@[i].1));
        }
        self.switch_apps_state = SwitchAppsState::open(apps, reverse, pointer_position);
    }

    /// What comes after a step that walks through the applications, or that was to open
    /// the panel: whether the panel has to be painted, and whether the pointer has then to
    /// be taken to be where it is. Only a step that started the walk asks for the second.
    pub fn after_switch_apps(&self, starting: bool) -> (next: (bool, bool))
        ensures
            next.0 == (self.switch_apps_state is Some),
            next.1 == (starting && self.switch_apps_state is Some),
    {
        let open: bool = self.switch_apps_state.is_some();
        (open, starting && open)
    }

    /// Takes note that the open panel has been drawn. Tells whether it has to be brought
    /// up on the screen, which it has to be once.
    pub fn painted(&mut self) -> (bring_up: bool)
        requires
            old(self).switch_apps_state is Some,
        ensures
            bring_up == !old(self).painter.show,
            *final(self) == (App {
                painter: GdiAAPainter { show: true, ..old(self).painter },
                ..*old(self)
            }),
            old(self).wf() ==> final(self).wf(),
    {
        self.painter.painted()
    }

    /// A click in the panel: the application that was hit is brought to the front, and
    /// the panel closes. A click beside them changes nothing.
    pub fn click(&mut self, position: (i32, i32), dpi: u32, client: ScreenRect) -> (closed: Option<
        Option<isize>,
    >)
        requires
            old(self).switch_apps_state matches Some(state) ==> fits(client.right - client.left)
                && panel_is_measurable(
                position,
                client.right - client.left,
                scaled_by_dpi(WINDOW_BORDER_SIZE_BASE as int, dpi),
                state.apps@.len() as usize,
            ),
        ensures
            match old(self).hit(position, dpi, client) {
                Some(index) => {
                    &&& closed == Some(Some(old(self).switch_apps_state->0.apps@[index].1))
                    &&& *final(self) == old(self).closed()
                },
                None => closed is None && *final(self) == *old(self),
            },
            old(self).wf() ==> final(self).wf(),
    {
        let index: Option<usize> = match &self.switch_apps_state {
            Some(state) => self.painter.find_app_index_at_client(state, position, dpi, client),
            None => None,
        };
        match index {
            Some(index) => self.do_switch_app_at(index),
            None => None,
        }
    }

    /// The application in the open panel that a point belongs to.
    pub open spec fn hit(self, position: (i32, i32), dpi: u32, client: ScreenRect) -> Option<int> {
        match self.switch_apps_state {
            Some(state) => panel_item_at(
                position,
                client.right - client.left,
                scaled_by_dpi(WINDOW_BORDER_SIZE_BASE as int, dpi),
                state.apps@.len() as usize,
            ),
            None => None,
        }
    }

    /// A move of the pointer over the panel, to a position in it and on the screen.
    /// Tells whether the panel has to be painted anew.
    pub fn hover(
        &mut self,
        position: (i32, i32),
        pointer_position: (i32, i32),
        dpi: u32,
        client: ScreenRect,
    ) -> (repaint: bool)
        requires
            old(self).switch_apps_state matches Some(state) ==> fits(client.right - client.left)
                && panel_is_measurable(
                position,
                client.right - client.left,
                scaled_by_dpi(WINDOW_BORDER_SIZE_BASE as int, dpi),
                state.apps@.len() as usize,
            ),
        ensures
            match old(self).switch_apps_state {
                Some(state) => {
                    let hovered = match old(self).hit(position, dpi, client) {
                        Some(index) => Some(index as usize),
                        None => None,
                    };
                    let after = state.interaction.pointed(pointer_position, hovered);
                    &&& repaint == (after.hovered_index != state.interaction.hovered_index)
                    &&& *final(self) == (App {
                        switch_apps_state: Some(SwitchAppsState { interaction: after, ..state }),
                        ..*old(self)
                    })
                },
                None => !repaint && *final(self) == *old(self),
            },
            old(self).wf() ==> final(self).wf(),
    {
        let hovered: Option<usize> = match &self.switch_apps_state {
            Some(state) => self.painter.find_app_index_at_client(state, position, dpi, client),
            None => {
                return false;
            },
        };
        match &mut self.switch_apps_state {
            Some(state) => state.update_hover(pointer_position, hovered),
            None => false,
        }
    }

    /// The pointer left the panel. Tells whether the panel has to be painted anew.
    pub fn clear_hover(&mut self) -> (repaint: bool)
        ensures
            match old(self).switch_apps_state {
                Some(state) => {
                    &&& repaint == (state.interaction.hovered_index is Some)
                    &&& *final(self) == (App {
                        switch_apps_state: Some(
                            SwitchAppsState {
                                interaction: SwitchAppsInteractionState {
                                    hovered_index: None,
                                    ..state.interaction
                                },
                                ..state
                            },
                        ),
                        ..*old(self)
                    })
                },
                None => !repaint && *final(self) == *old(self),
            },
            old(self).wf() ==> final(self).wf(),
    {
        match &mut self.switch_apps_state {
            Some(state) => state.clear_hover(),
            None => false,
        }
    }

    /// Takes the pointer to be here, over nothing, where the panel is open.
    pub fn reset_pointer_position(&mut self, pointer_position: (i32, i32))
        ensures
            *final(self) == (App {
                switch_apps_state: match old(self).switch_apps_state {
                    Some(state) => Some(
                        SwitchAppsState {
                            interaction: SwitchAppsInteractionState {
                                hovered_index: None,
                                pointer_position,
                                ..state.interaction
                            },
                            ..state
                        },
                    ),
                    None => None,
                },
                ..*old(self)
            }),
            old(self).wf() ==> final(self).wf(),
    {
        if let Some(state) = &mut self.switch_apps_state {
            state.reset_pointer_position(pointer_position);
        }
    }

    /// Closes the panel and goes to the application that the keyboard is on: the window
    /// to bring to the front, inside. Nothing where the panel was closed already.
    pub fn do_switch_app(&mut self) -> (closed: Option<Option<isize>>)
        ensures
            *final(self) == old(self).closed(),
            old(self).wf() ==> final(self).wf(),
            closed == match old(self).switch_apps_state {
                Some(state) => Some(
                    if state.interaction.keyboard_index < state.apps@.len() {
                        Some(state.apps@[state.interaction.keyboard_index as int].1)
                    } else {
                        None
                    },
                ),
                None => None,
            },
    {
        let index: usize = match &self.switch_apps_state {
            Some(state) => state.keyboard_index(),
            None => {
                return None;
            },
        };
        self.do_switch_app_at(index)
    }

    /// Closes the panel and goes to one of its applications.
    pub fn do_switch_app_at(&mut self, index: usize) -> (closed: Option<Option<isize>>)
        ensures
            *final(self) == old(self).closed(),
            old(self).wf() ==> final(self).wf(),
            closed == match old(self).switch_apps_state {
                Some(state) => Some(
                    if index < state.apps@.len() {
                        Some(state.apps@[index as int].1)
                    } else {
                        None
                    },
                ),
                None => None,
            },
    {
        match self.switch_apps_state.take() {
            Some(state) => {
                self.painter.unpaint();
                Some(state.window_at(index))
            },
            None => None,
        }
    }

    /// Closes the panel and stays where we are. Tells whether it was open.
    pub fn cancel_switch_app(&mut self) -> (closed: bool)
        ensures
            *final(self) == old(self).closed(),
            old(self).wf() ==> final(self).wf(),
            closed == (old(self).switch_apps_state is Some),
    {
        match self.switch_apps_state.take() {
            Some(_) => {
                self.painter.unpaint();
                true
            },
            None => false,
        }
    }

    /// What a message leads to: the state after it, and what has to be done.
    pub open spec fn handled(self, message: Message) -> (Self, Action) {
        let open = self.switch_apps_state is Some;
        match message {
            Message::TrayIcon { menu } => (
                self,
                if self.has_trayicon && menu {
                    Action::ShowMenu
                } else {
                    Action::Nothing
                },
            ),
            Message::SwitchApps { reverse } => (
                self,
                if open {
                    Action::Navigate { reverse }
                } else {
                    Action::OpenApps {
                        reverse,
                        ignore_minimal: self.config.switch_apps_ignore_minimal,
                        only_current_desktop: self.config.switch_apps_only_current_desktop,
                        is_admin: self.is_admin,
                    }
                },
            ),
            Message::SwitchAppsDone => (
                self.closed(),
                if open {
                    Action::Close { foreground: self.keyboard_window() }
                } else {
                    Action::Nothing
                },
            ),
            Message::SwitchAppsCancel => (
                self.closed(),
                if open {
                    Action::Close { foreground: None }
                } else {
                    Action::Nothing
                },
            ),
            Message::SwitchWindows { reverse } => (
                self,
                Action::WalkWindows {
                    reverse,
                    of: self.keyboard_window(),
                    ignore_minimal: self.config.switch_windows_ignore_minimal,
                    only_current_desktop: self.config.switch_windows_only_current_desktop,
                    is_admin: self.is_admin,
                },
            ),
            Message::SwitchWindowsDone => (
                App {
                    switch_windows_state: SwitchWindowsState {
                        modifier_released: true,
                        ..self.switch_windows_state
                    },
                    ..self
                },
                Action::Nothing,
            ),
            Message::Click { position } => (
                self,
                if open {
                    Action::FindClicked { position }
                } else {
                    Action::Nothing
                },
            ),
            Message::PointerMoved { position } => (
                self,
                if open {
                    Action::FindHovered { position }
                } else {
                    Action::Nothing
                },
            ),
            Message::PointerLeft => match self.switch_apps_state {
                Some(state) => (
                    App {
                        switch_apps_state: Some(
                            SwitchAppsState {
                                interaction: SwitchAppsInteractionState {
                                    hovered_index: None,
                                    ..state.interaction
                                },
                                ..state
                            },
                        ),
                        ..self
                    },
                    if state.interaction.hovered_index is Some {
                        Action::Repaint
                    } else {
                        Action::Nothing
                    },
                ),
                None => (self, Action::Nothing),
            },
            Message::Exit => (self, Action::Exit),
            Message::ToggleStartup => (self, Action::ToggleStartup),
            Message::Configure => (self, Action::Configure),
            Message::RegisterTrayIcon { taskbar_created } => (
                if taskbar_created {
                    self.closed()
                } else {
                    self
                },
                Action::RenewTrayIcon {
                    close: taskbar_created && open,
                    register: self.has_trayicon,
                },
            ),
            _ => (self, Action::Nothing),
        }
    }

    /// The window of the application that the keyboard is on in the open panel.
    pub open spec fn keyboard_window(self) -> Option<isize> {
        match self.switch_apps_state {
            Some(state) => if state.interaction.keyboard_index < state.apps@.len() {
                Some(state.apps@[state.interaction.keyboard_index as int].1)
            } else {
                None
            },
            None => None,
        }
    }

    /// Takes in a message and tells what has to be done about it. A new taskbar also
    /// makes every icon forgotten, since the system draws them anew.
    pub fn handle_message(&mut self, message: Message) -> (action: Action)
        ensures
            action == old(self).handled(message).1,
            ({
                let after = old(self).handled(message).0;
                if message == (Message::RegisterTrayIcon { taskbar_created: true }) {
                    &&& *final(self) == (App { cached_icons: final(self).cached_icons, ..after })
                    &&& final(self).cached_icons@ == Map::<Seq<char>, CachedView<H, B>>::empty()
                } else {
                    *final(self) == after
                }
            }),
            old(self).wf() ==> final(self).wf(),
    {
        match message {
            Message::TrayIcon { menu } => if self.has_trayicon && menu {
                Action::ShowMenu
            } else {
                Action::Nothing
            },
            Message::SwitchApps { reverse } => if self.switch_apps_state.is_some() {
                Action::Navigate { reverse }
            } else {
                Action::OpenApps {
                    reverse,
                    ignore_minimal: self.config.switch_apps_ignore_minimal,
                    only_current_desktop: self.config.switch_apps_only_current_desktop,
                    is_admin: self.is_admin,
                }
            },
            Message::SwitchAppsDone => match self.do_switch_app() {
                Some(foreground) => Action::Close { foreground },
                None => Action::Nothing,
            },
            Message::SwitchAppsCancel => if self.cancel_switch_app() {
                Action::Close { foreground: None }
            } else {
                Action::Nothing
            },
            Message::SwitchWindows { reverse } => {
                let of: Option<isize> = match &self.switch_apps_state {
                    Some(state) => state.window_at(state.keyboard_index()),
                    None => None,
                };
                Action::WalkWindows {
                    reverse,
                    of,
                    ignore_minimal: self.config.switch_windows_ignore_minimal,
                    only_current_desktop: self.config.switch_windows_only_current_desktop,
                    is_admin: self.is_admin,
                }
            },
            Message::SwitchWindowsDone => {
                self.switch_windows_state.modifier_released = true;
                Action::Nothing
            },
            Message::Click { position } => if self.switch_apps_state.is_some() {
                Action::FindClicked { position }
            } else {
                Action::Nothing
            },
            Message::PointerMoved { position } => if self.switch_apps_state.is_some() {
                Action::FindHovered { position }
            } else {
                Action::Nothing
            },
            Message::PointerLeft => if self.clear_hover() {
                Action::Repaint
            } else {
                Action::Nothing
            },
            Message::Exit => Action::Exit,
            Message::ToggleStartup => Action::ToggleStartup,
            Message::Configure => Action::Configure,
            Message::RegisterTrayIcon { taskbar_created } => {
                let close: bool = taskbar_created && self.cancel_switch_app();
                if taskbar_created {
                    self.cached_icons.clear();
                }
                Action::RenewTrayIcon { close, register: self.has_trayicon }
            },
            Message::HitTest | Message::EraseBackground | Message::Other => Action::Nothing,
        }
    }
}

proof fn lemma_gathered_wf<H, B>(
    groups: Seq<GroupView>,
    looked_up: Seq<AppIcon<H, B>>,
    cache: Map<Seq<char>, CachedView<H, B>>,
)
    requires
        gathered(groups, looked_up, cache).used <= looked_up.len(),
        forall|i: int| 0 <= i < looked_up.len() ==> (#[trigger] looked_up[i]).wf(),
        forall|path: Seq<char>| cache.contains_key(path) ==> (#[trigger] cache[path]).icon.wf(),
    ensures
        ({
            let shown = gathered(groups, looked_up, cache);
            &&& shown.apps.len() == groups.len()
            &&& forall|i: int| 0 <= i < shown.apps.len() ==> (#[trigger] shown.apps[i]).0.wf()
            &&& forall|path: Seq<char>|
                shown.cache.contains_key(path) ==> (#[trigger] shown.cache[path]).icon.wf()
        }),
    decreases groups.len(),
{
    if groups.len() > 0 {
        let rest = groups.drop_last();
        let before = gathered(rest, looked_up, cache);
        assert(before.used <= gathered(groups, looked_up, cache).used);
        lemma_gathered_wf(rest, looked_up, cache);
        let shown = gathered(groups, looked_up, cache);
        assert forall|i: int| 0 <= i < shown.apps.len() implies (
        #[trigger] shown.apps[i]).0.wf() by {
            if i < before.apps.len() {
                assert(shown.apps[i] == before.apps[i]);
            }
        }
    }
}

proof fn lemma_orders_repeat_nothing<H, B>(app: App<H, B>, groups: Seq<WindowGroup>, hwnd: isize)
    ensures
        app.wf() ==> repeat_nothing(app.next_orders(groups, hwnd)),
{
    let place = group_place(groups, hwnd);
    lemma_group_place_range(groups, hwnd);
    if app.wf() && place < groups.len() {
        let path = groups[place].app_path@;
        let before = if app.fixed_orders().contains_key(path) {
            app.fixed_orders()[path]
        } else {
            Seq::empty()
        };
        assert(before.no_duplicates());
        merged_order_has_the_visible_windows(before, groups[place].windows@);
    }
}

proof fn lemma_turned_repeats_nothing(order: Seq<isize>, current: isize)
    requires
        order.no_duplicates(),
        order.contains(current),
    ensures
        rotated(order, first_position(order, current)).no_duplicates(),
        forall|id: isize| #[trigger]
            rotated(order, first_position(order, current)).contains(id) <==> order.contains(id),
{
    let start = first_position(order, current);
    let turned = rotated(order, start);
    lemma_first_position(order, current);
    assert(turned =~= order.skip(start) + order.take(start));
    let split = order.len() - start;
    assert forall|i: int, j: int|
        0 <= i < turned.len() && 0 <= j < turned.len() && i != j implies turned[i] != turned[j] by {
        let a = if i < split { i + start } else { i - split };
        let b = if j < split { j + start } else { j - split };
        assert(turned[i] == order[a] && turned[j] == order[b]);
    }
    assert forall|id: isize| #[trigger] turned.contains(id) <==> order.contains(id) by {
        if order.contains(id) {
            let k = choose|k: int| 0 <= k < order.len() && order[k] == id;
            assert(turned[if k < start { k + split } else { k - start }] == id);
        }
        if turned.contains(id) {
            let k = choose|k: int| 0 <= k < turned.len() && turned[k] == id;
            assert(order[if k < split { k + start } else { k - split }] == id);
        }
    }
}

/// A step through the windows of an application always leads to one of them. Without a
/// stable order it does so where the list names no window twice.
pub proof fn walks_stay_in_the_application<H, B>(
    app: App<H, B>,
    groups: Seq<WindowGroup>,
    hwnd: isize,
    reverse: bool,
)
    requires
        app.wf(),
        group_place(groups, hwnd) < groups.len() ==> uses_fixed_order(
            app.config@.switch_windows_fixed_order,
            groups[group_place(groups, hwnd)].app_path@,
        ) || groups[group_place(groups, hwnd)].windows@.no_duplicates(),
    ensures
        app.next_walk(groups, hwnd, reverse) matches Some(walk) ==> {
            let group = groups[group_place(groups, hwnd)];
            &&& 0 <= walk.index < walk.windows.len()
            &&& walk.app_path == group.app_path@
            &&& group.windows@.contains(walk.windows[walk.index])
        },
{
    let place = group_place(groups, hwnd);
    lemma_group_place_range(groups, hwnd);
    if place < groups.len() {
        let path = groups[place].app_path@;
        let windows = groups[place].windows@;
        let last = app.switch_windows_state.last();
        let released = app.switch_windows_state.modifier_released;
        if uses_fixed_order(app.config@.switch_windows_fixed_order, path) {
            let order = stable_order(app.fixed_orders(), path, windows);
            let before = if app.fixed_orders().contains_key(path) {
                app.fixed_orders()[path]
            } else {
                Seq::empty()
            };
            assert(before.no_duplicates());
            merged_order_has_the_visible_windows(before, windows);
            lemma_turned_repeats_nothing(order, hwnd);
            let turned = rotated(order, first_position(order, hwnd));
            steps_stay_in_the_group(last, released, path, turned, hwnd, reverse);
            let walk = next_fixed_cycle(last, released, path, turned, hwnd, reverse);
            if walk is Some {
                assert(turned.contains(walk->0.windows[walk->0.index]));
                assert(order.contains(walk->0.windows[walk->0.index]));
            }
        } else {
            steps_stay_in_the_group(last, released, path, windows, hwnd, reverse);
        }
    }
}

proof fn lemma_group_place_range(groups: Seq<WindowGroup>, hwnd: isize)
    ensures
        0 <= group_place(groups, hwnd) <= groups.len(),
        group_place(groups, hwnd) < groups.len() ==> groups[group_place(
            groups,
            hwnd,
        )].windows@.contains(hwnd),
    decreases groups.len(),
{
    if groups.len() > 0 {
        lemma_group_place_range(groups.drop_first(), hwnd);
    }
}

/// A step leads somewhere exactly where the application has two or more windows. The
/// list that the walk then goes along has exactly the application's windows, each once;
/// so it does again after the next step.
pub proof fn walks_list_the_windows_of_the_application<H, B>(
    app: App<H, B>,
    groups: Seq<WindowGroup>,
    hwnd: isize,
    reverse: bool,
)
    requires
        app.wf(),
        app.last_walk_repeats_nothing(),
        group_repeats_nothing(groups, hwnd),
    ensures
        ({
            let place = group_place(groups, hwnd);
            let walk = app.next_walk(groups, hwnd, reverse);
            &&& walk is Some <==> place < groups.len() && groups[place].windows@.len() >= 2
            &&& walk is Some ==> {
                &&& walk->0.windows.no_duplicates()
                &&& forall|id: isize| #[trigger]
                    walk->0.windows.contains(id) <==> groups[place].windows@.contains(id)
                &&& walk->0.windows.len() == groups[place].windows@.len()
            }
        }),
{
    let place = group_place(groups, hwnd);
    lemma_group_place_range(groups, hwnd);
    if place < groups.len() {
        let path = groups[place].app_path@;
        let windows = groups[place].windows@;
        let last = app.switch_windows_state.last();
        if uses_fixed_order(app.config@.switch_windows_fixed_order, path) {
            let order = stable_order(app.fixed_orders(), path, windows);
            let before = if app.fixed_orders().contains_key(path) {
                app.fixed_orders()[path]
            } else {
                Seq::empty()
            };
            assert(before.no_duplicates());
            merged_order_has_the_visible_windows(before, windows);
            lemma_turned_repeats_nothing(order, hwnd);
            let turned = rotated(order, first_position(order, hwnd));
            assert forall|id: isize| #[trigger] turned.contains(id) <==> windows.contains(id) by {
                assert(order.contains(id) <==> windows.contains(id));
            }
            lemma_same_members_same_len(turned, windows);
            if last is Some {
                let list = merged_order(last->0.windows, turned);
                merged_order_has_the_visible_windows(last->0.windows, turned);
                assert forall|id: isize| #[trigger] list.contains(id) <==> windows.contains(id) by {
                    assert(turned.contains(id) <==> windows.contains(id));
                }
                lemma_same_members_same_len(list, windows);
            }
        } else if last is Some {
            held_list_has_the_present_windows(windows, last->0.windows);
        }
    }
}

/// Letting go of the modifier goes to the application that the keyboard is on, whatever
/// the pointer did, and closes the panel. Calling the walk off goes nowhere.
pub proof fn letting_go_follows_the_keyboard<H, B>(
    app: App<H, B>,
    pointer_position: (i32, i32),
    hovered: Option<usize>,
)
    requires
        app.wf(),
        app.switch_apps_state is Some,
    ensures
        ({
            let state = app.switch_apps_state->0;
            let pointed = App {
                switch_apps_state: Some(
                    SwitchAppsState {
                        interaction: state.interaction.pointed(pointer_position, hovered),
                        ..state
                    },
                ),
                ..app
            };
            let target = state.apps@[state.interaction.keyboard_index as int].1;
            let done = pointed.handled(Message::SwitchAppsDone);
            let cancelled = pointed.handled(Message::SwitchAppsCancel);
            &&& done.1 == Action::Close { foreground: Some(target) }
            &&& done.0.switch_apps_state is None
            &&& !done.0.painter.show
            &&& cancelled.1 == Action::Close { foreground: None }
            &&& cancelled.0 == done.0
        }),
{
}

/// Of the first half of a message, before its action is carried out: one that neither
/// ends the walk through the applications nor announces a new taskbar leaves the panel
/// open where it is open; and none opens it. The second half can: `walk_windows` and a
/// `click` on an application close the panel, `open_switch_apps` opens it.
pub proof fn only_ending_messages_close_the_panel<H, B>(app: App<H, B>, message: Message)
    ensures
        app.switch_apps_state is None ==> app.handled(message).0.switch_apps_state is None,
        app.switch_apps_state is Some ==> (app.handled(message).0.switch_apps_state is None <==> (
        message == Message::SwitchAppsDone || message == Message::SwitchAppsCancel || message
            == Message::RegisterTrayIcon { taskbar_created: true })),
{
}

/// A panel that is opened and left at once goes to the application after the current
/// one, or to the last one when it was opened backwards.
pub proof fn opening_and_letting_go_goes_to_the_next_application<H, B>(
    app: App<H, B>,
    groups: Seq<GroupView>,
    looked_up: Seq<AppIcon<H, B>>,
    cache: Map<Seq<char>, CachedView<H, B>>,
    reverse: bool,
)
    requires
        groups.len() > 0,
        are_distinct(groups),
        app.switch_apps_state matches Some(state) && app_views(state.apps@) == gathered(
            groups,
            looked_up,
            cache,
        ).apps && state.interaction.keyboard_index == opening_index(groups.len() as int, reverse),
    ensures
        ({
            let place = if groups.len() == 1 {
                0
            } else if reverse {
                groups.len() - 1
            } else {
                1
            };
            app.handled(Message::SwitchAppsDone).1 == Action::Close {
                foreground: Some(groups[place].window),
            }
        }),
{
    let state = app.switch_apps_state->0;
    let place = opening_index(groups.len() as int, reverse);
    shown_icons_are_kept(groups, looked_up, cache, place);
    assert(app_views(state.apps@)[place].1 == state.apps@[place].1);
}

} // verus!
