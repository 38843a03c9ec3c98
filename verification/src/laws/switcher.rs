//! The switcher as a whole: what each message and each step does to it.
use std::rc::Rc;
use vstd::prelude::*;

use crate::app::{start, stable_order, Action, App, Config};
use crate::app_icon::AppIcon;
use crate::collections::text_entries;
use crate::fixed_order::{merged_order_has_the_visible_windows, rotate_fixed_order};
use crate::laws::applications::{is_left, is_pointed, is_reset, is_step, lemma_step};
use crate::laws::walks::{is_updated, lemma_group_place, lemma_merged};
use crate::messages::Message;
use crate::painter::{GdiAAPainter, ScreenRect};
use crate::sequences::lemma_first_position;
use crate::switch_apps::{app_views, AppGroup, IconCache, SwitchAppsState};
use crate::switch_windows::{find_group, SwitchWindowsState, WindowCycle, WindowGroup};
use crate::text::{ascii_lower, ascii_lowered, parts, path_file_name, path_parts, texts};

verus! {

/// What no message touches: the configuration and what was found out at the start.
pub open spec fn is_same_switcher<H, B>(before: App<H, B>, after: App<H, B>) -> bool {
    &&& after.is_admin == before.is_admin
    &&& after.has_trayicon == before.has_trayicon
    &&& after.config == before.config
    &&& after.painter.rounded_corner == before.painter.rounded_corner
}

/// What the walks through windows have left.
pub open spec fn keeps_walks<H, B>(before: App<H, B>, after: App<H, B>) -> bool {
    &&& after.switch_windows_state == before.switch_windows_state
    &&& after.fixed_order_windows == before.fixed_order_windows
}

/// The panel is closed and taken off the screen, and nothing else changes. `closed` tells
/// whether it was open.
pub open spec fn is_closed<H, B>(before: App<H, B>, after: App<H, B>, closed: bool) -> bool {
    &&& closed <==> before.switch_apps_state is Some
    &&& after.switch_apps_state is None
    &&& closed ==> !after.painter.show
    &&& !closed ==> after.painter == before.painter
    &&& is_same_switcher(before, after)
    &&& keeps_walks(before, after)
    &&& after.cached_icons == before.cached_icons
}

/// Only the panel's place of the keyboard and of the pointer can have changed.
pub open spec fn keeps_all_but_interaction<H, B>(before: App<H, B>, after: App<H, B>) -> bool {
    &&& is_same_switcher(before, after)
    &&& keeps_walks(before, after)
    &&& after.cached_icons == before.cached_icons
    &&& after.painter == before.painter
    &&& after.switch_apps_state is Some <==> before.switch_apps_state is Some
    &&& after.switch_apps_state is Some ==> after.switch_apps_state->0.apps@
        == before.switch_apps_state->0.apps@
}

/// At the start nothing is open, nothing is remembered, and no walk is held.
pub proof fn the_switcher_starts_with_nothing<H, B>(
    config: &Config,
    is_admin: bool,
    rounded_corner: bool,
    app: App<H, B>,
    same: App<H, B>,
)
    requires
        call_ensures(App::<H, B>::start, (config, is_admin, rounded_corner), app),
        call_ensures(start::<H, B>, (config, is_admin, rounded_corner), same),
    ensures
        app.is_admin == is_admin && same.is_admin == is_admin,
        app.has_trayicon == config.trayicon && same.has_trayicon == config.trayicon,
        says_the_same(app.config, *config) && says_the_same(same.config, *config),
        app.switch_windows_state.cache is None && same.switch_windows_state.cache is None,
        app.switch_windows_state.modifier_released,
        same.switch_windows_state.modifier_released,
        forall|path: Seq<char>| !#[trigger] app.fixed_order_windows@.contains_key(path),
        forall|path: Seq<char>| !#[trigger] same.fixed_order_windows@.contains_key(path),
        app.switch_apps_state is None && same.switch_apps_state is None,
        forall|path: Seq<char>| !app.cached_icons@.contains_key(path),
        forall|path: Seq<char>| !same.cached_icons@.contains_key(path),
        !app.painter.show && !same.painter.show,
        app.painter.rounded_corner == rounded_corner,
        same.painter.rounded_corner == rounded_corner,
        app.wf() && same.wf(),
{
    lemma_says_the_same(app.config, *config);
    lemma_says_the_same(same.config, *config);
    assert forall|path: Seq<char>| !#[trigger] app.fixed_order_windows@.contains_key(path) by {
        assert(!app.fixed_orders().contains_key(path));
    }
    assert forall|path: Seq<char>| !#[trigger] same.fixed_order_windows@.contains_key(path) by {
        assert(!same.fixed_orders().contains_key(path));
    }
}

/// The one configuration says what the other says.
pub open spec fn says_the_same(one: Config, other: Config) -> bool {
    let listed = one.switch_windows_fixed_order@;
    let other_listed = other.switch_windows_fixed_order@;
    &&& one.trayicon == other.trayicon
    &&& one.switch_windows_ignore_minimal == other.switch_windows_ignore_minimal
    &&& one.switch_windows_only_current_desktop == other.switch_windows_only_current_desktop
    &&& listed.len() == other_listed.len()
    &&& forall|i: int| 0 <= i < listed.len() ==> (#[trigger] listed[i])@ == other_listed[i]@
    &&& one.switch_apps_ignore_minimal == other.switch_apps_ignore_minimal
    &&& one.switch_apps_only_current_desktop == other.switch_apps_only_current_desktop
    &&& text_entries(one.switch_apps_override_icons) == text_entries(
        other.switch_apps_override_icons,
    )
}

proof fn lemma_says_the_same(one: Config, other: Config)
    requires
        one@ == other@,
    ensures
        says_the_same(one, other),
{
    let listed = one.switch_windows_fixed_order@;
    let other_listed = other.switch_windows_fixed_order@;
    assert(one@.switch_windows_fixed_order == other@.switch_windows_fixed_order);
    assert(texts(listed) == texts(other_listed));
    assert(texts(listed).len() == listed.len());
    assert(texts(other_listed).len() == other_listed.len());
    assert forall|i: int| 0 <= i < listed.len() implies (#[trigger] listed[i])@
        == other_listed[i]@ by {
        assert(texts(listed)[i] == texts(other_listed)[i]);
    }
}

/// A copy of a configuration says the same.
pub proof fn copies_say_the_same(config: &Config, copy: Config)
    requires
        call_ensures(Config::duplicate, (config,), copy),
    ensures
        says_the_same(copy, *config),
{
    lemma_says_the_same(copy, *config);
}

/// The text is the other one with small letters in place of the large ones from A to Z.
pub open spec fn is_lowered(text: Seq<char>, other: Seq<char>) -> bool {
    &&& text.len() == other.len()
    &&& forall|i: int|
        0 <= i < text.len() ==> if 'A' <= #[trigger] other[i] <= 'Z' {
            text[i] as u32 == other[i] as u32 + 32
        } else {
            text[i] == other[i]
        }
}

proof fn lemma_small_letter(small: char, large: char)
    ensures
        'A' <= large <= 'Z' && small as u32 == large as u32 + 32 ==> small == ascii_lower(large),
{
}

proof fn lemma_lowered(text: Seq<char>, other: Seq<char>)
    ensures
        is_lowered(text, other) <==> text == ascii_lowered(other),
{
    let lowered = ascii_lowered(other);
    if is_lowered(text, other) {
        assert forall|i: int| 0 <= i < text.len() implies text[i] == lowered[i] by {
            lemma_small_letter(text[i], other[i]);
            assert(lowered[i] == ascii_lower(other[i]));
        }
        assert(text =~= lowered);
    }
}

/// The windows of an application keep a stable order where the configuration lists its
/// executable: the file name in the first part of the path, in small letters.
pub proof fn listed_executables_keep_a_stable_order<H, B>(
    app: &App<H, B>,
    app_path: &str,
    uses: bool,
    pieces: Vec<String>,
    exe_path: &str,
    name: String,
)
    requires
        call_ensures(App::<H, B>::uses_fixed_window_order, (app, app_path), uses),
        call_ensures(path_parts, (app_path,), pieces),
        exe_path@ == pieces@[0]@,
        call_ensures(path_file_name, (exe_path,), name),
    ensures
        uses <==> exists|i: int|
            0 <= i < app.config.switch_windows_fixed_order@.len() && is_lowered(
                (#[trigger] app.config.switch_windows_fixed_order@[i])@,
                name@,
            ),
{
    let listed = app.config.switch_windows_fixed_order@;
    let fixed = texts(listed);
    let exe = ascii_lowered(name@);
    assert(parts(app_path@)[0] == pieces@[0]@) by {
        assert(texts(pieces@)[0] == pieces@[0]@);
    }
    assert(fixed.len() == listed.len());
    if uses {
        assert(fixed.contains(exe));
        let i = choose|i: int| 0 <= i < fixed.len() && fixed[i] == exe;
        assert(fixed[i] == listed[i]@);
        lemma_lowered(listed[i]@, name@);
        assert(is_lowered(listed[i]@, name@));
    }
    if exists|i: int| 0 <= i < listed.len() && is_lowered((#[trigger] listed[i])@, name@) {
        let i = choose|i: int| 0 <= i < listed.len() && is_lowered((#[trigger] listed[i])@, name@);
        lemma_lowered(listed[i]@, name@);
        assert(fixed[i] == exe);
    }
}

/// The tray icon is tried again after three seconds where it is wanted, could not be put in
/// place and is not there.
pub proof fn missing_tray_icons_are_tried_again<H, B>(
    app: &App<H, B>,
    registered: bool,
    is_there: bool,
    retry: Option<u64>,
)
    requires
        call_ensures(App::<H, B>::set_trayicon, (app, registered, is_there), retry),
    ensures
        retry is Some <==> app.has_trayicon && !registered && !is_there,
        retry matches Some(seconds) ==> seconds == 3,
{
}

/// The walk is remembered as the last one, and its modifier counts as down.
pub open spec fn remembers(state: SwitchWindowsState, walk: WindowCycle) -> bool {
    &&& !state.modifier_released
    &&& state.cache is Some
    &&& state.cache->0.app_path@ == walk.app_path@
    &&& state.cache->0.id == walk.id
    &&& state.cache->0.index == walk.index
    &&& state.cache->0.windows@ == walk.windows@
}

/// A step leads to the window at the place of the walk that it leads to, and the walk is
/// remembered. Where it leads nowhere, no window comes up and nothing is remembered.
pub open spec fn is_carried_out(
    before: SwitchWindowsState,
    next: Option<WindowCycle>,
    after: SwitchWindowsState,
    window: Option<isize>,
) -> bool {
    match next {
        Some(walk) => {
            &&& window == Some(walk.windows@[walk.index as int])
            &&& remembers(after, walk)
        },
        None => window is None && after == before,
    }
}

/// Only what the walks through windows leave can have changed.
pub open spec fn keeps_all_but_walks<H, B>(before: App<H, B>, after: App<H, B>) -> bool {
    &&& is_same_switcher(before, after)
    &&& after.switch_apps_state == before.switch_apps_state
    &&& after.cached_icons == before.cached_icons
    &&& after.painter == before.painter
}

/// A window that belongs to no application leads nowhere and changes nothing.
pub proof fn unknown_windows_lead_nowhere<H, B>(
    app: &mut App<H, B>,
    groups: &Vec<WindowGroup>,
    hwnd: isize,
    reverse: bool,
    window: Option<isize>,
)
    requires
        call_ensures(App::<H, B>::switch_windows, (app, groups, hwnd, reverse), window),
        forall|i: int|
            0 <= i < groups@.len() ==> !(#[trigger] groups@[i]).windows@.contains(hwnd),
    ensures
        window is None,
        final(app).switch_windows_state == old(app).switch_windows_state,
        final(app).fixed_orders() == old(app).fixed_orders(),
        keeps_all_but_walks(*old(app), *final(app)),
{
    lemma_group_place(groups@, hwnd);
}

/// A step through the windows of an application without a stable order is one in recency
/// order through its windows, as they are listed. The application is the first that has
/// the current window.
pub proof fn recent_windows_are_walked_as_listed<H, B>(
    app: &mut App<H, B>,
    before: &App<H, B>,
    groups: &Vec<WindowGroup>,
    hwnd: isize,
    reverse: bool,
    window: Option<isize>,
    place: Option<usize>,
    path: &str,
    next: Option<WindowCycle>,
)
    requires
        *before == *old(app),
        call_ensures(App::<H, B>::switch_windows, (app, groups, hwnd, reverse), window),
        call_ensures(find_group, (groups, hwnd), place),
        place is Some,
        path@ == groups@[place->0 as int].app_path@,
        call_ensures(App::<H, B>::uses_fixed_window_order, (before, path), false),
        call_ensures(
            SwitchWindowsState::step_recent,
            (
                &before.switch_windows_state,
                &groups@[place->0 as int].app_path,
                &groups@[place->0 as int].windows,
                reverse,
            ),
            next,
        ),
    ensures
        is_carried_out(
            old(app).switch_windows_state,
            next,
            final(app).switch_windows_state,
            window,
        ),
        final(app).fixed_orders() == old(app).fixed_orders(),
        keeps_all_but_walks(*old(app), *final(app)),
{
}

/// A step through the windows of an application with a stable order first brings that order
/// up to date with the windows there are, and then walks along it, from the current window
/// on. The orders of other applications stay.
pub proof fn stable_orders_are_updated_and_walked<H, B>(
    app: &mut App<H, B>,
    before: &App<H, B>,
    groups: &Vec<WindowGroup>,
    hwnd: isize,
    reverse: bool,
    window: Option<isize>,
    place: Option<usize>,
    path: &str,
    order: &[isize],
    list: &Vec<isize>,
    turned: Option<Vec<isize>>,
    next: Option<WindowCycle>,
    other_path: Seq<char>,
)
    requires
        *before == *old(app),
        call_ensures(App::<H, B>::switch_windows, (app, groups, hwnd, reverse), window),
        call_ensures(find_group, (groups, hwnd), place),
        place is Some,
        path@ == groups@[place->0 as int].app_path@,
        call_ensures(App::<H, B>::uses_fixed_window_order, (before, path), true),
        order@ == final(app).fixed_order_windows@[path@]@,
        call_ensures(rotate_fixed_order, (order, hwnd), turned),
        turned is Some ==> list@ == turned->0@,
        call_ensures(
            SwitchWindowsState::step_fixed,
            (
                &before.switch_windows_state,
                &groups@[place->0 as int].app_path,
                list,
                hwnd,
                reverse,
            ),
            next,
        ),
    ensures
        final(app).fixed_order_windows@.contains_key(path@),
        is_updated(
            order@,
            if old(app).fixed_order_windows@.contains_key(path@) {
                old(app).fixed_order_windows@[path@]@
            } else {
                Seq::empty()
            },
            groups@[place->0 as int].windows@,
        ),
        turned is Some,
        is_carried_out(
            old(app).switch_windows_state,
            next,
            final(app).switch_windows_state,
            window,
        ),
        other_path != path@ ==> {
            let orders = old(app).fixed_order_windows@;
            let orders_after = final(app).fixed_order_windows@;
            &&& orders_after.contains_key(other_path) <==> orders.contains_key(other_path)
            &&& orders.contains_key(other_path) ==> orders_after[other_path]@
                == orders[other_path]@
        },
        keeps_all_but_walks(*old(app), *final(app)),
{
    let windows = groups@[place->0 as int].windows@;
    let orders = old(app).fixed_order_windows@;
    let orders_after = final(app).fixed_order_windows@;
    assert(final(app).fixed_orders().contains_key(path@));
    if other_path != path@ {
        assert(final(app).fixed_orders().contains_key(other_path) <==> old(
            app,
        ).fixed_orders().contains_key(other_path));
        if orders.contains_key(other_path) {
            assert(final(app).fixed_orders()[other_path] == orders_after[other_path]@);
            assert(old(app).fixed_orders()[other_path] == orders[other_path]@);
        }
    }
    let earlier = if old(app).fixed_orders().contains_key(path@) {
        old(app).fixed_orders()[path@]
    } else {
        Seq::empty()
    };
    lemma_group_place(groups@, hwnd);
    assert(final(app).fixed_orders()[path@] == orders_after[path@]@);
    assert(order@ == stable_order(old(app).fixed_orders(), path@, windows));
    lemma_merged(earlier, windows);
    merged_order_has_the_visible_windows(earlier, windows);
    assert(windows.contains(hwnd));
    assert(order@.contains(hwnd));
    lemma_first_position(order@, hwnd);
}

/// A walk through windows is a step, after which the panel is closed.
pub proof fn walking_windows_closes_the_panel<H, B>(
    app: &mut App<H, B>,
    groups: &Vec<WindowGroup>,
    hwnd: isize,
    reverse: bool,
    done: (Option<isize>, bool),
    stepped: &mut App<H, B>,
    window: Option<isize>,
)
    requires
        call_ensures(App::<H, B>::walk_windows, (app, groups, hwnd, reverse), done),
        *old(stepped) == *old(app),
        call_ensures(App::<H, B>::switch_windows, (stepped, groups, hwnd, reverse), window),
    ensures
        done.0 == window,
        done.1 <==> old(app).switch_apps_state is Some,
        final(app).switch_apps_state is None,
        done.1 ==> !final(app).painter.show,
        !done.1 ==> final(app).painter == old(app).painter,
        is_same_switcher(*old(app), *final(app)),
        final(app).cached_icons == old(app).cached_icons,
        final(app).fixed_orders() == final(stepped).fixed_orders(),
        ({
            let state = final(app).switch_windows_state;
            let stepped_state = final(stepped).switch_windows_state;
            state.modifier_released == stepped_state.modifier_released
        }),
        window is None ==> final(app).switch_windows_state == old(app).switch_windows_state,
        window is Some ==> final(stepped).switch_windows_state.cache is Some && remembers(
            final(app).switch_windows_state,
            final(stepped).switch_windows_state.cache->0,
        ),
{
    if window is Some {
        let state = final(app).switch_windows_state;
        let stepped_state = final(stepped).switch_windows_state;
        assert(state.last() == stepped_state.last());
    }
}

/// A step of the keyboard goes one place on in the open panel, and does nothing without it.
pub proof fn the_keyboard_walks_the_open_panel<H, B>(
    app: &mut App<H, B>,
    reverse: bool,
    pointer_position: (i32, i32),
    moved: bool,
)
    requires
        call_ensures(App::<H, B>::switch_apps, (app, reverse, pointer_position), moved),
    ensures
        moved <==> old(app).switch_apps_state is Some,
        keeps_all_but_interaction(*old(app), *final(app)),
        moved ==> is_step(
            old(app).switch_apps_state->0.interaction,
            old(app).switch_apps_state->0.apps@.len() as int,
            reverse,
            pointer_position,
            final(app).switch_apps_state->0.interaction,
        ),
{
    if moved {
        let panel = old(app).switch_apps_state->0;
        assert(panel.apps@.len() == panel.apps.len());
        lemma_step(panel.interaction, panel.apps@.len() as int, reverse, pointer_position);
    }
}

/// The panel opens on the applications that were gathered, as a panel does.
pub proof fn the_panel_opens_on_what_was_gathered<H, B>(
    app: &mut App<H, B>,
    before: &App<H, B>,
    groups: &Vec<AppGroup>,
    looked_up: Vec<AppIcon<H, B>>,
    reverse: bool,
    pointer_position: (i32, i32),
    missing: Vec<usize>,
    expected_missing: Vec<usize>,
    cache: &mut IconCache<H, B>,
    apps: Vec<(Rc<AppIcon<H, B>>, isize)>,
    panel: Option<SwitchAppsState<H, B>>,
)
    requires
        *before == *old(app),
        call_ensures(
            App::<H, B>::open_switch_apps,
            (app, groups, looked_up, reverse, pointer_position),
            (),
        ),
        call_ensures(App::<H, B>::missing_icons, (before, groups), missing),
        call_ensures(
            IconCache::<H, B>::missing,
            (&before.cached_icons, groups),
            expected_missing,
        ),
        *old(cache) == old(app).cached_icons,
        call_ensures(IconCache::<H, B>::gather, (cache, groups, looked_up), apps),
        call_ensures(SwitchAppsState::<H, B>::open, (apps, reverse, pointer_position), panel),
        apps@.len() == groups@.len(),
    ensures
        missing@ == expected_missing@,
        final(app).cached_icons@ == final(cache)@,
        final(app).switch_apps_state is Some <==> panel is Some,
        panel is Some ==> {
            let opened = final(app).switch_apps_state->0;
            &&& opened.apps@.len() == apps@.len()
            &&& forall|i: int|
                0 <= i < apps@.len() ==> *(#[trigger] opened.apps@[i]).0 == *apps@[i].0
                    && opened.apps@[i].1 == apps@[i].1
            &&& opened.interaction == panel->0.interaction
        },
        is_same_switcher(*old(app), *final(app)),
        keeps_walks(*old(app), *final(app)),
        final(app).painter == old(app).painter,
{
    if panel is Some {
        let opened = final(app).switch_apps_state->0;
        let one = app_views(opened.apps@);
        let other = app_views(apps@);
        assert(one == other);
        assert(one.len() == opened.apps@.len() && other.len() == apps@.len());
        assert forall|i: int| 0 <= i < apps@.len() implies *(#[trigger] opened.apps@[i]).0
            == *apps@[i].0 && opened.apps@[i].1 == apps@[i].1 by {
            assert(one[i] == other[i]);
        }
    }
}

/// An open panel has to be painted, and when the walk starts the pointer is then taken to
/// be where it is. It has to be brought up when it is painted for the first time.
pub proof fn open_panels_are_painted<H, B>(
    app: &App<H, B>,
    starting: bool,
    next: (bool, bool),
    painted: &mut App<H, B>,
    bring_up: bool,
    again: &mut App<H, B>,
    bring_up_again: bool,
)
    requires
        call_ensures(App::<H, B>::after_switch_apps, (app, starting), next),
        call_ensures(App::<H, B>::painted, (painted,), bring_up),
        *old(again) == *final(painted),
        call_ensures(App::<H, B>::painted, (again,), bring_up_again),
    ensures
        next.0 <==> app.switch_apps_state is Some,
        next.1 <==> starting && app.switch_apps_state is Some,
        bring_up <==> !old(painted).painter.show,
        final(painted).painter.show,
        !bring_up_again,
        is_same_switcher(*old(painted), *final(painted)),
        keeps_walks(*old(painted), *final(painted)),
        final(painted).switch_apps_state == old(painted).switch_apps_state,
        final(painted).cached_icons == old(painted).cached_icons,
{
}

/// A click on an item of the panel goes to the window of its application and closes the
/// panel. A click beside the items, or without a panel, changes nothing.
pub proof fn clicks_go_to_the_item_under_them<H, B>(
    app: &mut App<H, B>,
    before: &App<H, B>,
    position: (i32, i32),
    dpi: u32,
    client: ScreenRect,
    closed: Option<Option<isize>>,
    index: Option<usize>,
)
    requires
        *before == *old(app),
        call_ensures(App::<H, B>::click, (app, position, dpi, client), closed),
        before.switch_apps_state is Some ==> call_ensures(
            GdiAAPainter::find_app_index_at_client::<H, B>,
            (&before.painter, &before.switch_apps_state->0, position, dpi, client),
            index,
        ),
        before.switch_apps_state is None ==> index is None,
    ensures
        index is None ==> closed is None && *final(app) == *old(app),
        index matches Some(i) ==> {
            &&& closed == Some(Some(old(app).switch_apps_state->0.apps@[i as int].1))
            &&& is_closed(*old(app), *final(app), true)
        },
{
}

/// The pointer that moves over the open panel highlights the item under it.
pub proof fn the_pointer_highlights_the_item_under_it<H, B>(
    app: &mut App<H, B>,
    before: &App<H, B>,
    position: (i32, i32),
    pointer_position: (i32, i32),
    dpi: u32,
    client: ScreenRect,
    repaint: bool,
    index: Option<usize>,
)
    requires
        *before == *old(app),
        call_ensures(App::<H, B>::hover, (app, position, pointer_position, dpi, client), repaint),
        before.switch_apps_state is Some ==> call_ensures(
            GdiAAPainter::find_app_index_at_client::<H, B>,
            (&before.painter, &before.switch_apps_state->0, position, dpi, client),
            index,
        ),
    ensures
        keeps_all_but_interaction(*old(app), *final(app)),
        old(app).switch_apps_state is None ==> !repaint,
        old(app).switch_apps_state is Some ==> is_pointed(
            old(app).switch_apps_state->0.interaction,
            pointer_position,
            index,
            final(app).switch_apps_state->0.interaction,
            repaint,
        ),
{
}

/// The pointer that leaves the panel, or is taken to be somewhere, is over nothing.
pub proof fn the_pointer_leaves_the_panel<H, B>(
    app: &mut App<H, B>,
    repaint: bool,
    reset: &mut App<H, B>,
    pointer_position: (i32, i32),
)
    requires
        call_ensures(App::<H, B>::clear_hover, (app,), repaint),
        call_ensures(App::<H, B>::reset_pointer_position, (reset, pointer_position), ()),
    ensures
        keeps_all_but_interaction(*old(app), *final(app)),
        old(app).switch_apps_state is None ==> !repaint,
        old(app).switch_apps_state is Some ==> is_left(
            old(app).switch_apps_state->0.interaction,
            final(app).switch_apps_state->0.interaction,
            repaint,
        ),
        keeps_all_but_interaction(*old(reset), *final(reset)),
        old(reset).switch_apps_state is Some ==> is_reset(
            old(reset).switch_apps_state->0.interaction,
            pointer_position,
            final(reset).switch_apps_state->0.interaction,
        ),
{
}

/// The window of the application that the keyboard is on, in an open panel.
pub open spec fn is_keyboard_window<H, B>(app: App<H, B>, window: Option<isize>) -> bool {
    match app.switch_apps_state {
        Some(panel) => {
            let at = panel.interaction.keyboard_index;
            &&& at < panel.apps@.len() ==> window == Some(panel.apps@[at as int].1)
            &&& at >= panel.apps@.len() ==> window is None
        },
        None => window is None,
    }
}

/// Going to an application closes the panel and brings up the application's window: that of
/// the one asked for, or of the one that the keyboard is on. Calling off closes the panel
/// alone.
pub proof fn going_to_an_application_closes_the_panel<H, B>(
    app: &mut App<H, B>,
    closed: Option<Option<isize>>,
    at_app: &mut App<H, B>,
    index: usize,
    closed_at: Option<Option<isize>>,
    cancelled: &mut App<H, B>,
    was_open: bool,
)
    requires
        call_ensures(App::<H, B>::do_switch_app, (app,), closed),
        call_ensures(App::<H, B>::do_switch_app_at, (at_app, index), closed_at),
        call_ensures(App::<H, B>::cancel_switch_app, (cancelled,), was_open),
    ensures
        is_closed(*old(app), *final(app), closed is Some),
        closed is Some ==> is_keyboard_window(*old(app), closed->0),
        is_closed(*old(at_app), *final(at_app), closed_at is Some),
        closed_at is Some ==> {
            let apps = old(at_app).switch_apps_state->0.apps@;
            &&& index < apps.len() ==> closed_at->0 == Some(apps[index as int].1)
            &&& index >= apps.len() ==> closed_at->0 is None
        },
        is_closed(*old(cancelled), *final(cancelled), was_open),
{
}

/// The messages of the keyboard about the walk through applications: the first opens the
/// panel, as the configuration says, and the next ones walk on in it; letting go closes it
/// and goes to the application that the keyboard is on; calling off only closes it.
pub proof fn messages_walk_through_applications<H, B>(
    app: &mut App<H, B>,
    message: Message,
    action: Action,
)
    requires
        call_ensures(App::<H, B>::handle_message, (app, message), action),
    ensures
        message matches Message::SwitchApps { reverse } ==> {
            &&& *final(app) == *old(app)
            &&& old(app).switch_apps_state is Some ==> action == (Action::Navigate { reverse })
            &&& old(app).switch_apps_state is None ==> action == (Action::OpenApps {
                reverse,
                ignore_minimal: old(app).config.switch_apps_ignore_minimal,
                only_current_desktop: old(app).config.switch_apps_only_current_desktop,
                is_admin: old(app).is_admin,
            })
        },
        message is SwitchAppsDone ==> {
            &&& is_closed(*old(app), *final(app), action is Close)
            &&& !(action is Close) ==> action is Nothing
            &&& action matches Action::Close { foreground } ==> is_keyboard_window(
                *old(app),
                foreground,
            )
        },
        message is SwitchAppsCancel ==> {
            &&& is_closed(*old(app), *final(app), action is Close)
            &&& !(action is Close) ==> action is Nothing
            &&& action matches Action::Close { foreground } ==> foreground is None
        },
{
}

/// The messages of the keyboard about the walk through windows: it goes through those of
/// the application that the keyboard is on in the open panel, or of the one in front, as
/// the configuration says. Letting go ends the walk and keeps what it has left.
pub proof fn messages_walk_through_windows<H, B>(
    app: &mut App<H, B>,
    message: Message,
    action: Action,
)
    requires
        call_ensures(App::<H, B>::handle_message, (app, message), action),
    ensures
        message matches Message::SwitchWindows { reverse } ==> {
            &&& *final(app) == *old(app)
            &&& action is WalkWindows
            &&& action matches Action::WalkWindows {
                reverse: backwards,
                of,
                ignore_minimal,
                only_current_desktop,
                is_admin,
            } ==> {
                &&& backwards == reverse
                &&& is_keyboard_window(*old(app), of)
                &&& ignore_minimal == old(app).config.switch_windows_ignore_minimal
                &&& only_current_desktop == old(app).config.switch_windows_only_current_desktop
                &&& is_admin == old(app).is_admin
            }
        },
        message is SwitchWindowsDone ==> {
            &&& action is Nothing
            &&& final(app).switch_windows_state.modifier_released
            &&& final(app).switch_windows_state.cache == old(app).switch_windows_state.cache
            &&& final(app).fixed_order_windows == old(app).fixed_order_windows
            &&& keeps_all_but_walks(*old(app), *final(app))
        },
{
}

/// The messages of the pointer count while the panel is open. A click and a move are looked
/// into at the place where they were made; a pointer that leaves is over nothing, and the
/// panel is painted anew if it was over something.
pub proof fn messages_of_the_pointer_count_in_the_panel<H, B>(
    app: &mut App<H, B>,
    message: Message,
    action: Action,
)
    requires
        call_ensures(App::<H, B>::handle_message, (app, message), action),
    ensures
        message matches Message::Click { position } ==> {
            &&& *final(app) == *old(app)
            &&& old(app).switch_apps_state is Some ==> action == (Action::FindClicked { position })
            &&& old(app).switch_apps_state is None ==> action is Nothing
        },
        message matches Message::PointerMoved { position } ==> {
            &&& *final(app) == *old(app)
            &&& old(app).switch_apps_state is Some ==> action == (Action::FindHovered { position })
            &&& old(app).switch_apps_state is None ==> action is Nothing
        },
        message is PointerLeft ==> {
            &&& keeps_all_but_interaction(*old(app), *final(app))
            &&& action is Repaint || action is Nothing
            &&& old(app).switch_apps_state is None ==> action is Nothing
            &&& old(app).switch_apps_state is Some ==> is_left(
                old(app).switch_apps_state->0.interaction,
                final(app).switch_apps_state->0.interaction,
                action is Repaint,
            )
        },
{
}

/// The tray icon and the menu. A menu is shown where there is a tray icon; its choices are
/// carried out and change nothing here. The tray icon is put in place where one is wanted;
/// a new taskbar also closes the panel and makes every icon forgotten.
pub proof fn messages_of_the_tray_are_carried_out<H, B>(
    app: &mut App<H, B>,
    message: Message,
    action: Action,
)
    requires
        call_ensures(App::<H, B>::handle_message, (app, message), action),
    ensures
        message matches Message::TrayIcon { menu } ==> {
            &&& *final(app) == *old(app)
            &&& menu && old(app).has_trayicon ==> action is ShowMenu
            &&& !(menu && old(app).has_trayicon) ==> action is Nothing
        },
        message is Exit ==> action is Exit && *final(app) == *old(app),
        message is ToggleStartup ==> action is ToggleStartup && *final(app) == *old(app),
        message is Configure ==> action is Configure && *final(app) == *old(app),
        message is HitTest || message is EraseBackground || message is Other ==> action is Nothing
            && *final(app) == *old(app),
        message matches Message::RegisterTrayIcon { taskbar_created } ==> {
            let open = old(app).switch_apps_state is Some;
            &&& action == (Action::RenewTrayIcon {
                close: taskbar_created && open,
                register: old(app).has_trayicon,
            })
            &&& !taskbar_created ==> *final(app) == *old(app)
            &&& taskbar_created ==> {
                &&& final(app).switch_apps_state is None
                &&& open ==> !final(app).painter.show
                &&& !open ==> final(app).painter == old(app).painter
                &&& is_same_switcher(*old(app), *final(app))
                &&& keeps_walks(*old(app), *final(app))
                &&& forall|path: Seq<char>| !final(app).cached_icons@.contains_key(path)
            }
        },
{
}

} // verus!
