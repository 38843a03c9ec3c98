use indexmap::IndexMap;
use window_switcher::app::{start, Action, App, Config};
use window_switcher::app_icon::AppIcon;
use window_switcher::messages::Message;
use window_switcher::painter::ScreenRect;
use window_switcher::pixels::PixelBounds;
use window_switcher::switch_apps::{process_identities, AppGroup, IconCache};
use window_switcher::switch_windows::WindowGroup;

fn config(trayicon: bool) -> Config {
    let mut override_icons = IndexMap::new();
    override_icons.insert("b".to_string(), "second".to_string());
    override_icons.insert("a".to_string(), "first".to_string());
    Config {
        trayicon,
        switch_windows_ignore_minimal: true,
        switch_windows_only_current_desktop: false,
        switch_windows_fixed_order: vec!["editor.exe".to_string()],
        switch_apps_ignore_minimal: false,
        switch_apps_only_current_desktop: true,
        switch_apps_override_icons: override_icons,
    }
}

fn app() -> App<usize, usize> {
    start(&config(true), true, false)
}

fn group(app_path: &str, windows: &[isize], first_is_iconic: bool, times: &[u64]) -> AppGroup {
    AppGroup {
        app_path: app_path.to_string(),
        windows: windows.to_vec(),
        first_is_iconic,
        start_times: times.iter().map(|time| Some(*time)).collect(),
    }
}

fn icon(handle: usize) -> AppIcon<usize, usize> {
    AppIcon::from_hicon(Some(handle), Some((32, 32)), Some(PixelBounds::full(32, 32)))
}

fn handles(app: &App<usize, usize>) -> Vec<(usize, isize)> {
    let state = app.switch_apps_state.as_ref().unwrap();
    state.apps.iter().map(|(icon, id)| (icon.candidates[0].hicon, *id)).collect()
}

fn groups() -> Vec<AppGroup> {
    vec![
        group("a.exe", &[1, 2], false, &[7, 7]),
        group("b.exe", &[3, 4, 5], true, &[9, 8, 9]),
        group("c.exe", &[6], false, &[5]),
    ]
}

fn open(app: &mut App<usize, usize>, reverse: bool) {
    let groups = groups();
    let looked_up = app.missing_icons(&groups).iter().map(|place| icon(100 + place)).collect();
    app.open_switch_apps(&groups, looked_up, reverse, (50, 60));
}

#[test]
fn the_switcher_starts_with_nothing_open() {
    let app: App<usize, usize> = start(&config(false), true, true);
    assert!(app.is_admin);
    assert!(!app.has_trayicon);
    assert!(app.switch_apps_state.is_none());
    assert!(app.switch_windows_state.cache.is_none());
    assert!(app.switch_windows_state.modifier_released);
    assert!(app.fixed_order_windows.get("x").is_none());
    assert!(app.cached_icons.icons.get("x").is_none());
    assert!(app.painter.rounded_corner);
    assert!(!app.painter.show);
    assert_eq!(app.config.switch_windows_fixed_order, vec!["editor.exe"]);
    assert_eq!(
        app.config.switch_apps_override_icons,
        config(false).switch_apps_override_icons
    );
    assert_eq!(
        app.config.switch_apps_override_icons.keys().collect::<Vec<_>>(),
        vec!["b", "a"]
    );
}

#[test]
fn the_panel_opens_on_the_next_application() {
    let mut app = app();
    assert!(!app.switch_apps(false, (0, 0)));
    open(&mut app, false);
    // The last window stands for an application whose first is minimised.
    assert_eq!(handles(&app), vec![(100, 1), (101, 5), (102, 6)]);
    assert_eq!(app.switch_apps_state.as_ref().unwrap().keyboard_index(), 1);
    assert!(app.switch_apps(false, (0, 0)));
    assert_eq!(app.switch_apps_state.as_ref().unwrap().keyboard_index(), 2);
    assert!(app.switch_apps(false, (0, 0)));
    assert_eq!(app.switch_apps_state.as_ref().unwrap().keyboard_index(), 0);
}

#[test]
fn the_panel_opens_backwards_on_the_last_application() {
    let mut app = app();
    open(&mut app, true);
    assert_eq!(app.switch_apps_state.as_ref().unwrap().keyboard_index(), 2);
    assert_eq!(
        app.handle_message(Message::SwitchAppsDone),
        Action::Close { foreground: Some(6) }
    );
    let one = vec![group("a.exe", &[1], true, &[7])];
    app.open_switch_apps(&one, vec![], true, (0, 0));
    assert_eq!(app.switch_apps_state.as_ref().unwrap().keyboard_index(), 0);
}

#[test]
fn without_applications_the_panel_stays_closed() {
    let mut app = app();
    app.open_switch_apps(&vec![], vec![], false, (0, 0));
    assert!(app.switch_apps_state.is_none());
}

#[test]
fn icons_are_kept_while_the_processes_stay() {
    let mut app = app();
    assert_eq!(app.missing_icons(&groups()), vec![0, 1, 2]);
    open(&mut app, false);
    assert!(app.cancel_switch_app());
    assert_eq!(app.missing_icons(&groups()), Vec::<usize>::new());
    // The order of windows and their number do not matter, the processes do.
    let changed = vec![
        group("a.exe", &[2, 1, 8], false, &[7, 7, 7]),
        group("b.exe", &[3, 4], true, &[8, 9]),
        group("c.exe", &[6], false, &[6]),
        AppGroup { start_times: vec![Some(5), None], ..group("d.exe", &[9], false, &[]) },
    ];
    assert_eq!(app.missing_icons(&changed), vec![2, 3]);
    app.open_switch_apps(&changed, vec![icon(200), icon(201)], false, (0, 0));
    assert_eq!(
        handles(&app),
        vec![(100, 2), (101, 4), (200, 6), (201, 9)]
    );
    app.cancel_switch_app();
    // An application whose processes are not known is looked up every time.
    assert_eq!(app.missing_icons(&changed), vec![3]);
}

#[test]
fn a_new_taskbar_makes_icons_forgotten() {
    let mut app = app();
    open(&mut app, false);
    app.painted();
    assert_eq!(
        app.handle_message(Message::RegisterTrayIcon { taskbar_created: false }),
        Action::RenewTrayIcon { close: false, register: true }
    );
    assert!(app.switch_apps_state.is_some());
    assert_eq!(
        app.handle_message(Message::RegisterTrayIcon { taskbar_created: true }),
        Action::RenewTrayIcon { close: true, register: true }
    );
    assert!(app.switch_apps_state.is_none());
    assert!(!app.painter.show);
    assert_eq!(app.missing_icons(&groups()), vec![0, 1, 2]);
}

#[test]
fn identities_are_sorted_and_unique() {
    assert_eq!(
        process_identities(&vec![Some(5), Some(2), Some(9), Some(2), Some(5)]),
        Some(vec![2, 5, 9])
    );
    assert_eq!(process_identities(&vec![]), Some(vec![]));
    assert_eq!(process_identities(&vec![Some(5), None]), None);
}

#[test]
fn a_cache_without_identities_gives_nothing_back() {
    let mut cache: IconCache<usize, usize> = IconCache::new();
    cache.keep("a".to_string(), std::rc::Rc::new(icon(1)), None);
    assert!(cache.find("a", &None).is_none());
    assert!(cache.find("a", &Some(vec![])).is_none());
    cache.keep("a".to_string(), std::rc::Rc::new(icon(2)), Some(vec![]));
    assert_eq!(
        cache.find("a", &Some(vec![])).unwrap().candidates[0].hicon,
        2
    );
    assert!(cache.find("a", &Some(vec![1])).is_none());
    assert!(cache.find("b", &Some(vec![])).is_none());
    cache.clear();
    assert!(cache.find("a", &Some(vec![])).is_none());
}

// Three items of 72 pixels and a border of 10.
const CLIENT: ScreenRect = ScreenRect { left: 0, top: 0, right: 236, bottom: 92 };

#[test]
fn a_click_goes_to_the_application_under_it() {
    let mut app = app();
    assert_eq!(app.click((20, 20), 96, CLIENT), None);
    open(&mut app, false);
    app.painted();
    assert_eq!(app.click((5, 20), 96, CLIENT), None);
    assert!(app.switch_apps_state.is_some());
    assert_eq!(app.click((10 + 72 * 2, 20), 96, CLIENT), Some(Some(6)));
    assert!(app.switch_apps_state.is_none());
    assert!(!app.painter.show);
}

#[test]
fn the_pointer_highlights_without_moving_the_keyboard() {
    let mut app = app();
    assert!(!app.hover((20, 20), (70, 80), 96, CLIENT));
    open(&mut app, false);
    app.reset_pointer_position((70, 80));
    // The pointer was there when the panel opened.
    assert!(!app.hover((20, 20), (70, 80), 96, CLIENT));
    assert!(app.hover((20, 20), (71, 80), 96, CLIENT));
    assert_eq!(app.switch_apps_state.as_ref().unwrap().displayed_index(), 0);
    assert_eq!(app.handle_message(Message::PointerLeft), Action::Repaint);
    assert_eq!(app.handle_message(Message::PointerLeft), Action::Nothing);
    assert!(app.hover((10 + 72 * 2, 20), (80, 80), 96, CLIENT));
    assert_eq!(app.switch_apps_state.as_ref().unwrap().displayed_index(), 2);
    assert_eq!(
        app.handle_message(Message::SwitchAppsDone),
        Action::Close { foreground: Some(5) }
    );
}

#[test]
fn messages_lead_to_actions() {
    let mut app = app();
    assert_eq!(
        app.handle_message(Message::SwitchApps { reverse: true }),
        Action::OpenApps {
            reverse: true,
            ignore_minimal: false,
            only_current_desktop: true,
            is_admin: true,
        }
    );
    assert_eq!(
        app.handle_message(Message::SwitchWindows { reverse: false }),
        Action::WalkWindows {
            reverse: false,
            of: None,
            ignore_minimal: true,
            only_current_desktop: false,
            is_admin: true,
        }
    );
    assert_eq!(app.handle_message(Message::SwitchAppsDone), Action::Nothing);
    assert_eq!(app.handle_message(Message::SwitchAppsCancel), Action::Nothing);
    assert_eq!(app.handle_message(Message::PointerLeft), Action::Nothing);
    assert_eq!(
        app.handle_message(Message::Click { position: (1, 2) }),
        Action::Nothing
    );
    assert_eq!(
        app.handle_message(Message::PointerMoved { position: (1, 2) }),
        Action::Nothing
    );
    open(&mut app, false);
    assert_eq!(
        app.handle_message(Message::SwitchApps { reverse: true }),
        Action::Navigate { reverse: true }
    );
    assert_eq!(
        app.handle_message(Message::SwitchWindows { reverse: true }),
        Action::WalkWindows {
            reverse: true,
            of: Some(5),
            ignore_minimal: true,
            only_current_desktop: false,
            is_admin: true,
        }
    );
    assert_eq!(
        app.handle_message(Message::Click { position: (1, 2) }),
        Action::FindClicked { position: (1, 2) }
    );
    assert_eq!(
        app.handle_message(Message::PointerMoved { position: (1, 2) }),
        Action::FindHovered { position: (1, 2) }
    );
    assert_eq!(
        app.handle_message(Message::SwitchAppsCancel),
        Action::Close { foreground: None }
    );
    app.switch_windows_state.modifier_released = false;
    assert_eq!(app.handle_message(Message::SwitchWindowsDone), Action::Nothing);
    assert!(app.switch_windows_state.modifier_released);
    assert_eq!(
        app.handle_message(Message::TrayIcon { menu: true }),
        Action::ShowMenu
    );
    assert_eq!(
        app.handle_message(Message::TrayIcon { menu: false }),
        Action::Nothing
    );
    assert_eq!(app.handle_message(Message::Exit), Action::Exit);
    assert_eq!(app.handle_message(Message::ToggleStartup), Action::ToggleStartup);
    assert_eq!(app.handle_message(Message::Configure), Action::Configure);
    assert_eq!(app.handle_message(Message::HitTest), Action::Nothing);
    let mut plain: App<usize, usize> = start(&config(false), false, false);
    assert_eq!(
        plain.handle_message(Message::TrayIcon { menu: true }),
        Action::Nothing
    );
    assert_eq!(
        plain.handle_message(Message::RegisterTrayIcon { taskbar_created: false }),
        Action::RenewTrayIcon { close: false, register: false }
    );
}

#[test]
fn going_to_an_application_that_is_not_there_only_closes() {
    let mut app = app();
    assert_eq!(app.do_switch_app_at(0), None);
    assert_eq!(app.do_switch_app(), None);
    open(&mut app, false);
    assert_eq!(app.do_switch_app_at(9), Some(None));
    assert!(!app.cancel_switch_app());
}

#[test]
fn a_walk_through_windows_closes_the_panel() {
    let mut app = app();
    open(&mut app, false);
    app.painted();
    let windows = vec![
        WindowGroup { app_path: "a.exe".to_string(), windows: vec![1, 2] },
        WindowGroup { app_path: "c.exe".to_string(), windows: vec![6] },
    ];
    assert_eq!(app.walk_windows(&windows, 1, false), (Some(2), true));
    assert!(app.switch_apps_state.is_none());
    assert!(!app.painter.show);
    assert_eq!(app.walk_windows(&windows, 2, false), (Some(2), false));
    // It closes as well where there is no other window.
    open(&mut app, false);
    assert_eq!(app.walk_windows(&windows, 6, false), (None, true));
    assert!(app.switch_apps_state.is_none());
    assert_eq!(app.walk_windows(&windows, 7, false), (None, false));
}

#[test]
fn a_missing_tray_icon_is_asked_for_again() {
    let with_icon = app();
    assert_eq!(with_icon.set_trayicon(true, true), None);
    assert_eq!(with_icon.set_trayicon(false, true), None);
    assert_eq!(with_icon.set_trayicon(false, false), Some(3));
    let without: App<usize, usize> = start(&config(false), false, false);
    assert_eq!(without.set_trayicon(false, false), None);
}

#[test]
fn a_panel_that_opens_is_painted_and_then_takes_the_pointer_to_be_there() {
    let mut app = app();
    app.open_switch_apps(&vec![], vec![], false, (0, 0));
    assert_eq!(app.after_switch_apps(true), (false, false));
    open(&mut app, false);
    assert_eq!(app.after_switch_apps(true), (true, true));
    app.switch_apps(false, (0, 0));
    assert_eq!(app.after_switch_apps(false), (true, false));
}
