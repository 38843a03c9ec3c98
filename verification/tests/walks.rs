use indexmap::IndexMap;
use window_switcher::app::{start, App, Config};
use window_switcher::switch_windows::{find_group, held_windows, WindowGroup};

fn config(fixed_order: &[&str]) -> Config {
    Config {
        trayicon: true,
        switch_windows_ignore_minimal: true,
        switch_windows_only_current_desktop: false,
        switch_windows_fixed_order: fixed_order.iter().map(|name| name.to_string()).collect(),
        switch_apps_ignore_minimal: false,
        switch_apps_only_current_desktop: true,
        switch_apps_override_icons: IndexMap::new(),
    }
}

fn app(fixed_order: &[&str]) -> App<usize, usize> {
    start(&config(fixed_order), false, false)
}

fn group(app_path: &str, windows: &[isize]) -> WindowGroup {
    WindowGroup {
        app_path: app_path.to_string(),
        windows: windows.to_vec(),
    }
}

const EDITOR: &str = "C:\\Tools\\Editor.exe";

#[test]
fn the_group_of_a_window_is_the_first_that_has_it() {
    let groups = vec![group("a", &[1, 2]), group("b", &[3]), group("c", &[3, 4])];
    assert_eq!(find_group(&groups, 2), Some(0));
    assert_eq!(find_group(&groups, 3), Some(1));
    assert_eq!(find_group(&groups, 4), Some(2));
    assert_eq!(find_group(&groups, 5), None);
}

#[test]
fn an_unknown_window_or_a_lone_one_leads_nowhere() {
    let mut app = app(&[]);
    let groups = vec![group(EDITOR, &[1]), group("other", &[2, 3])];
    assert_eq!(app.switch_windows(&groups, 9, false), None);
    assert_eq!(app.switch_windows(&groups, 1, false), None);
    assert!(app.switch_windows_state.cache.is_none());
    assert!(app.switch_windows_state.modifier_released);
}

#[test]
fn a_lone_window_in_a_stable_order_is_remembered() {
    let mut app = app(&["editor.exe"]);
    assert_eq!(app.switch_windows(&vec![group(EDITOR, &[1])], 1, false), None);
    assert!(app.switch_windows_state.cache.is_none());
    // The window that came first stays first.
    assert_eq!(
        app.switch_windows(&vec![group(EDITOR, &[2, 1])], 2, false),
        Some(1)
    );
    assert_eq!(
        app.fixed_order_windows.get(EDITOR).unwrap(),
        &vec![1, 2]
    );
}

#[test]
fn two_windows_change_places() {
    let mut app = app(&[]);
    assert_eq!(
        app.switch_windows(&vec![group(EDITOR, &[1, 2])], 1, false),
        Some(2)
    );
    assert_eq!(
        app.switch_windows(&vec![group(EDITOR, &[2, 1])], 2, false),
        Some(1)
    );
}

#[test]
fn a_held_walk_visits_every_window() {
    let mut app = app(&[]);
    // The order of the list changes with every window that comes to the front.
    assert_eq!(
        app.switch_windows(&vec![group(EDITOR, &[1, 2, 3])], 1, false),
        Some(2)
    );
    assert_eq!(
        app.switch_windows(&vec![group(EDITOR, &[2, 1, 3])], 2, false),
        Some(3)
    );
    assert_eq!(
        app.switch_windows(&vec![group(EDITOR, &[3, 2, 1])], 3, false),
        Some(1)
    );
    assert_eq!(
        app.switch_windows(&vec![group(EDITOR, &[1, 3, 2])], 1, true),
        Some(3)
    );
    let walk = app.switch_windows_state.cache.as_ref().unwrap();
    assert_eq!(walk.id, 1);
    assert_eq!(walk.index, 2);
    assert_eq!(walk.windows, vec![1, 2, 3]);
    assert!(!app.switch_windows_state.modifier_released);
}

#[test]
fn after_letting_go_the_walk_returns_to_where_it_started() {
    let mut app = app(&[]);
    assert_eq!(
        app.switch_windows(&vec![group(EDITOR, &[1, 2, 3])], 1, false),
        Some(2)
    );
    assert_eq!(
        app.switch_windows(&vec![group(EDITOR, &[2, 1, 3])], 2, false),
        Some(3)
    );
    app.switch_windows_state.modifier_released = true;
    // Window 1 is third in the list now, and the walk had started from it.
    assert_eq!(
        app.switch_windows(&vec![group(EDITOR, &[3, 2, 1])], 3, false),
        Some(1)
    );
    let walk = app.switch_windows_state.cache.as_ref().unwrap();
    assert_eq!((walk.id, walk.index), (3, 2));
}

#[test]
fn windows_that_vanish_and_appear_are_followed() {
    // What is left goes last into the gaps that the list leaves.
    assert_eq!(held_windows(&vec![1, 2, 3, 4], &vec![3, 9]), vec![3, 1, 2, 4]);
    assert_eq!(held_windows(&vec![1, 2, 3, 4], &vec![1]), vec![1, 4, 2, 3]);
    assert_eq!(held_windows(&vec![1, 2, 3, 4], &vec![2, 1]), vec![2, 1, 3, 4]);
    assert_eq!(held_windows(&vec![], &vec![2, 1]), Vec::<isize>::new());
    assert_eq!(held_windows(&vec![5, 5, 6], &vec![]), vec![5, 6]);
}

#[test]
fn a_stable_order_is_walked_in_both_directions() {
    let mut app = app(&["editor.exe"]);
    let path = "C:\\Tools\\EDITOR.EXE::profile";
    assert!(app.uses_fixed_window_order(path));
    assert!(!app.uses_fixed_window_order("C:\\Tools\\editor.exe\\x"));
    assert_eq!(
        app.switch_windows(&vec![group(path, &[1, 2, 3])], 1, true),
        Some(3)
    );
    assert_eq!(
        app.switch_windows(&vec![group(path, &[3, 1, 2])], 3, true),
        Some(2)
    );
    app.switch_windows_state.modifier_released = true;
    // The order is still 1, 2, 3, and 2 is current.
    assert_eq!(
        app.switch_windows(&vec![group(path, &[2, 3, 1])], 2, false),
        Some(3)
    );
    let walk = app.switch_windows_state.cache.as_ref().unwrap();
    assert_eq!((walk.id, walk.index), (2, 1));
    assert_eq!(walk.windows, vec![2, 3, 1]);
    // A window goes while the modifier is down.
    assert_eq!(
        app.switch_windows(&vec![group(path, &[3, 2])], 3, false),
        Some(2)
    );
}

#[test]
fn walks_of_different_applications_do_not_mix() {
    let mut app = app(&[]);
    let groups = vec![group("a", &[1, 2, 3]), group("b", &[4, 5, 6])];
    assert_eq!(app.switch_windows(&groups, 1, false), Some(2));
    assert_eq!(app.switch_windows(&groups, 4, false), Some(5));
    assert_eq!(
        app.switch_windows_state.cache.as_ref().unwrap().app_path,
        "b"
    );
}

#[test]
fn two_short_walks_lead_back() {
    let mut app = app(&[]);
    assert_eq!(
        app.switch_windows(&vec![group(EDITOR, &[1, 2, 3, 4])], 1, false),
        Some(2)
    );
    app.switch_windows_state.modifier_released = true;
    assert_eq!(
        app.switch_windows(&vec![group(EDITOR, &[2, 1, 3, 4])], 2, true),
        Some(1)
    );
    app.switch_windows_state.modifier_released = true;
    assert_eq!(
        app.switch_windows(&vec![group(EDITOR, &[1, 2, 3, 4])], 1, false),
        Some(2)
    );
}

#[test]
fn every_step_leads_to_a_window_of_the_application() {
    for fixed in [&[][..], &["editor.exe"][..]] {
        let mut app = app(fixed);
        let lists: [&[isize]; 6] =
            [&[1, 2, 3], &[2, 3], &[3, 2, 5, 6], &[6, 5], &[5], &[7, 8, 9, 5]];
        for (step, windows) in lists.iter().enumerate() {
            let groups = vec![group("other", &[99]), group(EDITOR, windows)];
            let next = app.switch_windows(&groups, windows[0], step % 2 == 1);
            assert_eq!(next.is_some(), windows.len() > 1);
            if let Some(next) = next {
                assert!(windows.contains(&next));
                assert_ne!(next, windows[0]);
            }
        }
    }
}

#[test]
fn a_held_round_visits_every_window() {
    for fixed in [&[][..], &["editor.exe"][..]] {
        let mut app = app(fixed);
        let mut windows = vec![1, 2, 3, 4, 5];
        let mut seen = Vec::new();
        for _ in 0..windows.len() {
            let next = app
                .switch_windows(&vec![group(EDITOR, &windows)], windows[0], false)
                .unwrap();
            // The window that comes up is listed first from now on.
            windows.retain(|id| *id != next);
            windows.insert(0, next);
            seen.push(next);
        }
        assert_eq!(seen, vec![2, 3, 4, 5, 1]);
        assert_eq!(
            app.switch_windows_state.cache.as_ref().unwrap().windows,
            vec![1, 2, 3, 4, 5]
        );
    }
}

#[test]
fn the_list_of_a_walk_has_the_windows_of_the_application() {
    for fixed in [&[][..], &["editor.exe"][..]] {
        let mut app = app(fixed);
        let lists: [&[isize]; 5] = [&[1, 2, 3], &[2, 3, 4], &[3, 2], &[9, 3, 2, 8], &[8, 9, 1]];
        for windows in lists {
            let groups = vec![group(EDITOR, windows)];
            assert!(app.switch_windows(&groups, windows[0], false).is_some());
            let mut list = app.switch_windows_state.cache.as_ref().unwrap().windows.clone();
            list.sort_unstable();
            let mut expected = windows.to_vec();
            expected.sort_unstable();
            assert_eq!(list, expected);
        }
    }
}
