use window_switcher::keyboard::{
    hotkey_uses_win, mask_needs_key_up_recovery, physical_win_state, should_send_win_mask,
    win_mask_input, Hotkey, KeyStroke, KeyboardListener, WinMaskState, LLKHF_INJECTED, LLKHF_UP,
    SCANCODE_DOWN, SCANCODE_ESCAPE, SCANCODE_LEFT, SCANCODE_LSHIFT, SCANCODE_LWIN, SCANCODE_RIGHT,
    SCANCODE_RWIN, SCANCODE_UP, SWITCH_APPS_HOTKEY_ID, SWITCH_WINDOWS_HOTKEY_ID, VK_CONTROL,
    WIN_MASK_INPUT_TAG,
};
use window_switcher::messages::{
    decode_message, Message, WM_USER_SWITCH_APPS, WM_USER_SWITCH_APPS_CANCEL, WM_USER_SWITCH_APPS_DONE,
    WM_USER_SWITCH_WINDOWS, WM_USER_SWITCH_WINDOWS_DONE,
};

fn hotkey_with_modifier(modifier: [u32; 2]) -> Hotkey {
    Hotkey {
        id: SWITCH_WINDOWS_HOTKEY_ID,
        name: "test".to_string(),
        modifier,
        code: 0x29,
    }
}

#[test]
fn identifies_windows_modifier() {
    let hotkey = hotkey_with_modifier([SCANCODE_LWIN, SCANCODE_RWIN]);

    assert!(hotkey_uses_win(&hotkey));
}

#[test]
fn claims_only_once_until_windows_key_is_released() {
    let mut state = WinMaskState::new();

    assert!(state.claim(true));
    assert!(!state.claim(true));

    state.reset();

    assert!(state.claim(true));
}

#[test]
fn non_windows_modifier_does_not_claim_cycle() {
    let mut state = WinMaskState::new();
    let alt_hotkey = hotkey_with_modifier([0x38, 0x38]);

    assert!(!state.claim(hotkey_uses_win(&alt_hotkey)));
    assert!(state.claim(true));
}

#[test]
fn held_control_claims_cycle_without_sending_mask() {
    let mut state = WinMaskState::new();
    let hotkey = hotkey_with_modifier([SCANCODE_LWIN, SCANCODE_RWIN]);

    assert!(!should_send_win_mask(&mut state, &hotkey, true));
    assert!(!should_send_win_mask(&mut state, &hotkey, false));
}

#[test]
fn identifies_physical_windows_key_state() {
    assert_eq!(physical_win_state(SCANCODE_LWIN, LLKHF_UP), Some(false));
    assert_eq!(
        physical_win_state(SCANCODE_RWIN, LLKHF_UP | LLKHF_INJECTED),
        None
    );
    assert_eq!(physical_win_state(SCANCODE_LWIN, 0), Some(true));
}

#[test]
fn partial_mask_delivery_requires_control_release_recovery() {
    assert!(!mask_needs_key_up_recovery(0));
    assert!(mask_needs_key_up_recovery(1));
    assert!(!mask_needs_key_up_recovery(2));
}

#[test]
fn new_physical_windows_cycle_clears_injected_stale_claim() {
    let mut state = WinMaskState::new();
    assert!(state.claim(true));

    state.observe_physical_win(true);

    assert!(state.claim(true));
}

const TAB: u32 = 0x0f;
const ALT: u32 = 0x38;
const GRAVE: u32 = 0x29;

fn listener() -> KeyboardListener {
    let apps = Hotkey {
        id: SWITCH_APPS_HOTKEY_ID,
        name: "apps".to_string(),
        modifier: [ALT, ALT],
        code: TAB,
    };
    let windows = Hotkey {
        id: SWITCH_WINDOWS_HOTKEY_ID,
        name: "windows".to_string(),
        modifier: [SCANCODE_LWIN, SCANCODE_RWIN],
        code: GRAVE,
    };
    KeyboardListener::init(&[&apps, &windows])
}

fn press(scan_code: u32) -> KeyStroke {
    KeyStroke { scan_code, flags: 0, extra_info: 0 }
}

fn release(scan_code: u32) -> KeyStroke {
    KeyStroke { scan_code, flags: LLKHF_UP, extra_info: 0 }
}

/// Follows a stroke and delivers its messages.
fn follow(listener: &mut KeyboardListener, stroke: KeyStroke) -> (bool, Vec<(u32, isize)>, bool) {
    let reply = listener.keyboard_proc(stroke, false, false);
    for notice in &reply.notices {
        listener.delivered(*notice);
    }
    (
        reply.send_win_mask,
        reply.notices.iter().map(|notice| (notice.message, notice.lparam)).collect(),
        reply.consumed,
    )
}

#[test]
fn a_walk_through_the_applications() {
    let mut keys = listener();
    assert_eq!(follow(&mut keys, press(TAB)), (false, vec![], false));
    assert_eq!(follow(&mut keys, press(ALT)), (false, vec![], false));
    // Arrows do nothing before the panel is open.
    assert_eq!(follow(&mut keys, press(SCANCODE_LEFT)), (false, vec![], false));
    assert_eq!(
        follow(&mut keys, press(TAB)),
        (false, vec![(WM_USER_SWITCH_APPS, 0)], true)
    );
    assert_eq!(follow(&mut keys, release(TAB)), (false, vec![], false));
    assert_eq!(follow(&mut keys, press(SCANCODE_LSHIFT)), (false, vec![], false));
    assert_eq!(
        follow(&mut keys, press(TAB)),
        (false, vec![(WM_USER_SWITCH_APPS, 1)], true)
    );
    for (arrow, reverse) in [
        (SCANCODE_UP, 1),
        (SCANCODE_LEFT, 1),
        (SCANCODE_RIGHT, 0),
        (SCANCODE_DOWN, 0),
    ] {
        assert_eq!(
            follow(&mut keys, press(arrow)),
            (false, vec![(WM_USER_SWITCH_APPS, reverse)], true)
        );
    }
    assert_eq!(
        follow(&mut keys, release(ALT)),
        (false, vec![(WM_USER_SWITCH_APPS_DONE, 0)], false)
    );
    assert!(!keys.is_switching_apps);
}

#[test]
fn escape_calls_the_walk_off() {
    let mut keys = listener();
    follow(&mut keys, press(ALT));
    follow(&mut keys, press(TAB));
    assert!(keys.is_switching_apps);
    assert_eq!(
        follow(&mut keys, press(SCANCODE_ESCAPE)),
        (false, vec![(WM_USER_SWITCH_APPS_CANCEL, 0)], true)
    );
    assert!(!keys.is_switching_apps);
    // The key acted on last is not the one of the hotkey any more.
    assert_eq!(follow(&mut keys, release(ALT)), (false, vec![], false));
}

#[test]
fn a_walk_through_the_windows_masks_the_windows_key_once() {
    let mut keys = listener();
    assert_eq!(follow(&mut keys, press(SCANCODE_LWIN)), (false, vec![], false));
    assert_eq!(
        follow(&mut keys, press(GRAVE)),
        (true, vec![(WM_USER_SWITCH_WINDOWS, 0)], true)
    );
    // The key repeats while it is held.
    follow(&mut keys, press(SCANCODE_LWIN));
    assert_eq!(
        follow(&mut keys, press(GRAVE)),
        (false, vec![(WM_USER_SWITCH_WINDOWS, 0)], true)
    );
    assert_eq!(
        follow(&mut keys, release(SCANCODE_LWIN)),
        (false, vec![(WM_USER_SWITCH_WINDOWS_DONE, 0)], false)
    );
    follow(&mut keys, press(SCANCODE_LWIN));
    assert!(follow(&mut keys, press(GRAVE)).0);
}

#[test]
fn an_exempt_foreground_window_keeps_its_keys() {
    let mut keys = listener();
    follow(&mut keys, press(SCANCODE_LWIN));
    let reply = keys.keyboard_proc(press(GRAVE), false, true);
    assert!(!reply.consumed);
    assert!(reply.notices.is_empty());
    assert_eq!(keys.previous_keycode, 0);
    let reply = keys.keyboard_proc(press(GRAVE), true, false);
    assert!(reply.consumed);
    assert!(!reply.send_win_mask);
}

#[test]
fn hotkeys_that_share_a_modifier_end_once_each() {
    let one = Hotkey {
        id: SWITCH_APPS_HOTKEY_ID,
        name: "apps".to_string(),
        modifier: [ALT, ALT],
        code: TAB,
    };
    let other = Hotkey {
        id: SWITCH_WINDOWS_HOTKEY_ID,
        name: "windows".to_string(),
        modifier: [ALT, ALT],
        code: TAB,
    };
    let mut keys = KeyboardListener::init(&[&other, &one, &other]);
    follow(&mut keys, press(ALT));
    follow(&mut keys, press(TAB));
    assert_eq!(
        follow(&mut keys, release(ALT)).1,
        vec![(WM_USER_SWITCH_WINDOWS_DONE, 0), (WM_USER_SWITCH_APPS_DONE, 0)]
    );
}

#[test]
fn the_switchers_own_strokes_pass() {
    let mut keys = listener();
    let own = KeyStroke { scan_code: ALT, flags: 0, extra_info: WIN_MASK_INPUT_TAG };
    assert_eq!(follow(&mut keys, own), (false, vec![], false));
    assert!(!keys.hotkeys[0].is_modifier_pressed);
    let strokes = win_mask_input();
    assert_eq!(strokes.len(), 2);
    assert_eq!(
        strokes.iter().map(|s| (s.virtual_key, s.key_up)).collect::<Vec<_>>(),
        vec![(VK_CONTROL, false), (VK_CONTROL, true)]
    );
    assert!(strokes.iter().all(|s| s.extra_info == WIN_MASK_INPUT_TAG));
}

#[test]
fn the_window_understands_the_keyboard() {
    let mut keys = listener();
    let mut heard = Vec::new();
    for stroke in [
        press(ALT),
        press(TAB),
        press(SCANCODE_LEFT),
        press(SCANCODE_ESCAPE),
        press(TAB),
        release(ALT),
        press(SCANCODE_RWIN),
        press(GRAVE),
        release(SCANCODE_RWIN),
    ] {
        for (message, lparam) in follow(&mut keys, stroke).1 {
            heard.push(decode_message(message, 0, lparam, 0xc000));
        }
    }
    assert_eq!(
        heard,
        vec![
            Message::SwitchApps { reverse: false },
            Message::SwitchApps { reverse: true },
            Message::SwitchAppsCancel,
            Message::SwitchApps { reverse: false },
            Message::SwitchAppsDone,
            Message::SwitchWindows { reverse: false },
            Message::SwitchWindowsDone,
        ]
    );
}
