use window_switcher::messages::client_pointer_position;
use window_switcher::switch_apps::SwitchAppsInteractionState;

#[test]
fn app_switch_interaction_starts_without_hover() {
    let state = SwitchAppsInteractionState::new(1, (10, 20));

    assert_eq!(state.keyboard_index(), 1);
    assert_eq!(state.hovered_index(), None);
    assert_eq!(state.displayed_index(), 1);
}

#[test]
fn app_switch_hover_changes_display_without_changing_keyboard_index() {
    let mut state = SwitchAppsInteractionState::new(1, (10, 20));

    assert!(state.update_hover((11, 20), Some(4)));
    assert_eq!(state.keyboard_index(), 1);
    assert_eq!(state.hovered_index(), Some(4));
    assert_eq!(state.displayed_index(), 4);
    assert!(!state.update_hover((11, 20), Some(2)));
}

#[test]
fn app_switch_forward_navigation_continues_from_keyboard_index() {
    let mut state = SwitchAppsInteractionState::new(1, (10, 20));
    state.update_hover((11, 20), Some(4));

    state.navigate(5, false, (11, 20));

    assert_eq!(state.keyboard_index(), 2);
    assert_eq!(state.hovered_index(), None);
    assert_eq!(state.displayed_index(), 2);
}

#[test]
fn app_switch_pointer_movement_restores_hover_after_keyboard_navigation() {
    let mut state = SwitchAppsInteractionState::new(1, (10, 20));
    state.update_hover((11, 20), Some(4));
    state.navigate(5, false, (11, 20));

    assert!(state.update_hover((12, 20), Some(4)));
    assert_eq!(state.keyboard_index(), 2);
    assert_eq!(state.hovered_index(), Some(4));
    assert_eq!(state.displayed_index(), 4);
}

#[test]
fn app_switch_keyboard_navigation_resets_pointer_baseline() {
    let mut state = SwitchAppsInteractionState::new(1, (10, 20));
    state.update_hover((11, 20), Some(4));

    state.navigate(5, false, (30, 40));

    assert_eq!(state.keyboard_index(), 2);
    assert_eq!(state.hovered_index(), None);
    assert!(!state.update_hover((30, 40), Some(4)));
}

#[test]
fn app_switch_reverse_navigation_wraps_from_keyboard_index() {
    let mut state = SwitchAppsInteractionState::new(0, (10, 20));
    state.update_hover((11, 20), Some(2));

    state.navigate(4, true, (11, 20));

    assert_eq!(state.keyboard_index(), 3);
    assert_eq!(state.hovered_index(), None);
    assert_eq!(state.displayed_index(), 3);
}

#[test]
fn app_switch_modifier_release_keeps_keyboard_target_while_hovered() {
    let mut state = SwitchAppsInteractionState::new(1, (10, 20));
    state.update_hover((11, 20), Some(3));

    assert_eq!(state.keyboard_index(), 1);
}

#[test]
fn app_switch_mouse_leave_clears_hover_without_changing_keyboard_index() {
    let mut state = SwitchAppsInteractionState::new(1, (10, 20));
    state.update_hover((11, 20), Some(3));

    assert!(state.clear_hover());
    assert_eq!(state.keyboard_index(), 1);
    assert_eq!(state.hovered_index(), None);
    assert_eq!(state.displayed_index(), 1);
    assert!(!state.clear_hover());
}

#[test]
fn app_switch_display_resets_pointer_baseline_without_activating_hover() {
    let mut state = SwitchAppsInteractionState::new(1, (10, 20));

    state.reset_pointer_position((15, 25));

    assert_eq!(state.hovered_index(), None);
    assert!(!state.update_hover((15, 25), Some(3)));
    assert!(state.update_hover((16, 25), Some(3)));
}

#[test]
fn mouse_message_position_preserves_signed_client_coordinates() {
    let x = 7i16;
    let y = -5i16;
    let packed = u32::from(x as u16) | (u32::from(y as u16) << 16);

    assert_eq!(client_pointer_position(packed as isize), (7, -5));
}

#[test]
fn a_step_back_undoes_a_step() {
    for count in 1..6usize {
        for index in 0..count {
            for reverse in [false, true] {
                let mut state = SwitchAppsInteractionState::new(index, (0, 0));
                state.navigate(count, reverse, (1, 1));
                assert!(state.keyboard_index() < count);
                assert_eq!(count > 1, state.keyboard_index() != index);
                state.navigate(count, !reverse, (2, 2));
                assert_eq!(state.keyboard_index(), index);
            }
        }
    }
}

#[test]
fn a_step_among_no_applications_only_forgets_the_pointer() {
    let mut state = SwitchAppsInteractionState::new(3, (0, 0));
    assert!(state.update_hover((1, 0), Some(1)));

    state.navigate(0, true, (5, 5));

    assert_eq!(state.keyboard_index(), 3);
    assert_eq!(state.hovered_index(), None);
    assert_eq!(state.pointer_position, (5, 5));
}

#[test]
fn moving_over_the_same_application_changes_nothing_but_the_position() {
    let mut state = SwitchAppsInteractionState::new(0, (0, 0));
    assert!(state.update_hover((1, 0), Some(1)));
    assert!(!state.update_hover((2, 0), Some(1)));
    assert_eq!(state.pointer_position, (2, 0));
    assert!(state.update_hover((3, 0), None));
    assert_eq!(state.displayed_index(), 0);
}
