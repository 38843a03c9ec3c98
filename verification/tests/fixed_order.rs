use window_switcher::fixed_order::{
    merge_fixed_order, next_fixed_index, normalized_fixed_index, reconstruct_fixed_state_windows,
    rotate_fixed_order,
};

#[test]
fn merge_fixed_order_keeps_existing_positions_and_appends_new_windows() {
    let mut order = vec![1, 2, 3];

    merge_fixed_order(&mut order, &[3, 1, 4]);

    assert_eq!(order, vec![1, 3, 4]);
}

#[test]
fn merge_fixed_order_removes_windows_not_in_current_group() {
    let mut order = vec![1, 2, 3];

    merge_fixed_order(&mut order, &[2, 3]);

    assert_eq!(order, vec![2, 3]);
}

#[test]
fn rotate_fixed_order_starts_at_current_window() {
    assert_eq!(rotate_fixed_order(&[1, 2, 3], 2), Some(vec![2, 3, 1]));
}

#[test]
fn rotate_fixed_order_returns_none_for_unknown_window() {
    assert_eq!(rotate_fixed_order(&[1, 2, 3], 9), None);
}

#[test]
fn next_fixed_index_supports_forward_and_reverse_cycles() {
    assert_eq!(next_fixed_index(0, 3, false), 1);
    assert_eq!(next_fixed_index(2, 3, false), 0);
    assert_eq!(next_fixed_index(0, 3, true), 2);
    assert_eq!(next_fixed_index(2, 3, true), 1);
}

#[test]
fn fixed_state_windows_preserves_cached_order_and_appends_stable_new_windows() {
    assert_eq!(
        reconstruct_fixed_state_windows(&[4, 1], &[1, 2, 3, 4]),
        vec![4, 1, 2, 3]
    );
}

#[test]
fn normalized_fixed_index_wraps_stale_indices_and_rejects_short_cycles() {
    assert_eq!(
        normalized_fixed_index(3, 2, &[1, 2, 3], &[2, 3], false),
        Some(0)
    );
    assert_eq!(
        normalized_fixed_index(3, 2, &[1, 2, 3], &[2, 3], true),
        Some(0)
    );
    assert_eq!(
        normalized_fixed_index(9, 2, &[1, 2, 3], &[2, 3], false),
        Some(0)
    );
    assert_eq!(
        normalized_fixed_index(9, 2, &[1, 2, 4], &[2, 3], false),
        Some(1)
    );
    assert_eq!(normalized_fixed_index(1, 0, &[1], &[1], false), None);
}

#[test]
fn merging_twice_is_merging_once() {
    let mut order = vec![9, 1, 5, 2];
    merge_fixed_order(&mut order, &[2, 7, 9, 7, 8]);
    assert_eq!(order, vec![9, 2, 7, 8]);
    merge_fixed_order(&mut order, &[2, 7, 9, 7, 8]);
    assert_eq!(order, vec![9, 2, 7, 8]);
}

#[test]
fn rotation_keeps_neighbours() {
    assert_eq!(rotate_fixed_order(&[5, 6, 7, 8], 8), Some(vec![8, 5, 6, 7]));
    assert_eq!(rotate_fixed_order(&[5, 6, 7, 8], 5), Some(vec![5, 6, 7, 8]));
    assert_eq!(rotate_fixed_order(&[], 5), None);
}

#[test]
fn steps_undo_each_other_and_go_round() {
    for len in 1..7usize {
        for index in 0..len {
            let there = next_fixed_index(index, len, false);
            assert_eq!(next_fixed_index(there, len, true), index);
            let mut place = index;
            for _ in 0..len {
                place = next_fixed_index(place, len, false);
            }
            assert_eq!(place, index);
        }
    }
}
